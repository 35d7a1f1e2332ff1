//! What the operations guarantee of one another on a ledger.

use vstd::prelude::*;
use crate::address::{anchor_address, content_address};
use crate::anchors::resolve_result;
use crate::ledger::{
    addresses_of, anchor_index, at_address, commit, edges_of, entry_index, fetch, lemma_commit,
    lemma_edge_live, lemma_link, lemma_resolve, lemma_respond_well_formed, lemma_without, link,
    named, resolve, respond, tick, unlink, well_formed, without, LedgerView, LinkView,
};
use crate::lifecycle::{
    create_result, delete_result, drive, handle_live, holder, holding, index_link, lemma_delete,
    lemma_drive_step, lemma_rebase, lemma_stamped, lemma_update, list_result, listed_record,
    read_result, readable, readable_from, rebase_result, records_from, stamped, update_result,
    version_link,
};
use crate::protocol::{
    begin_delete_spec, begin_rebase_spec, begin_update_spec, ActionView, EdgeView, EventView,
    PhaseView, StepView,
};
use crate::record::{conforms, Failure, FieldView, KindView, RecordView};
use crate::scan::{first_index, lemma_first_index, lemma_first_index_is, lemma_first_index_none};
use crate::text::Text;
use crate::timestamp::{taggable, text_timestamp, timestamp_text};

verus! {

/// The edges that index the records of a kind under a base: those of the
/// kind's index links from the base's anchor.
pub open spec fn indexed(ledger: LedgerView, kind: KindView, base: Text) -> Seq<EdgeView> {
    edges_of(ledger.links, anchor_address(kind.anchor_type, base), kind.link_type)
}

/// The addresses of the records of a list.
pub open spec fn record_addresses(records: Seq<RecordView>) -> Set<Text> {
    Set::new(
        |address: Text|
            exists|i: int| 0 <= i < records.len() && (#[trigger] records[i]).address == address,
    )
}

/// No other index link of a base leads to an address than the one with the
/// tag of a creation time.
pub open spec fn only_link_to(
    ledger: LedgerView,
    kind: KindView,
    base: Text,
    address: Text,
    created_at: i64,
) -> bool {
    forall|tag: Text| #[trigger]
        ledger.links.contains(
            index_link(kind, anchor_address(kind.anchor_type, base), address, tag),
        ) ==> tag == timestamp_text(created_at)
}

/// Every live link of a ledger carries a creation time in its tag.
pub open spec fn tags_hold_times(ledger: LedgerView) -> bool {
    forall|link: LinkView| #[trigger] ledger.links.contains(link) ==> text_timestamp(link.tag) is Some
}

/// One `create`: the base it indexes under and the payload it writes.
pub struct Creation {
    pub base: Text,
    pub payload: Seq<FieldView>,
}

/// The ledger after a row of creates, each on what the one before left.
pub open spec fn after_creates(
    ledger: LedgerView,
    kind: KindView,
    creations: Seq<Creation>,
) -> LedgerView
    decreases creations.len(),
{
    if creations.len() == 0 {
        ledger
    } else {
        create_result(
            after_creates(ledger, kind, creations.drop_last()),
            kind,
            creations.last().base,
            creations.last().payload,
        ).0
    }
}

/// Whether each create of a row of creates succeeds.
pub open spec fn all_created(ledger: LedgerView, kind: KindView, creations: Seq<Creation>) -> bool
    decreases creations.len(),
{
    creations.len() == 0 || (all_created(ledger, kind, creations.drop_last()) && create_result(
        after_creates(ledger, kind, creations.drop_last()),
        kind,
        creations.last().base,
        creations.last().payload,
    ).1 is Ok)
}

/// The addresses of the entries that a row of creates wrote under a base.
pub open spec fn created_under(kind: KindView, creations: Seq<Creation>, base: Text) -> Set<Text> {
    Set::new(
        |address: Text|
            exists|i: int|
                0 <= i < creations.len() && (#[trigger] creations[i]).base == base
                    && content_address(kind.name, creations[i].payload) == address,
    )
}

/// The index link of a create, had it been made at a time.
pub open spec fn creation_link(kind: KindView, creation: Creation, created_at: i64) -> LinkView {
    index_link(
        kind,
        anchor_address(kind.anchor_type, creation.base),
        content_address(kind.name, creation.payload),
        timestamp_text(created_at),
    )
}

/// Whether the index link of a create is live, under the tag of some creation
/// time.
pub open spec fn has_link(ledger: LedgerView, kind: KindView, creation: Creation) -> bool {
    exists|created_at: i64|
        taggable(created_at) && ledger.links.contains(
            #[trigger] creation_link(kind, creation, created_at),
        )
}

/// Whether a link is the index link of one of a row of creates, under the tag
/// of some creation time.
pub open spec fn made_by(kind: KindView, creations: Seq<Creation>, link: LinkView) -> bool {
    exists|i: int, created_at: i64|
        0 <= i < creations.len() && taggable(created_at) && link == #[trigger] creation_link(
            kind,
            creations[i],
            created_at,
        )
}

/// Resolving an anchor a second time gives what the first time gave, and
/// changes nothing. The address of an anchor is that of its type and tag, in
/// whatever ledger it is resolved.
pub proof fn law_resolve_twice(ledger: LedgerView, anchor_type: Text, tag: Text)
    requires
        well_formed(ledger),
    ensures
        resolve_result(resolve_result(ledger, anchor_type, tag).0, anchor_type, tag)
            == resolve_result(ledger, anchor_type, tag),
        resolve_result(ledger, anchor_type, tag).1 matches Ok(address) ==> address
            == anchor_address(anchor_type, tag),
{
    lemma_resolve(ledger, anchor_type, tag);
}

/// A record that was created reads back as it was created: `read` of its
/// handle gives the record that `create` gave.
pub proof fn law_read_after_create(
    ledger: LedgerView,
    kind: KindView,
    base: Text,
    payload: Seq<FieldView>,
)
    ensures
        create_result(ledger, kind, base, payload).1 matches Ok(record) ==> read_result(
            create_result(ledger, kind, base, payload).0,
            record.id,
            record.created_at,
        ) == Ok::<RecordView, Failure>(record),
{
    lemma_commit(ledger, kind.name, payload);
}

/// What a `list` that succeeds hands out: one record for each edge that
/// indexes the base, in the edges' order, with the edge's target as its
/// address.
pub proof fn law_list_follows_index(ledger: LedgerView, kind: KindView, base: Text)
    requires
        well_formed(ledger),
    ensures
        list_result(ledger, kind, base).0.links == ledger.links,
        list_result(ledger, kind, base).0.entries == ledger.entries,
        list_result(ledger, kind, base).1 matches Ok(records) ==> {
            &&& records.len() == indexed(ledger, kind, base).len()
            &&& forall|i: int|
                0 <= i < records.len() ==> #[trigger] records[i] == listed_record(
                    ledger,
                    indexed(ledger, kind, base)[i],
                )
            &&& forall|i: int|
                0 <= i < records.len() ==> (#[trigger] records[i]).address == indexed(
                    ledger,
                    kind,
                    base,
                )[i].target
        },
{
    lemma_resolve(ledger, kind.anchor_type, base);
}

/// After records were created under any bases, and none of them was updated
/// or deleted, `list` of a base that indexed nothing before and under which
/// one of them was created succeeds and hands out exactly the records created
/// under it: the addresses of its records are the addresses of the entries
/// created under the base.
pub proof fn law_list_after_creates(
    ledger: LedgerView,
    kind: KindView,
    creations: Seq<Creation>,
    base: Text,
)
    requires
        well_formed(ledger),
        indexed(ledger, kind, base).len() == 0,
        all_created(ledger, kind, creations),
        exists|i: int| 0 <= i < creations.len() && (#[trigger] creations[i]).base == base,
    ensures
        list_result(after_creates(ledger, kind, creations), kind, base).0 == after_creates(
            ledger,
            kind,
            creations,
        ),
        list_result(after_creates(ledger, kind, creations), kind, base).1 matches Ok(records)
            && record_addresses(records) == created_under(kind, creations, base),
{
    let after = after_creates(ledger, kind, creations);
    let anchor = anchor_address(kind.anchor_type, base);
    lemma_creates(ledger, kind, creations);
    lemma_resolve(after, kind.anchor_type, base);
    let here = choose|i: int| 0 <= i < creations.len() && (#[trigger] creations[i]).base == base;
    assert(anchor_index(after.anchors, kind.anchor_type, creations[here].base) is Some);
    let edges = indexed(after, kind, base);
    // Every edge of the base is the index link of a create under the base.
    assert forall|edge: EdgeView| #[trigger] edges.contains(edge) implies readable(after, edge)
        && created_under(kind, creations, base).contains(edge.target) by {
        lemma_indexed(after, kind, base, edge);
        lemma_indexed(ledger, kind, base, edge);
        let held = index_link(kind, anchor, edge.target, edge.tag);
        assert(!ledger.links.contains(held)) by {
            if ledger.links.contains(held) {
                let k = choose|k: int|
                    0 <= k < indexed(ledger, kind, base).len() && indexed(ledger, kind, base)[k]
                        == edge;
            }
        }
        assert(made_by(kind, creations, held));
        let (i, created_at) = choose|i: int, created_at: i64|
            0 <= i < creations.len() && taggable(created_at) && held == #[trigger] creation_link(
                kind,
                creations[i],
                created_at,
            );
        lemma_same_anchor(after, kind.anchor_type, creations[i].base, base);
        assert(creations[i].base == base);
        assert(fetch(after, content_address(kind.name, creations[i].payload)) is Payload);
    }
    assert(readable_from(after, edges, 0)) by {
        assert forall|i: int| 0 <= i < edges.len() implies readable(after, #[trigger] edges[i]) by {
            assert(edges.contains(edges[i]));
        }
    }
    let records = records_from(after, edges, 0);
    assert(list_result(after, kind, base).1 == Ok::<Seq<RecordView>, Failure>(records));
    assert forall|address: Text|
        record_addresses(records).contains(address) <==> created_under(
            kind,
            creations,
            base,
        ).contains(address) by {
        if record_addresses(records).contains(address) {
            let i = choose|i: int|
                0 <= i < records.len() && (#[trigger] records[i]).address == address;
            assert(edges.contains(edges[i]));
        }
        if created_under(kind, creations, base).contains(address) {
            let i = choose|i: int|
                0 <= i < creations.len() && (#[trigger] creations[i]).base == base
                    && content_address(kind.name, creations[i].payload) == address;
            assert(has_link(after, kind, creations[i]));
            let created_at = choose|created_at: i64|
                taggable(created_at) && after.links.contains(
                    #[trigger] creation_link(kind, creations[i], created_at),
                );
            let edge = EdgeView { target: address, tag: timestamp_text(created_at) };
            lemma_indexed(after, kind, base, edge);
            let k = choose|k: int| 0 <= k < edges.len() && edges[k] == edge;
            assert(records[k].address == address);
        }
    }
    assert(record_addresses(records) =~= created_under(kind, creations, base));
}

/// After a version was replaced, the base that indexed it indexes the new
/// entry, which holds the new payload: a `list` of the base hands out a
/// record with the new payload. The base is the one whose anchor is the first
/// of the kind's anchors under which the handle was live. Where the new entry
/// has another address than the old, the base no longer indexes the old
/// handle; where also the replaced link was the only one of the base that led
/// to the old address, no edge of the base leads there any more, and `list`
/// hands out no record with the old address.
pub proof fn law_update_supersedes(
    ledger: LedgerView,
    kind: KindView,
    base: Text,
    id: Text,
    created_at: i64,
    address: Text,
    payload: Seq<FieldView>,
)
    requires
        well_formed(ledger),
        update_result(ledger, kind, id, created_at, address, payload).1 is Ok,
        holder(ledger, kind, id, created_at, address) == Some(
            anchor_address(kind.anchor_type, base),
        ),
    ensures
        update_result(ledger, kind, id, created_at, address, payload).1 matches Ok(record) && {
            let after = update_result(ledger, kind, id, created_at, address, payload).0;
            &&& record.payload == payload
            &&& record.address == content_address(kind.name, payload)
            &&& fetch(after, record.address) == EventView::Payload(payload)
            &&& indexed(after, kind, base).contains(
                EdgeView { target: record.address, tag: timestamp_text(record.created_at) },
            )
            &&& record.address != address ==> !indexed(after, kind, base).contains(
                EdgeView { target: address, tag: timestamp_text(created_at) },
            )
            &&& list_result(after, kind, base).1 matches Ok(records) ==> exists|i: int|
                0 <= i < records.len() && (#[trigger] records[i]).address == record.address
                    && records[i].payload == payload
            &&& record.address != address && only_link_to(ledger, kind, base, address, created_at)
                ==> {
                &&& forall|edge: EdgeView| #[trigger]
                    indexed(after, kind, base).contains(edge) ==> edge.target != address
                &&& list_result(after, kind, base).1 matches Ok(records) ==> forall|i: int|
                    0 <= i < records.len() ==> (#[trigger] records[i]).address != address
            }
        },
{
    let tag = timestamp_text(created_at);
    let anchor = anchor_address(kind.anchor_type, base);
    let written = commit(ledger, kind.name, payload);
    lemma_commit(ledger, kind.name, payload);
    let fresh = content_address(kind.name, payload);
    lemma_holder_after_commit(ledger, kind, id, created_at, address, payload);
    assert(holder(written.0, kind, id, created_at, address) == Some(anchor));
    let removed = index_link(kind, anchor, address, tag);
    let unlinked = unlink(written.0, removed);
    lemma_stamped_effect(unlinked, kind, anchor, Some(id), fresh, payload);
    let after = update_result(ledger, kind, id, created_at, address, payload).0;
    let record = update_result(ledger, kind, id, created_at, address, payload).1->Ok_0;
    let fresh_tag = timestamp_text(record.created_at);
    assert(after.entries == written.0.entries);
    lemma_indexed(after, kind, base, EdgeView { target: record.address, tag: fresh_tag });
    // The old edge is gone, unless the new entry is the old one.
    lemma_indexed(after, kind, base, EdgeView { target: address, tag });
    lemma_without(ledger.links, removed, removed);
    assert(well_formed(after)) by {
        assert(after.anchors == ledger.anchors);
    }
    law_list_follows_index(after, kind, base);
    match list_result(after, kind, base).1 {
        Ok(records) => {
            let edges = indexed(after, kind, base);
            let wanted_edge = EdgeView { target: record.address, tag: fresh_tag };
            let k = choose|k: int| 0 <= k < edges.len() && edges[k] == wanted_edge;
            assert(records[k] == listed_record(after, wanted_edge));
            assert(records[k].address == record.address && records[k].payload == payload);
        },
        Err(_) => {},
    }
    if record.address != address && only_link_to(ledger, kind, base, address, created_at) {
        assert forall|edge: EdgeView| #[trigger]
            indexed(after, kind, base).contains(edge) implies edge.target != address by {
            lemma_indexed(after, kind, base, edge);
            let held = index_link(kind, anchor, edge.target, edge.tag);
            lemma_without(ledger.links, removed, held);
            if edge.target == address {
                assert(after.links.contains(held));
                assert(held != index_link(kind, anchor, fresh, fresh_tag));
                assert(held != version_link(kind, id, fresh, fresh_tag));
                assert(unlinked.links.contains(held));
                assert(ledger.links.contains(index_link(kind, anchor, address, edge.tag)));
            }
        }
        match list_result(after, kind, base).1 {
            Ok(records) => {
                let edges = indexed(after, kind, base);
                assert forall|i: int| 0 <= i < records.len() implies (
                #[trigger] records[i]).address != address by {
                    assert(edges.contains(edges[i]));
                }
            },
            Err(_) => {},
        }
    }
}

/// After a version was deleted from a base, the base no longer indexes its
/// handle, the entry is no longer handed out, and no record that `list` hands
/// out for the base has the address. Where the deleted link was the only one
/// of the base that led to the address, no edge of the base leads there any
/// more.
pub proof fn law_delete_unindexes(
    ledger: LedgerView,
    kind: KindView,
    base: Text,
    id: Text,
    created_at: i64,
    address: Text,
)
    requires
        well_formed(ledger),
        delete_result(ledger, kind, base, id, created_at, address).1 is Ok,
    ensures
        !indexed(delete_result(ledger, kind, base, id, created_at, address).0, kind, base).contains(
            EdgeView { target: address, tag: timestamp_text(created_at) },
        ),
        fetch(delete_result(ledger, kind, base, id, created_at, address).0, address) is Missing,
        list_result(
            delete_result(ledger, kind, base, id, created_at, address).0,
            kind,
            base,
        ).1 matches Ok(records) ==> forall|i: int|
            0 <= i < records.len() ==> (#[trigger] records[i]).address != address,
        only_link_to(ledger, kind, base, address, created_at) ==> forall|edge: EdgeView| #[trigger]
            indexed(delete_result(ledger, kind, base, id, created_at, address).0, kind, base).contains(
                edge,
            ) ==> edge.target != address,
{
    let after = delete_result(ledger, kind, base, id, created_at, address).0;
    let anchor = anchor_address(kind.anchor_type, base);
    let tag = timestamp_text(created_at);
    let removed = index_link(kind, anchor, address, tag);
    lemma_resolve(ledger, kind.anchor_type, base);
    let anchored = resolve(ledger, kind.anchor_type, base);
    let unlinked = unlink(anchored.0, removed);
    assert(after.links == without(anchored.0.links, removed));
    // The handle's own edge is gone.
    lemma_indexed(after, kind, base, EdgeView { target: address, tag });
    lemma_without(ledger.links, removed, removed);
    // The entry is no longer handed out.
    lemma_first_index(unlinked.entries, at_address(address));
    let k = entry_index(unlinked.entries, address).unwrap();
    assert forall|j: int| 0 <= j < k implies !at_address(address)(#[trigger] after.entries[j]) by {
        assert(after.entries[j] == unlinked.entries[j]);
    }
    lemma_first_index_is(after.entries, at_address(address), k);
    assert(fetch(after, address) is Missing);
    // A list that succeeds has read every edge, so none leads to the entry.
    lemma_respond_well_formed(unlinked, ActionView::Retire { address });
    law_list_follows_index(after, kind, base);
    lemma_resolve(after, kind.anchor_type, base);
    match list_result(after, kind, base).1 {
        Ok(records) => {
            let edges = indexed(after, kind, base);
            let listing = list_result(after, kind, base).0;
            assert(readable_from(listing, edges, 0));
            assert forall|i: int| 0 <= i < records.len() implies (
            #[trigger] records[i]).address != address by {
                assert(readable(listing, edges[i]));
                assert(fetch(listing, edges[i].target) == fetch(after, edges[i].target));
            }
        },
        Err(_) => {},
    }
    if only_link_to(ledger, kind, base, address, created_at) {
        assert forall|edge: EdgeView| #[trigger]
            indexed(after, kind, base).contains(edge) implies edge.target != address by {
            lemma_indexed(after, kind, base, edge);
            let held = index_link(kind, anchor, edge.target, edge.tag);
            lemma_without(ledger.links, removed, held);
            if edge.target == address {
                assert(ledger.links.contains(index_link(kind, anchor, address, edge.tag)));
            }
        }
    }
}

/// After a record was moved from one base to another, the second base
/// indexes it under the tag it had, it reads there as it read before, and the
/// first base no longer indexes it. Where the moved link was the only one of
/// the first base that led to the record, no record that `list` hands out for
/// the first base has its address.
pub proof fn law_rebase_moves(
    ledger: LedgerView,
    kind: KindView,
    base_from: Text,
    base_to: Text,
    id: Text,
    created_at: i64,
)
    requires
        well_formed(ledger),
        base_from != base_to,
        rebase_result(ledger, kind, base_from, base_to, id, created_at).1 is Ok,
    ensures
        indexed(ledger, kind, base_from).contains(
            EdgeView { target: id, tag: timestamp_text(created_at) },
        ),
        indexed(
            rebase_result(ledger, kind, base_from, base_to, id, created_at).0,
            kind,
            base_to,
        ).contains(EdgeView { target: id, tag: timestamp_text(created_at) }),
        !indexed(
            rebase_result(ledger, kind, base_from, base_to, id, created_at).0,
            kind,
            base_from,
        ).contains(EdgeView { target: id, tag: timestamp_text(created_at) }),
        listed_record(
            rebase_result(ledger, kind, base_from, base_to, id, created_at).0,
            EdgeView { target: id, tag: timestamp_text(created_at) },
        ) == listed_record(ledger, EdgeView { target: id, tag: timestamp_text(created_at) }),
        list_result(
            rebase_result(ledger, kind, base_from, base_to, id, created_at).0,
            kind,
            base_to,
        ).1 matches Ok(records) ==> records.contains(
            listed_record(ledger, EdgeView { target: id, tag: timestamp_text(created_at) }),
        ),
        only_link_to(ledger, kind, base_from, id, created_at) ==> (list_result(
            rebase_result(ledger, kind, base_from, base_to, id, created_at).0,
            kind,
            base_from,
        ).1 matches Ok(records) ==> forall|i: int|
            0 <= i < records.len() ==> (#[trigger] records[i]).address != id),
{
    let after = rebase_result(ledger, kind, base_from, base_to, id, created_at).0;
    let tag = timestamp_text(created_at);
    let edge = EdgeView { target: id, tag };
    let from = anchor_address(kind.anchor_type, base_from);
    let to = anchor_address(kind.anchor_type, base_to);
    lemma_resolve(ledger, kind.anchor_type, base_from);
    let first = resolve(ledger, kind.anchor_type, base_from);
    lemma_resolve(first.0, kind.anchor_type, base_to);
    let second = resolve(first.0, kind.anchor_type, base_to);
    // The two anchors are different anchors of a well-formed ledger.
    lemma_resolve(second.0, kind.anchor_type, base_from);
    lemma_first_index(second.0.anchors, named(kind.anchor_type, base_from));
    lemma_first_index(second.0.anchors, named(kind.anchor_type, base_to));
    lemma_first_index(first.0.anchors, named(kind.anchor_type, base_from));
    assert(anchor_index(first.0.anchors, kind.anchor_type, base_from) is Some);
    let i = anchor_index(first.0.anchors, kind.anchor_type, base_from).unwrap();
    assert(second.0.anchors[i] == first.0.anchors[i]);
    let j = anchor_index(second.0.anchors, kind.anchor_type, base_to).unwrap();
    assert(second.0.anchors[i].tag == base_from);
    assert(second.0.anchors[j].tag == base_to);
    assert(i != j);
    assert(second.0.anchors[i].address == from);
    assert(second.0.anchors[j].address == to);
    assert(from != to);
    let moved = index_link(kind, from, id, tag);
    let placed = index_link(kind, to, id, tag);
    assert(after.links == link(unlink(second.0, moved), placed).links);
    lemma_indexed(ledger, kind, base_from, edge);
    lemma_indexed(after, kind, base_to, edge);
    lemma_indexed(after, kind, base_from, edge);
    lemma_link(unlink(second.0, moved), placed, placed);
    lemma_link(unlink(second.0, moved), placed, moved);
    lemma_without(second.0.links, moved, moved);
    assert(after.entries == ledger.entries);
    lemma_respond_well_formed(
        second.0,
        ActionView::Unlink {
            base: from,
            target: id,
            link_type: kind.link_type,
            tag,
        },
    );
    lemma_respond_well_formed(
        unlink(second.0, moved),
        ActionView::Link { base: to, target: id, link_type: kind.link_type, tag },
    );
    law_list_follows_index(after, kind, base_to);
    match list_result(after, kind, base_to).1 {
        Ok(records) => {
            let edges = indexed(after, kind, base_to);
            let k = choose|k: int| 0 <= k < edges.len() && edges[k] == edge;
            assert(records[k] == listed_record(after, edge));
        },
        Err(_) => {},
    }
    if only_link_to(ledger, kind, base_from, id, created_at) {
        law_list_follows_index(after, kind, base_from);
        match list_result(after, kind, base_from).1 {
            Ok(records) => {
                let edges = indexed(after, kind, base_from);
                assert forall|i: int| 0 <= i < records.len() implies (
                #[trigger] records[i]).address != id by {
                    let other = edges[i];
                    assert(edges.contains(other));
                    lemma_indexed(after, kind, base_from, other);
                    let held = index_link(kind, from, other.target, other.tag);
                    lemma_link(unlink(second.0, moved), placed, held);
                    lemma_without(second.0.links, moved, held);
                    if other.target == id {
                        assert(ledger.links.contains(index_link(kind, from, id, other.tag)));
                    }
                }
            },
            Err(_) => {},
        }
    }
}

/// An update is not one step. After its request to remove the old index link
/// and before its request to add the new one, the ledger is one in which the
/// base no longer indexes the old handle and indexes nothing that it did not
/// index before: whoever lists the base then finds the record in neither
/// version.
pub proof fn law_update_leaves_a_gap(
    ledger: LedgerView,
    kind: KindView,
    base: Text,
    id: Text,
    created_at: i64,
    address: Text,
    payload: Seq<FieldView>,
)
    requires
        conforms(kind.schema, payload),
        ledger.online,
        commit(ledger, kind.name, payload).1 is Address,
        holder(ledger, kind, id, created_at, address) == Some(
            anchor_address(kind.anchor_type, base),
        ),
    ensures
        ({
            let anchor = anchor_address(kind.anchor_type, base);
            let fresh = content_address(kind.name, payload);
            let between = unlink(
                commit(ledger, kind.name, payload).0,
                index_link(kind, anchor, address, timestamp_text(created_at)),
            );
            &&& drive(ledger, kind, begin_update_spec(kind, id, created_at, address, payload))
                == drive(
                between,
                kind,
                StepView::Ask(
                    PhaseView::Stamping { anchor, origin: Some(id), address: fresh, payload },
                    ActionView::Now,
                ),
            )
            &&& !indexed(between, kind, base).contains(
                EdgeView { target: address, tag: timestamp_text(created_at) },
            )
            &&& forall|edge: EdgeView| #[trigger]
                indexed(between, kind, base).contains(edge) ==> indexed(ledger, kind, base).contains(
                    edge,
                )
        }),
{
    let tag = timestamp_text(created_at);
    let anchor = anchor_address(kind.anchor_type, base);
    let fresh = content_address(kind.name, payload);
    let written = commit(ledger, kind.name, payload);
    lemma_commit(ledger, kind.name, payload);
    lemma_holder_after_commit(ledger, kind, id, created_at, address, payload);
    let removed = index_link(kind, anchor, address, tag);
    let between = unlink(written.0, removed);
    lemma_update(ledger, kind, id, created_at, address, payload);
    lemma_stamped(between, kind, anchor, Some(id), fresh, payload);
    lemma_indexed(between, kind, base, EdgeView { target: address, tag });
    lemma_without(ledger.links, removed, removed);
    assert forall|edge: EdgeView| #[trigger]
        indexed(between, kind, base).contains(edge) implies indexed(ledger, kind, base).contains(
        edge,
    ) by {
        lemma_indexed(between, kind, base, edge);
        lemma_indexed(ledger, kind, base, edge);
        lemma_without(ledger.links, removed, index_link(kind, anchor, edge.target, edge.tag));
    }
}

/// A delete is not one step. After its request to remove the index link and
/// before its request to remove the entry, the ledger is one in which the
/// base no longer indexes the handle while the entry reads as it read before.
pub proof fn law_delete_leaves_a_gap(
    ledger: LedgerView,
    kind: KindView,
    base: Text,
    id: Text,
    created_at: i64,
    address: Text,
)
    requires
        well_formed(ledger),
        delete_result(ledger, kind, base, id, created_at, address).1 is Ok,
    ensures
        ({
            let anchor = anchor_address(kind.anchor_type, base);
            let tag = timestamp_text(created_at);
            let between = unlink(
                resolve(ledger, kind.anchor_type, base).0,
                index_link(kind, anchor, address, tag),
            );
            &&& drive(ledger, kind, begin_delete_spec(kind, base, id, created_at, address))
                == drive(
                between,
                kind,
                StepView::Ask(PhaseView::DeleteRetiring { address }, ActionView::Retire { address }),
            )
            &&& !indexed(between, kind, base).contains(EdgeView { target: address, tag })
            &&& fetch(between, address) is Payload
            &&& fetch(between, address) == fetch(ledger, address)
        }),
{
    let anchor = anchor_address(kind.anchor_type, base);
    let tag = timestamp_text(created_at);
    lemma_resolve(ledger, kind.anchor_type, base);
    let anchored = resolve(ledger, kind.anchor_type, base);
    let removed = index_link(kind, anchor, address, tag);
    let between = unlink(anchored.0, removed);
    lemma_delete(ledger, kind, base, id, created_at, address);
    lemma_drive_step(
        between,
        kind,
        PhaseView::DeleteRetiring { address },
        ActionView::Retire { address },
    );
    lemma_indexed(between, kind, base, EdgeView { target: address, tag });
    lemma_without(ledger.links, removed, removed);
}

/// A rebase is not one step. After its request to remove the link from the
/// first base and before its request to add it to the second, the ledger is
/// one in which the first base no longer indexes the record and the second,
/// if it is another base, indexes nothing that it did not index before.
pub proof fn law_rebase_leaves_a_gap(
    ledger: LedgerView,
    kind: KindView,
    base_from: Text,
    base_to: Text,
    id: Text,
    created_at: i64,
)
    requires
        well_formed(ledger),
        base_from != base_to,
        rebase_result(ledger, kind, base_from, base_to, id, created_at).1 is Ok,
    ensures
        ({
            let from = anchor_address(kind.anchor_type, base_from);
            let to = anchor_address(kind.anchor_type, base_to);
            let tag = timestamp_text(created_at);
            let resolved = resolve(
                resolve(ledger, kind.anchor_type, base_from).0,
                kind.anchor_type,
                base_to,
            ).0;
            let between = unlink(resolved, index_link(kind, from, id, tag));
            &&& drive(ledger, kind, begin_rebase_spec(kind, base_from, base_to, id, created_at))
                == drive(
                between,
                kind,
                StepView::Ask(
                    PhaseView::RebaseLinking { id },
                    ActionView::Link { base: to, target: id, link_type: kind.link_type, tag },
                ),
            )
            &&& !indexed(between, kind, base_from).contains(EdgeView { target: id, tag })
            &&& forall|edge: EdgeView| #[trigger]
                indexed(between, kind, base_to).contains(edge) ==> indexed(
                    ledger,
                    kind,
                    base_to,
                ).contains(edge)
        }),
{
    let from = anchor_address(kind.anchor_type, base_from);
    let to = anchor_address(kind.anchor_type, base_to);
    let tag = timestamp_text(created_at);
    lemma_resolve(ledger, kind.anchor_type, base_from);
    let first = resolve(ledger, kind.anchor_type, base_from);
    lemma_resolve(first.0, kind.anchor_type, base_to);
    let second = resolve(first.0, kind.anchor_type, base_to);
    let moved = index_link(kind, from, id, tag);
    let between = unlink(second.0, moved);
    lemma_rebase(ledger, kind, base_from, base_to, id, created_at);
    lemma_drive_step(
        between,
        kind,
        PhaseView::RebaseLinking { id },
        ActionView::Link { base: to, target: id, link_type: kind.link_type, tag },
    );
    lemma_indexed(between, kind, base_from, EdgeView { target: id, tag });
    lemma_without(ledger.links, moved, moved);
    assert forall|edge: EdgeView| #[trigger]
        indexed(between, kind, base_to).contains(edge) implies indexed(ledger, kind, base_to).contains(
        edge,
    ) by {
        lemma_indexed(between, kind, base_to, edge);
        lemma_indexed(ledger, kind, base_to, edge);
        lemma_without(ledger.links, moved, index_link(kind, to, edge.target, edge.tag));
    }
}

/// When the operations succeed. `create` and `update` succeed exactly when
/// the payload has the kind's shape, the ledger is online, the payload's
/// address is free or holds the same content, the anchor can be had (for
/// `update`: an anchor holds the handle), and the clock gives a time that can
/// stand in a tag. `read` succeeds exactly when the ledger is online and the
/// address holds a live entry. `delete` succeeds exactly when the ledger is
/// online, the anchor can be had, the handle is live under it and the address
/// holds a live entry. `list` succeeds exactly when the ledger is online, the
/// anchor can be had and every record of the base can be read. `rebase`
/// succeeds exactly when the ledger is online, both anchors can be had and the
/// link is live under the first.
pub proof fn law_success(
    ledger: LedgerView,
    kind: KindView,
    base: Text,
    other_base: Text,
    id: Text,
    created_at: i64,
    address: Text,
    payload: Seq<FieldView>,
)
    requires
        well_formed(ledger),
    ensures
        create_result(ledger, kind, base, payload).1 is Ok <==> {
            &&& conforms(kind.schema, payload)
            &&& ledger.online
            &&& commit(ledger, kind.name, payload).1 is Address
            &&& resolve(ledger, kind.anchor_type, base).1 is Address
            &&& ledger.clock < i64::MAX
            &&& taggable((ledger.clock + 1) as i64)
        },
        update_result(ledger, kind, id, created_at, address, payload).1 is Ok <==> {
            &&& conforms(kind.schema, payload)
            &&& ledger.online
            &&& commit(ledger, kind.name, payload).1 is Address
            &&& holder(ledger, kind, id, created_at, address) is Some
            &&& ledger.clock < i64::MAX
            &&& taggable((ledger.clock + 1) as i64)
        },
        read_result(ledger, id, created_at) is Ok <==> ledger.online && fetch(ledger, id)
            is Payload,
        delete_result(ledger, kind, base, id, created_at, address).1 is Ok <==> {
            &&& ledger.online
            &&& resolve(ledger, kind.anchor_type, base).1 is Address
            &&& handle_live(
                ledger,
                kind,
                anchor_address(kind.anchor_type, base),
                id,
                created_at,
                address,
            )
            &&& fetch(ledger, address) is Payload
        },
        list_result(ledger, kind, base).1 is Ok <==> {
            &&& ledger.online
            &&& resolve(ledger, kind.anchor_type, base).1 is Address
            &&& readable_from(ledger, indexed(ledger, kind, base), 0)
        },
        rebase_result(ledger, kind, base, other_base, id, created_at).1 is Ok <==> {
            &&& ledger.online
            &&& resolve(ledger, kind.anchor_type, base).1 is Address
            &&& resolve(
                resolve(ledger, kind.anchor_type, base).0,
                kind.anchor_type,
                other_base,
            ).1 is Address
            &&& ledger.links.contains(
                index_link(
                    kind,
                    anchor_address(kind.anchor_type, base),
                    id,
                    timestamp_text(created_at),
                ),
            )
        },
{
    let written = commit(ledger, kind.name, payload);
    lemma_commit(ledger, kind.name, payload);
    lemma_resolve(ledger, kind.anchor_type, base);
    lemma_resolve(written.0, kind.anchor_type, base);
    lemma_resolve_alike(ledger, written.0, kind.anchor_type, base);
    lemma_holder_after_commit(ledger, kind, id, created_at, address, payload);
    let anchored = resolve(ledger, kind.anchor_type, base);
    lemma_resolve(anchored.0, kind.anchor_type, other_base);
    // Delete: unlinking leaves the entries alone.
    let anchor = anchor_address(kind.anchor_type, base);
    let removed = index_link(kind, anchor, address, timestamp_text(created_at));
    assert(fetch(unlink(anchored.0, removed), address) == fetch(ledger, address));
    // List: resolving the anchor leaves the entries alone.
    let edges = indexed(ledger, kind, base);
    assert(readable_from(anchored.0, edges, 0) == readable_from(ledger, edges, 0)) by {
        assert forall|edge: EdgeView| readable(anchored.0, edge) == readable(ledger, edge) by {
            assert(fetch(anchored.0, edge.target) == fetch(ledger, edge.target));
        }
    }
}

/// What an entry holds never changes: whatever a ledger is asked, an entry
/// that could be read reads as before, unless it is the one whose removal was
/// asked for.
pub proof fn law_entries_keep_their_content(ledger: LedgerView, action: ActionView, address: Text)
    requires
        fetch(ledger, address) is Payload,
    ensures
        fetch(respond(ledger, action).0, address) == fetch(ledger, address) || (action
            == ActionView::Retire { address } && fetch(respond(ledger, action).0, address)
            is Missing),
{
    let after = respond(ledger, action).0;
    if ledger.online {
        match action {
            ActionView::Commit { kind, payload } => {
                lemma_commit(ledger, kind, payload);
            },
            ActionView::Retire { address: retired } => {
                lemma_first_index(ledger.entries, at_address(retired));
                lemma_first_index(ledger.entries, at_address(address));
                let k = entry_index(ledger.entries, address).unwrap();
                assert forall|j: int| 0 <= j < k implies !at_address(address)(
                    #[trigger] after.entries[j],
                ) by {
                    assert(after.entries[j].address == ledger.entries[j].address);
                }
                assert(after.entries[k].address == ledger.entries[k].address);
                lemma_first_index_is(after.entries, at_address(address), k);
            },
            _ => {},
        }
    }
}

/// The tag of a link is always a creation time: in a ledger whose links all
/// carry a creation time in their tags, they still do after any of the
/// operations, whether it succeeded or not.
pub proof fn law_tags_hold_times(
    ledger: LedgerView,
    kind: KindView,
    base: Text,
    other_base: Text,
    id: Text,
    created_at: i64,
    address: Text,
    payload: Seq<FieldView>,
)
    requires
        tags_hold_times(ledger),
    ensures
        tags_hold_times(create_result(ledger, kind, base, payload).0),
        tags_hold_times(update_result(ledger, kind, id, created_at, address, payload).0),
        tags_hold_times(delete_result(ledger, kind, base, id, created_at, address).0),
        tags_hold_times(list_result(ledger, kind, base).0),
        tags_hold_times(rebase_result(ledger, kind, base, other_base, id, created_at).0),
{
    let tag = timestamp_text(created_at);
    // Create: the only link that may be new is tagged with a time that reads back.
    let written = commit(ledger, kind.name, payload);
    lemma_commit(ledger, kind.name, payload);
    let fresh = content_address(kind.name, payload);
    let anchored = resolve(written.0, kind.anchor_type, base);
    match anchored.1 {
        EventView::Address(anchor) => {
            lemma_stamped_keeps_tags(anchored.0, kind, anchor, None, fresh, payload);
        },
        _ => {},
    }
    // Update: a link is removed, and the new ones are tagged alike.
    match holder(written.0, kind, id, created_at, address) {
        Some(anchor) => {
            let removed = index_link(kind, anchor, address, tag);
            let unlinked = unlink(written.0, removed);
            assert forall|link: LinkView| #[trigger] unlinked.links.contains(link) implies text_timestamp(
                link.tag,
            ) is Some by {
                lemma_without(ledger.links, removed, link);
            }
            lemma_stamped_keeps_tags(unlinked, kind, anchor, Some(id), fresh, payload);
        },
        None => {},
    }
    // Delete: a link is removed.
    let found = resolve(ledger, kind.anchor_type, base);
    match found.1 {
        EventView::Address(anchor) => {
            let removed = index_link(kind, anchor, address, tag);
            let after = delete_result(ledger, kind, base, id, created_at, address).0;
            assert forall|link: LinkView| #[trigger] after.links.contains(link) implies text_timestamp(
                link.tag,
            ) is Some by {
                lemma_without(ledger.links, removed, link);
            }
        },
        _ => {},
    }
    // Rebase: the link that is added has the tag of the one that was removed.
    match found.1 {
        EventView::Address(from) => {
            let second = resolve(found.0, kind.anchor_type, other_base);
            match second.1 {
                EventView::Address(to) => {
                    let moved = index_link(kind, from, id, tag);
                    let placed = index_link(kind, to, id, tag);
                    let after = rebase_result(ledger, kind, base, other_base, id, created_at).0;
                    assert forall|link: LinkView| #[trigger] after.links.contains(link) implies text_timestamp(
                        link.tag,
                    ) is Some by {
                        lemma_link(unlink(second.0, moved), placed, link);
                        lemma_without(ledger.links, moved, link);
                    }
                },
                _ => {},
            }
        },
        _ => {},
    }
}

/// Creation times are new: a record that was created has a time later than
/// any that the ledger's clock gave before.
pub proof fn law_creation_times_advance(
    ledger: LedgerView,
    kind: KindView,
    base: Text,
    payload: Seq<FieldView>,
)
    ensures
        create_result(ledger, kind, base, payload).1 matches Ok(record) ==> ledger.clock
            < record.created_at && create_result(ledger, kind, base, payload).0.clock
            == record.created_at,
{
}

/// An edge indexes a base exactly when its index link from the base's anchor
/// is live.
pub proof fn lemma_indexed(ledger: LedgerView, kind: KindView, base: Text, edge: EdgeView)
    ensures
        indexed(ledger, kind, base).contains(edge) <==> ledger.links.contains(
            index_link(kind, anchor_address(kind.anchor_type, base), edge.target, edge.tag),
        ),
{
    lemma_edge_live(
        ledger.links,
        anchor_address(kind.anchor_type, base),
        kind.link_type,
        edge.target,
        edge.tag,
    );
}

/// Indexing an entry adds its index link and, for a later version, its
/// version link, and nothing else; it leaves the entries and the anchors as
/// they were.
pub proof fn lemma_stamped_effect(
    ledger: LedgerView,
    kind: KindView,
    anchor: Text,
    origin: Option<Text>,
    address: Text,
    payload: Seq<FieldView>,
)
    requires
        stamped(ledger, kind, anchor, origin, address, payload).1 is Ok,
    ensures
        stamped(ledger, kind, anchor, origin, address, payload).1 matches Ok(record) && {
            let after = stamped(ledger, kind, anchor, origin, address, payload).0;
            let tag = timestamp_text(record.created_at);
            &&& record.id == address
            &&& record.address == address
            &&& record.payload == payload
            &&& taggable(record.created_at)
            &&& after.entries == ledger.entries
            &&& after.anchors == ledger.anchors
            &&& after.online == ledger.online
            &&& forall|other: LinkView| #[trigger]
                after.links.contains(other) <==> {
                    ||| ledger.links.contains(other)
                    ||| other == index_link(kind, anchor, address, tag)
                    ||| (origin matches Some(from) && other == version_link(
                        kind,
                        from,
                        address,
                        tag,
                    ))
                }
        },
{
    let ticked = tick(ledger);
    let record = stamped(ledger, kind, anchor, origin, address, payload).1->Ok_0;
    let after = stamped(ledger, kind, anchor, origin, address, payload).0;
    let tag = timestamp_text(record.created_at);
    let indexed = link(ticked.0, index_link(kind, anchor, address, tag));
    assert forall|other: LinkView| #[trigger]
        after.links.contains(other) <==> {
            ||| ledger.links.contains(other)
            ||| other == index_link(kind, anchor, address, tag)
            ||| (origin matches Some(from) && other == version_link(kind, from, address, tag))
        } by {
        lemma_link(ticked.0, index_link(kind, anchor, address, tag), other);
        match origin {
            Some(from) => {
                lemma_link(indexed, version_link(kind, from, address, tag), other);
            },
            None => {},
        }
    }
}

/// Indexing an entry keeps the tags of the links creation times.
pub proof fn lemma_stamped_keeps_tags(
    ledger: LedgerView,
    kind: KindView,
    anchor: Text,
    origin: Option<Text>,
    address: Text,
    payload: Seq<FieldView>,
)
    requires
        tags_hold_times(ledger),
    ensures
        tags_hold_times(stamped(ledger, kind, anchor, origin, address, payload).0),
{
    if stamped(ledger, kind, anchor, origin, address, payload).1 is Ok {
        lemma_stamped_effect(ledger, kind, anchor, origin, address, payload);
    }
}

/// What a `create` that succeeds does to a well-formed ledger: the base's
/// anchor is there and every anchor that was there still is, the entry reads
/// as the payload, what could be read before reads as before, and the live
/// links are those that were live and the new index link.
pub proof fn lemma_create_effect(
    ledger: LedgerView,
    kind: KindView,
    base: Text,
    payload: Seq<FieldView>,
)
    requires
        well_formed(ledger),
        create_result(ledger, kind, base, payload).1 is Ok,
    ensures
        create_result(ledger, kind, base, payload).1 matches Ok(record) && {
            let after = create_result(ledger, kind, base, payload).0;
            let anchor = anchor_address(kind.anchor_type, base);
            &&& well_formed(after)
            &&& after.online
            &&& anchor_index(after.anchors, kind.anchor_type, base) is Some
            &&& forall|anchor_type: Text, tag: Text| #[trigger]
                anchor_index(ledger.anchors, anchor_type, tag) is Some ==> anchor_index(
                    after.anchors,
                    anchor_type,
                    tag,
                ) is Some
            &&& record.id == record.address
            &&& record.address == content_address(kind.name, payload)
            &&& record.payload == payload
            &&& taggable(record.created_at)
            &&& fetch(after, record.address) == EventView::Payload(payload)
            &&& forall|address: Text| #[trigger]
                fetch(ledger, address) is Payload ==> fetch(after, address) == fetch(ledger, address)
            &&& forall|other: LinkView| #[trigger]
                after.links.contains(other) <==> ledger.links.contains(other) || other
                    == index_link(
                    kind,
                    anchor,
                    record.address,
                    timestamp_text(record.created_at),
                )
        },
{
    lemma_commit(ledger, kind.name, payload);
    let written = commit(ledger, kind.name, payload);
    let address = content_address(kind.name, payload);
    assert(well_formed(written.0));
    lemma_resolve(written.0, kind.anchor_type, base);
    let anchored = resolve(written.0, kind.anchor_type, base);
    lemma_resolve(anchored.0, kind.anchor_type, base);
    lemma_first_index(anchored.0.anchors, named(kind.anchor_type, base));
    let anchor = anchor_address(kind.anchor_type, base);
    lemma_stamped_effect(anchored.0, kind, anchor, None, address, payload);
    let after = create_result(ledger, kind, base, payload).0;
    assert(after.entries == written.0.entries);
    assert forall|other: Text| #[trigger] fetch(ledger, other) is Payload implies fetch(after, other)
        == fetch(ledger, other) by {
        assert(fetch(written.0, other) == fetch(ledger, other));
    }
    assert forall|anchor_type: Text, tag: Text| #[trigger]
        anchor_index(ledger.anchors, anchor_type, tag) is Some implies anchor_index(
        after.anchors,
        anchor_type,
        tag,
    ) is Some by {
        let wanted = named(anchor_type, tag);
        lemma_first_index(ledger.anchors, wanted);
        lemma_first_index(after.anchors, wanted);
        let k = anchor_index(ledger.anchors, anchor_type, tag).unwrap();
        assert(after.anchors[k] == ledger.anchors[k]);
    }
}

/// After a row of creates that all succeeded the ledger is well formed, the
/// anchors of their bases are there, their entries can be read, each of them
/// has its index link, and no other link was added.
pub proof fn lemma_creates(ledger: LedgerView, kind: KindView, creations: Seq<Creation>)
    requires
        well_formed(ledger),
        all_created(ledger, kind, creations),
    ensures
        well_formed(after_creates(ledger, kind, creations)),
        creations.len() > 0 ==> after_creates(ledger, kind, creations).online,
        forall|i: int|
            0 <= i < creations.len() ==> anchor_index(
                after_creates(ledger, kind, creations).anchors,
                kind.anchor_type,
                (#[trigger] creations[i]).base,
            ) is Some,
        forall|i: int|
            0 <= i < creations.len() ==> fetch(
                after_creates(ledger, kind, creations),
                content_address(kind.name, (#[trigger] creations[i]).payload),
            ) is Payload,
        forall|i: int|
            0 <= i < creations.len() ==> has_link(
                after_creates(ledger, kind, creations),
                kind,
                #[trigger] creations[i],
            ),
        forall|link: LinkView| #[trigger]
            after_creates(ledger, kind, creations).links.contains(link) ==> ledger.links.contains(
                link,
            ) || made_by(kind, creations, link),
    decreases creations.len(),
{
    let after = after_creates(ledger, kind, creations);
    if creations.len() > 0 {
        let earlier = creations.drop_last();
        let before = after_creates(ledger, kind, earlier);
        let last = creations.last();
        let n = earlier.len() as int;
        lemma_creates(ledger, kind, earlier);
        lemma_create_effect(before, kind, last.base, last.payload);
        let record = create_result(before, kind, last.base, last.payload).1->Ok_0;
        let added = creation_link(kind, last, record.created_at);
        assert(creations[n] == last);
        assert(after.links.contains(added));
        assert forall|i: int| 0 <= i < creations.len() implies anchor_index(
            after.anchors,
            kind.anchor_type,
            (#[trigger] creations[i]).base,
        ) is Some by {
            if i < n {
                assert(earlier[i] == creations[i]);
                assert(anchor_index(before.anchors, kind.anchor_type, earlier[i].base) is Some);
            }
        }
        assert forall|i: int| 0 <= i < creations.len() implies fetch(
            after,
            content_address(kind.name, (#[trigger] creations[i]).payload),
        ) is Payload by {
            if i < n {
                assert(earlier[i] == creations[i]);
                assert(fetch(before, content_address(kind.name, earlier[i].payload)) is Payload);
            }
        }
        assert forall|i: int| 0 <= i < creations.len() implies has_link(
            after,
            kind,
            #[trigger] creations[i],
        ) by {
            if i < n {
                assert(earlier[i] == creations[i]);
                assert(has_link(before, kind, earlier[i]));
                let created_at = choose|created_at: i64|
                    taggable(created_at) && before.links.contains(
                        #[trigger] creation_link(kind, earlier[i], created_at),
                    );
                assert(after.links.contains(creation_link(kind, creations[i], created_at)));
            } else {
                assert(after.links.contains(creation_link(kind, creations[i], record.created_at)));
            }
        }
        assert forall|link: LinkView| #[trigger] after.links.contains(link) implies ledger.links.contains(
            link,
        ) || made_by(kind, creations, link) by {
            if before.links.contains(link) {
                if !ledger.links.contains(link) {
                    assert(made_by(kind, earlier, link));
                    let (i, created_at) = choose|i: int, created_at: i64|
                        0 <= i < earlier.len() && taggable(created_at) && link
                            == #[trigger] creation_link(kind, earlier[i], created_at);
                    assert(earlier[i] == creations[i]);
                    assert(link == creation_link(kind, creations[i], created_at));
                }
            } else {
                assert(link == added);
                assert(link == creation_link(kind, creations[n], record.created_at));
            }
        }
    }
}

/// Writing a payload leaves the links and the anchors alone, so a handle is
/// found where it was.
pub proof fn lemma_holder_after_commit(
    ledger: LedgerView,
    kind: KindView,
    id: Text,
    created_at: i64,
    address: Text,
    payload: Seq<FieldView>,
)
    ensures
        holder(commit(ledger, kind.name, payload).0, kind, id, created_at, address) == holder(
            ledger,
            kind,
            id,
            created_at,
            address,
        ),
{
    let written = commit(ledger, kind.name, payload);
    lemma_commit(ledger, kind.name, payload);
    let anchors = addresses_of(ledger.anchors, kind.anchor_type);
    let before = holding(ledger, kind, id, created_at, address);
    let wanted = holding(written.0, kind, id, created_at, address);
    lemma_first_index(anchors, before);
    lemma_first_index(anchors, wanted);
    assert forall|j: int| 0 <= j < anchors.len() implies wanted(#[trigger] anchors[j]) == before(
        anchors[j],
    ) by {}
    match first_index(anchors, before) {
        Some(found) => {
            lemma_first_index_is(anchors, wanted, found);
        },
        None => {
            lemma_first_index_none(anchors, wanted);
        },
    }
}

/// Whether an anchor can be resolved depends on the anchors alone.
pub proof fn lemma_resolve_alike(left: LedgerView, right: LedgerView, anchor_type: Text, tag: Text)
    requires
        left.anchors == right.anchors,
    ensures
        resolve(left, anchor_type, tag).1 == resolve(right, anchor_type, tag).1,
{
}

/// Two anchors of one type that are there and have one address are one
/// anchor: their tags are the same.
pub proof fn lemma_same_anchor(ledger: LedgerView, anchor_type: Text, left: Text, right: Text)
    requires
        well_formed(ledger),
        anchor_index(ledger.anchors, anchor_type, left) is Some,
        anchor_index(ledger.anchors, anchor_type, right) is Some,
        anchor_address(anchor_type, left) == anchor_address(anchor_type, right),
    ensures
        left == right,
{
    lemma_first_index(ledger.anchors, named(anchor_type, left));
    lemma_first_index(ledger.anchors, named(anchor_type, right));
    let i = anchor_index(ledger.anchors, anchor_type, left).unwrap();
    let j = anchor_index(ledger.anchors, anchor_type, right).unwrap();
    assert(ledger.anchors[i].address == anchor_address(anchor_type, left));
    assert(ledger.anchors[j].address == anchor_address(anchor_type, right));
    if i < j {
        assert(ledger.anchors[i].address != ledger.anchors[j].address);
    }
    if j < i {
        assert(ledger.anchors[j].address != ledger.anchors[i].address);
    }
}

} // verus!
