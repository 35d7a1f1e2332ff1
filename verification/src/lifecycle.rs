//! The operations on the records of a kind, run against a ledger.
//!
//! `run` carries an operation through: it performs each request on the ledger
//! and hands the answer back to the protocol until the operation ends. For
//! each operation a function of the same name says what that comes to.

use vstd::prelude::*;
use crate::ledger::{
    addresses_of, commit, edges_of, fetch, lemma_edge_live, link, resolve, respond, retire, tick,
    unlink, well_formed, Ledger, LedgerView, LinkView,
};
use crate::protocol::{
    advance, advance_spec, begin_create, begin_create_spec, begin_delete, begin_delete_spec,
    begin_list, begin_list_spec, begin_read, begin_read_spec, begin_rebase, begin_rebase_spec,
    begin_update, begin_update_spec, list_from, record_of, search_from, ActionView, EdgeView,
    EventView, Outcome, OutcomeView, PhaseView, Step, StepView,
};
use crate::record::{conforms, Failure, Field, FieldView, Kind, KindView, Record, RecordView};
use crate::scan::{first_index, lemma_first_index_is, lemma_first_index_none};
use crate::text::{views, Text};
use crate::timestamp::{taggable, text_timestamp, timestamp_text};

verus! {

/// How many kinds of request an operation may still make from a step on.
pub open spec fn stage(step: StepView) -> nat {
    match step {
        StepView::Finished(_) => 0,
        StepView::Ask(phase, _) => match phase {
            PhaseView::Revising { .. } => 1,
            PhaseView::Indexing { .. } => 2,
            PhaseView::Stamping { .. } => 3,
            PhaseView::Anchoring { .. } => 4,
            PhaseView::Committing { .. } => 5,
            PhaseView::Reading { .. } => 1,
            PhaseView::DeleteRetiring { .. } => 1,
            PhaseView::DeleteUnlinking { .. } => 2,
            PhaseView::DeleteLooking { .. } => 3,
            PhaseView::DeleteAnchoring { .. } => 4,
            PhaseView::ListReading { .. } => 1,
            PhaseView::ListLooking => 2,
            PhaseView::ListAnchoring => 3,
            PhaseView::RebaseLinking { .. } => 1,
            PhaseView::RebaseUnlinking { .. } => 2,
            PhaseView::RebaseLooking { .. } => 3,
            PhaseView::RebaseTo { .. } => 4,
            PhaseView::RebaseFrom { .. } => 5,
            PhaseView::UpdateUnlinking { .. } => 4,
            PhaseView::UpdateSearching { .. } => 5,
            PhaseView::UpdateListing { .. } => 6,
            PhaseView::UpdateCommitting { .. } => 7,
        },
    }
}

/// How many requests of the present kind an operation may still repeat.
pub open spec fn remaining(step: StepView) -> nat {
    match step {
        StepView::Ask(PhaseView::ListReading { edges, next, .. }, _) => if next < edges.len() {
            (edges.len() - next) as nat
        } else {
            0
        },
        StepView::Ask(PhaseView::UpdateSearching { anchors, next, .. }, _) => if next
            < anchors.len() {
            (anchors.len() - next) as nat
        } else {
            0
        },
        _ => 0,
    }
}

/// One step is nearer to the end of its operation than another.
pub open spec fn precedes(next: StepView, step: StepView) -> bool {
    stage(next) < stage(step) || (stage(next) == stage(step) && remaining(next) < remaining(step))
}

/// Every answer brings an operation nearer to its end.
pub proof fn lemma_advance_precedes(
    kind: KindView,
    phase: PhaseView,
    action: ActionView,
    event: EventView,
)
    ensures
        precedes(advance_spec(kind, phase, event), StepView::Ask(phase, action)),
{
}

/// Where an operation ends and what it leaves of the ledger, when each of its
/// requests is answered by the ledger. Every answer brings the operation
/// nearer to its end (`lemma_advance_precedes`), so the last branch is never
/// taken; it is there for the definition to be well founded.
pub open spec fn drive(ledger: LedgerView, kind: KindView, step: StepView) -> (LedgerView, OutcomeView)
    decreases stage(step), remaining(step),
{
    match step {
        StepView::Finished(outcome) => (ledger, outcome),
        StepView::Ask(phase, action) => {
            let answered = respond(ledger, action);
            let next = advance_spec(kind, phase, answered.1);
            if precedes(next, step) {
                drive(answered.0, kind, next)
            } else {
                (answered.0, OutcomeView::Failed(Failure::StoreUnavailable))
            }
        },
    }
}

/// One request further: driving from a step is driving from the step that
/// the ledger's answer leads to.
pub proof fn lemma_drive_step(
    ledger: LedgerView,
    kind: KindView,
    phase: PhaseView,
    action: ActionView,
)
    ensures
        drive(ledger, kind, StepView::Ask(phase, action)) == drive(
            respond(ledger, action).0,
            kind,
            advance_spec(kind, phase, respond(ledger, action).1),
        ),
{
    lemma_advance_precedes(kind, phase, action, respond(ledger, action).1);
}

/// Carries an operation through on a ledger, from a step to its end.
pub fn run(ledger: &mut Ledger, kind: &Kind, step: Step) -> (outcome: Outcome)
    ensures
        (final(ledger)@, outcome@) == drive(old(ledger)@, kind@, step@),
        well_formed(old(ledger)@) ==> well_formed(final(ledger)@),
{
    let ghost start = ledger@;
    let mut current = step;
    loop
        invariant
            start == old(ledger)@,
            drive(ledger@, kind@, current@) == drive(start, kind@, step@),
            well_formed(start) ==> well_formed(ledger@),
        decreases stage(current@), remaining(current@),
    {
        match current {
            Step::Finished(outcome) => {
                return outcome;
            },
            Step::Ask(phase, action) => {
                proof {
                    lemma_drive_step(ledger@, kind@, phase@, action@);
                    lemma_advance_precedes(kind@, phase@, action@, respond(ledger@, action@).1);
                }
                let event = ledger.perform(action);
                current = advance(kind, phase, event);
            },
        }
    }
}

/// The outcome that stands for a record or a failure.
pub open spec fn record_outcome(result: Result<RecordView, Failure>) -> OutcomeView {
    match result {
        Ok(record) => OutcomeView::Record(record),
        Err(failure) => OutcomeView::Failed(failure),
    }
}

/// The outcome that stands for an address or a failure.
pub open spec fn address_outcome(result: Result<Text, Failure>) -> OutcomeView {
    match result {
        Ok(address) => OutcomeView::Address(address),
        Err(failure) => OutcomeView::Failed(failure),
    }
}

/// The outcome that stands for a list of records or a failure.
pub open spec fn records_outcome(result: Result<Seq<RecordView>, Failure>) -> OutcomeView {
    match result {
        Ok(records) => OutcomeView::Records(records),
        Err(failure) => OutcomeView::Failed(failure),
    }
}

/// A record or a failure as it stands in contracts.
pub open spec fn record_view(result: Result<Record, Failure>) -> Result<RecordView, Failure> {
    match result {
        Ok(record) => Ok(record@),
        Err(failure) => Err(failure),
    }
}

/// An address or a failure as it stands in contracts.
pub open spec fn address_view(result: Result<String, Failure>) -> Result<Text, Failure> {
    match result {
        Ok(address) => Ok(address@),
        Err(failure) => Err(failure),
    }
}

/// A list of records or a failure as it stands in contracts.
pub open spec fn records_view(result: Result<Vec<Record>, Failure>) -> Result<
    Seq<RecordView>,
    Failure,
> {
    match result {
        Ok(records) => Ok(views(records@)),
        Err(failure) => Err(failure),
    }
}

/// The index link of a kind from an anchor to an entry, tagged with a
/// creation time.
pub open spec fn index_link(kind: KindView, anchor: Text, target: Text, tag: Text) -> LinkView {
    LinkView { base: anchor, target, link_type: kind.link_type, tag }
}

/// The version link of a kind from a record to a later version of it.
pub open spec fn version_link(kind: KindView, origin: Text, target: Text, tag: Text) -> LinkView {
    LinkView { base: origin, target, link_type: kind.revision_type, tag }
}

/// What indexing an entry under an anchor comes to on a ledger that is
/// online: the clock is read, and if its time can stand in a tag the entry is
/// linked from the anchor under that tag, and from the record it is a version
/// of, if it is one. Else nothing is linked and the store counts as
/// unavailable.
pub open spec fn stamped(
    ledger: LedgerView,
    kind: KindView,
    anchor: Text,
    origin: Option<Text>,
    address: Text,
    payload: Seq<FieldView>,
) -> (LedgerView, Result<RecordView, Failure>) {
    let ticked = tick(ledger);
    match ticked.1 {
        EventView::Time(created_at) => if taggable(created_at) {
            let tag = timestamp_text(created_at);
            let indexed = link(ticked.0, index_link(kind, anchor, address, tag));
            let chained = match origin {
                Some(from) => link(indexed, version_link(kind, from, address, tag)),
                None => indexed,
            };
            (chained, Ok(RecordView { id: address, created_at, address, payload }))
        } else {
            (ticked.0, Err(Failure::StoreUnavailable))
        },
        _ => (ticked.0, Err(Failure::StoreUnavailable)),
    }
}

/// What `create` comes to. A payload that does not have the kind's shape is
/// refused before anything is asked of the store. Else the payload is
/// written, the base's anchor resolved, and the entry indexed under it. A
/// store that cannot do one of these ends the operation; what was done before
/// stays done.
pub open spec fn create_result(
    ledger: LedgerView,
    kind: KindView,
    base: Text,
    payload: Seq<FieldView>,
) -> (LedgerView, Result<RecordView, Failure>) {
    if !conforms(kind.schema, payload) {
        (ledger, Err(Failure::ValidationFailure))
    } else if !ledger.online {
        (ledger, Err(Failure::StoreUnavailable))
    } else {
        let written = commit(ledger, kind.name, payload);
        match written.1 {
            EventView::Address(address) => {
                let anchored = resolve(written.0, kind.anchor_type, base);
                match anchored.1 {
                    EventView::Address(anchor) => stamped(
                        anchored.0,
                        kind,
                        anchor,
                        None,
                        address,
                        payload,
                    ),
                    _ => (anchored.0, Err(Failure::StoreUnavailable)),
                }
            },
            _ => (written.0, Err(Failure::StoreUnavailable)),
        }
    }
}

/// What `read` comes to: the record of the live entry at `id`, under the
/// creation time that the caller names.
pub open spec fn read_result(ledger: LedgerView, id: Text, created_at: i64) -> Result<
    RecordView,
    Failure,
> {
    if !ledger.online {
        Err(Failure::StoreUnavailable)
    } else {
        match fetch(ledger, id) {
            EventView::Payload(payload) => Ok(RecordView { id, created_at, address: id, payload }),
            _ => Err(Failure::NotFound),
        }
    }
}

/// Whether a handle is live under an anchor: the index links to the record it
/// names and to the version it points at are both live under the tag of its
/// creation time.
pub open spec fn handle_live(
    ledger: LedgerView,
    kind: KindView,
    anchor: Text,
    id: Text,
    created_at: i64,
    address: Text,
) -> bool {
    let tag = timestamp_text(created_at);
    ledger.links.contains(index_link(kind, anchor, id, tag)) && ledger.links.contains(
        index_link(kind, anchor, address, tag),
    )
}

/// What `delete` comes to. The base's anchor is resolved. Where the handle is
/// live under it, the index link to the version is removed and then the
/// entry; where it is not, or the address holds no live entry, the operation
/// fails with `NotFound`.
pub open spec fn delete_result(
    ledger: LedgerView,
    kind: KindView,
    base: Text,
    id: Text,
    created_at: i64,
    address: Text,
) -> (LedgerView, Result<Text, Failure>) {
    if !ledger.online {
        (ledger, Err(Failure::StoreUnavailable))
    } else {
        let anchored = resolve(ledger, kind.anchor_type, base);
        match anchored.1 {
            EventView::Address(anchor) => if handle_live(
                anchored.0,
                kind,
                anchor,
                id,
                created_at,
                address,
            ) {
                let retired = retire(
                    unlink(
                        anchored.0,
                        index_link(kind, anchor, address, timestamp_text(created_at)),
                    ),
                    address,
                );
                match retired.1 {
                    EventView::Done => (retired.0, Ok(address)),
                    _ => (retired.0, Err(Failure::NotFound)),
                }
            } else {
                (anchored.0, Err(Failure::NotFound))
            },
            _ => (anchored.0, Err(Failure::StoreUnavailable)),
        }
    }
}

/// What `rebase` comes to. Both anchors are resolved. Where the index link to
/// `id` under the tag of the creation time is live at the first, it is
/// removed there and added at the second; where it is not, the operation
/// fails with `NotFound`.
pub open spec fn rebase_result(
    ledger: LedgerView,
    kind: KindView,
    base_from: Text,
    base_to: Text,
    id: Text,
    created_at: i64,
) -> (LedgerView, Result<Text, Failure>) {
    if !ledger.online {
        (ledger, Err(Failure::StoreUnavailable))
    } else {
        let first = resolve(ledger, kind.anchor_type, base_from);
        match first.1 {
            EventView::Address(from) => {
                let second = resolve(first.0, kind.anchor_type, base_to);
                match second.1 {
                    EventView::Address(to) => {
                        let tag = timestamp_text(created_at);
                        if second.0.links.contains(index_link(kind, from, id, tag)) {
                            (
                                link(
                                    unlink(second.0, index_link(kind, from, id, tag)),
                                    index_link(kind, to, id, tag),
                                ),
                                Ok(id),
                            )
                        } else {
                            (second.0, Err(Failure::NotFound))
                        }
                    },
                    _ => (second.0, Err(Failure::StoreUnavailable)),
                }
            },
            _ => (first.0, Err(Failure::StoreUnavailable)),
        }
    }
}

/// Driving the indexing of an entry comes to `stamped`.
pub proof fn lemma_stamped(
    ledger: LedgerView,
    kind: KindView,
    anchor: Text,
    origin: Option<Text>,
    address: Text,
    payload: Seq<FieldView>,
)
    requires
        ledger.online,
    ensures
        drive(
            ledger,
            kind,
            StepView::Ask(PhaseView::Stamping { anchor, origin, address, payload }, ActionView::Now),
        ) == (
            stamped(ledger, kind, anchor, origin, address, payload).0,
            record_outcome(stamped(ledger, kind, anchor, origin, address, payload).1),
        ),
{
    let phase = PhaseView::Stamping { anchor, origin, address, payload };
    lemma_drive_step(ledger, kind, phase, ActionView::Now);
    let ticked = tick(ledger);
    match ticked.1 {
        EventView::Time(created_at) => {
            if taggable(created_at) {
                let tag = timestamp_text(created_at);
                let record = RecordView { id: address, created_at, address, payload };
                let indexing = PhaseView::Indexing { origin, tag, record };
                let adding = ActionView::Link {
                    base: anchor,
                    target: address,
                    link_type: kind.link_type,
                    tag,
                };
                lemma_drive_step(ticked.0, kind, indexing, adding);
                let indexed = link(ticked.0, index_link(kind, anchor, address, tag));
                match origin {
                    Some(from) => {
                        let chaining = ActionView::Link {
                            base: from,
                            target: address,
                            link_type: kind.revision_type,
                            tag,
                        };
                        lemma_drive_step(indexed, kind, PhaseView::Revising { record }, chaining);
                    },
                    None => {},
                }
            }
        },
        _ => {},
    }
}

/// Driving `create` from its opening comes to `create_result`.
pub proof fn lemma_create(ledger: LedgerView, kind: KindView, base: Text, payload: Seq<FieldView>)
    ensures
        drive(ledger, kind, begin_create_spec(kind, base, payload)) == (
            create_result(ledger, kind, base, payload).0,
            record_outcome(create_result(ledger, kind, base, payload).1),
        ),
{
    if conforms(kind.schema, payload) {
        let writing = ActionView::Commit { kind: kind.name, payload };
        lemma_drive_step(ledger, kind, PhaseView::Committing { base, payload }, writing);
        if ledger.online {
            let written = commit(ledger, kind.name, payload);
            match written.1 {
                EventView::Address(address) => {
                    let resolving = ActionView::Anchor { anchor_type: kind.anchor_type, tag: base };
                    lemma_drive_step(
                        written.0,
                        kind,
                        PhaseView::Anchoring { address, payload },
                        resolving,
                    );
                    let anchored = resolve(written.0, kind.anchor_type, base);
                    match anchored.1 {
                        EventView::Address(anchor) => {
                            lemma_stamped(anchored.0, kind, anchor, None, address, payload);
                        },
                        _ => {},
                    }
                },
                _ => {},
            }
        }
    }
}

/// Driving `read` from its opening comes to `read_result` and leaves the
/// ledger as it was.
pub proof fn lemma_read(ledger: LedgerView, kind: KindView, id: Text, created_at: i64)
    ensures
        drive(ledger, kind, begin_read_spec(id, created_at)) == (
            ledger,
            record_outcome(read_result(ledger, id, created_at)),
        ),
{
    lemma_drive_step(
        ledger,
        kind,
        PhaseView::Reading { id, created_at },
        ActionView::Fetch { address: id },
    );
}

/// Driving `delete` from its opening comes to `delete_result`.
pub proof fn lemma_delete(
    ledger: LedgerView,
    kind: KindView,
    base: Text,
    id: Text,
    created_at: i64,
    address: Text,
)
    ensures
        drive(ledger, kind, begin_delete_spec(kind, base, id, created_at, address)) == (
            delete_result(ledger, kind, base, id, created_at, address).0,
            address_outcome(delete_result(ledger, kind, base, id, created_at, address).1),
        ),
{
    let tag = timestamp_text(created_at);
    let resolving = ActionView::Anchor { anchor_type: kind.anchor_type, tag: base };
    lemma_drive_step(ledger, kind, PhaseView::DeleteAnchoring { id, tag, address }, resolving);
    if ledger.online {
        let anchored = resolve(ledger, kind.anchor_type, base);
        match anchored.1 {
            EventView::Address(anchor) => {
                let looking = ActionView::Links { base: anchor, link_type: kind.link_type };
                lemma_drive_step(
                    anchored.0,
                    kind,
                    PhaseView::DeleteLooking { anchor, id, tag, address },
                    looking,
                );
                lemma_edge_live(anchored.0.links, anchor, kind.link_type, id, tag);
                lemma_edge_live(anchored.0.links, anchor, kind.link_type, address, tag);
                if handle_live(anchored.0, kind, anchor, id, created_at, address) {
                    let removing = ActionView::Unlink {
                        base: anchor,
                        target: address,
                        link_type: kind.link_type,
                        tag,
                    };
                    lemma_drive_step(
                        anchored.0,
                        kind,
                        PhaseView::DeleteUnlinking { address },
                        removing,
                    );
                    let unlinked = unlink(anchored.0, index_link(kind, anchor, address, tag));
                    lemma_drive_step(
                        unlinked,
                        kind,
                        PhaseView::DeleteRetiring { address },
                        ActionView::Retire { address },
                    );
                }
            },
            _ => {},
        }
    }
}

/// Driving `rebase` from its opening comes to `rebase_result`.
pub proof fn lemma_rebase(
    ledger: LedgerView,
    kind: KindView,
    base_from: Text,
    base_to: Text,
    id: Text,
    created_at: i64,
)
    ensures
        drive(ledger, kind, begin_rebase_spec(kind, base_from, base_to, id, created_at)) == (
            rebase_result(ledger, kind, base_from, base_to, id, created_at).0,
            address_outcome(rebase_result(ledger, kind, base_from, base_to, id, created_at).1),
        ),
{
    let tag = timestamp_text(created_at);
    let first_asked = ActionView::Anchor { anchor_type: kind.anchor_type, tag: base_from };
    lemma_drive_step(ledger, kind, PhaseView::RebaseFrom { base_to, id, tag }, first_asked);
    if ledger.online {
        let first = resolve(ledger, kind.anchor_type, base_from);
        match first.1 {
            EventView::Address(from) => {
                let second_asked = ActionView::Anchor { anchor_type: kind.anchor_type, tag: base_to };
                lemma_drive_step(first.0, kind, PhaseView::RebaseTo { from, id, tag }, second_asked);
                let second = resolve(first.0, kind.anchor_type, base_to);
                match second.1 {
                    EventView::Address(to) => {
                        let looking = ActionView::Links { base: from, link_type: kind.link_type };
                        lemma_drive_step(
                            second.0,
                            kind,
                            PhaseView::RebaseLooking { from, to, id, tag },
                            looking,
                        );
                        lemma_edge_live(second.0.links, from, kind.link_type, id, tag);
                        if second.0.links.contains(index_link(kind, from, id, tag)) {
                            let removing = ActionView::Unlink {
                                base: from,
                                target: id,
                                link_type: kind.link_type,
                                tag,
                            };
                            lemma_drive_step(
                                second.0,
                                kind,
                                PhaseView::RebaseUnlinking { to, id, tag },
                                removing,
                            );
                            let unlinked = unlink(second.0, index_link(kind, from, id, tag));
                            let adding = ActionView::Link {
                                base: to,
                                target: id,
                                link_type: kind.link_type,
                                tag,
                            };
                            lemma_drive_step(unlinked, kind, PhaseView::RebaseLinking { id }, adding);
                        }
                    },
                    _ => {},
                }
            },
            _ => {},
        }
    }
}

/// Whether the record of an edge can be read: its tag holds a creation time
/// and its target a live entry.
pub open spec fn readable(ledger: LedgerView, edge: EdgeView) -> bool {
    text_timestamp(edge.tag) is Some && fetch(ledger, edge.target) is Payload
}

/// The record that an edge stands for: the entry at its target, created at
/// the time in its tag.
pub open spec fn listed_record(ledger: LedgerView, edge: EdgeView) -> RecordView {
    record_of(
        edge,
        match text_timestamp(edge.tag) {
            Some(created_at) => created_at,
            None => 0,
        },
        match fetch(ledger, edge.target) {
            EventView::Payload(payload) => payload,
            _ => Seq::empty(),
        },
    )
}

/// Whether the records of the edges from one on can all be read.
pub open spec fn readable_from(ledger: LedgerView, edges: Seq<EdgeView>, from: int) -> bool {
    forall|i: int| from <= i < edges.len() ==> readable(ledger, #[trigger] edges[i])
}

/// The records of the edges from one on, in the edges' order.
pub open spec fn records_from(ledger: LedgerView, edges: Seq<EdgeView>, from: int) -> Seq<RecordView> {
    Seq::new((edges.len() - from) as nat, |i: int| listed_record(ledger, edges[from + i]))
}

/// The records of a list of edges: one for each edge, in the edges' order,
/// or `NotFound` where the record of one of them cannot be read.
pub open spec fn records_of(ledger: LedgerView, edges: Seq<EdgeView>) -> Result<
    Seq<RecordView>,
    Failure,
> {
    if readable_from(ledger, edges, 0) {
        Ok(records_from(ledger, edges, 0))
    } else {
        Err(Failure::NotFound)
    }
}

/// What `list` comes to: the base's anchor is resolved, and each live index
/// link from it gives one record.
pub open spec fn list_result(ledger: LedgerView, kind: KindView, base: Text) -> (
    LedgerView,
    Result<Seq<RecordView>, Failure>,
) {
    if !ledger.online {
        (ledger, Err(Failure::StoreUnavailable))
    } else {
        let anchored = resolve(ledger, kind.anchor_type, base);
        match anchored.1 {
            EventView::Address(anchor) => (
                anchored.0,
                records_of(anchored.0, edges_of(anchored.0.links, anchor, kind.link_type)),
            ),
            _ => (anchored.0, Err(Failure::StoreUnavailable)),
        }
    }
}

/// The anchors under which a handle is live.
pub open spec fn holding(
    ledger: LedgerView,
    kind: KindView,
    id: Text,
    created_at: i64,
    address: Text,
) -> spec_fn(Text) -> bool {
    |anchor: Text| handle_live(ledger, kind, anchor, id, created_at, address)
}

/// The anchor that indexes a handle: the first of the kind's anchors under
/// which the handle is live.
pub open spec fn holder(
    ledger: LedgerView,
    kind: KindView,
    id: Text,
    created_at: i64,
    address: Text,
) -> Option<Text> {
    let anchors = addresses_of(ledger.anchors, kind.anchor_type);
    match first_index(anchors, holding(ledger, kind, id, created_at, address)) {
        Some(i) => Some(anchors[i]),
        None => None,
    }
}

/// What `update` comes to. A payload that does not have the kind's shape is
/// refused before anything is asked of the store. Else the payload is
/// written and the anchor that indexes the handle is looked for. Where there
/// is one, the index link to the old version is removed from it and the new
/// entry is indexed under it and linked from the record as its later version;
/// where there is none, the operation fails with `NotFound` and the written
/// entry stays.
pub open spec fn update_result(
    ledger: LedgerView,
    kind: KindView,
    id: Text,
    created_at: i64,
    address: Text,
    payload: Seq<FieldView>,
) -> (LedgerView, Result<RecordView, Failure>) {
    if !conforms(kind.schema, payload) {
        (ledger, Err(Failure::ValidationFailure))
    } else if !ledger.online {
        (ledger, Err(Failure::StoreUnavailable))
    } else {
        let written = commit(ledger, kind.name, payload);
        match written.1 {
            EventView::Address(fresh) => match holder(written.0, kind, id, created_at, address) {
                Some(anchor) => stamped(
                    unlink(
                        written.0,
                        index_link(kind, anchor, address, timestamp_text(created_at)),
                    ),
                    kind,
                    anchor,
                    Some(id),
                    fresh,
                    payload,
                ),
                None => (written.0, Err(Failure::NotFound)),
            },
            _ => (written.0, Err(Failure::StoreUnavailable)),
        }
    }
}

/// Driving `list` from edge number `next` on reads the remaining records and
/// leaves the ledger as it was.
pub proof fn lemma_list_from(
    ledger: LedgerView,
    kind: KindView,
    edges: Seq<EdgeView>,
    next: nat,
    records: Seq<RecordView>,
)
    requires
        ledger.online,
        next <= edges.len(),
    ensures
        drive(ledger, kind, list_from(edges, next, records)) == (
            ledger,
            if readable_from(ledger, edges, next as int) {
                OutcomeView::Records(records + records_from(ledger, edges, next as int))
            } else {
                OutcomeView::Failed(Failure::NotFound)
            },
        ),
    decreases edges.len() - next,
{
    if next >= edges.len() {
        assert(records + records_from(ledger, edges, next as int) =~= records);
    } else {
        let edge = edges[next as int];
        match text_timestamp(edge.tag) {
            Some(created_at) => {
                let phase = PhaseView::ListReading { edges, next, created_at, records };
                lemma_drive_step(ledger, kind, phase, ActionView::Fetch { address: edge.target });
                match fetch(ledger, edge.target) {
                    EventView::Payload(payload) => {
                        let grown = records.push(record_of(edge, created_at, payload));
                        lemma_list_from(ledger, kind, edges, (next + 1) as nat, grown);
                        assert(readable(ledger, edge));
                        assert(grown + records_from(ledger, edges, next as int + 1) =~= records
                            + records_from(ledger, edges, next as int));
                    },
                    _ => {
                        assert(!readable(ledger, edge));
                    },
                }
            },
            None => {
                assert(!readable(ledger, edge));
            },
        }
    }
}

/// Driving `list` from its opening comes to `list_result`.
pub proof fn lemma_list(ledger: LedgerView, kind: KindView, base: Text)
    ensures
        drive(ledger, kind, begin_list_spec(kind, base)) == (
            list_result(ledger, kind, base).0,
            records_outcome(list_result(ledger, kind, base).1),
        ),
{
    let resolving = ActionView::Anchor { anchor_type: kind.anchor_type, tag: base };
    lemma_drive_step(ledger, kind, PhaseView::ListAnchoring, resolving);
    if ledger.online {
        let anchored = resolve(ledger, kind.anchor_type, base);
        match anchored.1 {
            EventView::Address(anchor) => {
                let looking = ActionView::Links { base: anchor, link_type: kind.link_type };
                lemma_drive_step(anchored.0, kind, PhaseView::ListLooking, looking);
                let edges = edges_of(anchored.0.links, anchor, kind.link_type);
                lemma_list_from(anchored.0, kind, edges, 0, Seq::empty());
                assert(Seq::<RecordView>::empty() + records_from(anchored.0, edges, 0)
                    =~= records_from(anchored.0, edges, 0));
            },
            _ => {},
        }
    }
}

/// Driving `update`'s search from anchor number `next` on, when the handle is
/// live under no earlier anchor, finds the first anchor that holds it, takes
/// the old index link from it and indexes the new entry there.
pub proof fn lemma_search_from(
    ledger: LedgerView,
    kind: KindView,
    anchors: Seq<Text>,
    next: nat,
    id: Text,
    created_at: i64,
    address: Text,
    fresh: Text,
    payload: Seq<FieldView>,
)
    requires
        ledger.online,
        next <= anchors.len(),
        forall|j: int|
            0 <= j < next ==> !holding(ledger, kind, id, created_at, address)(#[trigger] anchors[j]),
    ensures
        drive(
            ledger,
            kind,
            search_from(kind, anchors, next, id, timestamp_text(created_at), address, fresh, payload),
        ) == (match first_index(anchors, holding(ledger, kind, id, created_at, address)) {
            Some(i) => {
                let indexed = stamped(
                    unlink(
                        ledger,
                        index_link(kind, anchors[i], address, timestamp_text(created_at)),
                    ),
                    kind,
                    anchors[i],
                    Some(id),
                    fresh,
                    payload,
                );
                (indexed.0, record_outcome(indexed.1))
            },
            None => (ledger, OutcomeView::Failed(Failure::NotFound)),
        }),
    decreases anchors.len() - next,
{
    let tag = timestamp_text(created_at);
    let wanted = holding(ledger, kind, id, created_at, address);
    if next >= anchors.len() {
        lemma_first_index_none(anchors, wanted);
    } else {
        let anchor = anchors[next as int];
        let phase = PhaseView::UpdateSearching { anchors, next, id, tag, address, fresh, payload };
        let looking = ActionView::Links { base: anchor, link_type: kind.link_type };
        lemma_drive_step(ledger, kind, phase, looking);
        lemma_edge_live(ledger.links, anchor, kind.link_type, id, tag);
        lemma_edge_live(ledger.links, anchor, kind.link_type, address, tag);
        if wanted(anchor) {
            lemma_first_index_is(anchors, wanted, next as int);
            let removing = ActionView::Unlink {
                base: anchor,
                target: address,
                link_type: kind.link_type,
                tag,
            };
            lemma_drive_step(
                ledger,
                kind,
                PhaseView::UpdateUnlinking { anchor, id, fresh, payload },
                removing,
            );
            let unlinked = unlink(ledger, index_link(kind, anchor, address, tag));
            lemma_stamped(unlinked, kind, anchor, Some(id), fresh, payload);
        } else {
            lemma_search_from(
                ledger,
                kind,
                anchors,
                (next + 1) as nat,
                id,
                created_at,
                address,
                fresh,
                payload,
            );
        }
    }
}

/// Driving `update` from its opening comes to `update_result`.
pub proof fn lemma_update(
    ledger: LedgerView,
    kind: KindView,
    id: Text,
    created_at: i64,
    address: Text,
    payload: Seq<FieldView>,
)
    ensures
        drive(ledger, kind, begin_update_spec(kind, id, created_at, address, payload)) == (
            update_result(ledger, kind, id, created_at, address, payload).0,
            record_outcome(update_result(ledger, kind, id, created_at, address, payload).1),
        ),
{
    if conforms(kind.schema, payload) {
        let tag = timestamp_text(created_at);
        let writing = ActionView::Commit { kind: kind.name, payload };
        lemma_drive_step(
            ledger,
            kind,
            PhaseView::UpdateCommitting { id, tag, address, payload },
            writing,
        );
        if ledger.online {
            let written = commit(ledger, kind.name, payload);
            match written.1 {
                EventView::Address(fresh) => {
                    let listing = ActionView::Anchors { anchor_type: kind.anchor_type };
                    lemma_drive_step(
                        written.0,
                        kind,
                        PhaseView::UpdateListing { id, tag, address, fresh, payload },
                        listing,
                    );
                    let anchors = addresses_of(written.0.anchors, kind.anchor_type);
                    lemma_search_from(
                        written.0,
                        kind,
                        anchors,
                        0,
                        id,
                        created_at,
                        address,
                        fresh,
                        payload,
                    );
                },
                _ => {},
            }
        }
    }
}

/// Writes a payload as a new record of a kind and indexes it under a base.
pub fn create(ledger: &mut Ledger, kind: &Kind, base: String, payload: Vec<Field>) -> (result: Result<
    Record,
    Failure,
>)
    ensures
        final(ledger)@ == create_result(old(ledger)@, kind@, base@, views(payload@)).0,
        record_view(result) == create_result(old(ledger)@, kind@, base@, views(payload@)).1,
        well_formed(old(ledger)@) ==> well_formed(final(ledger)@),
{
    proof {
        lemma_create(ledger@, kind@, base@, views(payload@));
    }
    match run(ledger, kind, begin_create(kind, base, payload)) {
        Outcome::Record(record) => Ok(record),
        Outcome::Failed(failure) => Err(failure),
        _ => Err(Failure::StoreUnavailable),
    }
}

/// Reads the record at `id`, under the creation time that the caller names.
/// The ledger stays as it is.
pub fn read(ledger: &mut Ledger, kind: &Kind, id: String, created_at: i64) -> (result: Result<
    Record,
    Failure,
>)
    ensures
        final(ledger)@ == old(ledger)@,
        record_view(result) == read_result(old(ledger)@, id@, created_at),
{
    proof {
        lemma_read(ledger@, kind@, id@, created_at);
    }
    match run(ledger, kind, begin_read(id, created_at)) {
        Outcome::Record(record) => Ok(record),
        Outcome::Failed(failure) => Err(failure),
        _ => Err(Failure::StoreUnavailable),
    }
}

/// Replaces the version at `address` of the record that a handle names by a
/// new payload.
pub fn update(
    ledger: &mut Ledger,
    kind: &Kind,
    id: String,
    created_at: i64,
    address: String,
    payload: Vec<Field>,
) -> (result: Result<Record, Failure>)
    ensures
        final(ledger)@ == update_result(
            old(ledger)@,
            kind@,
            id@,
            created_at,
            address@,
            views(payload@),
        ).0,
        record_view(result) == update_result(
            old(ledger)@,
            kind@,
            id@,
            created_at,
            address@,
            views(payload@),
        ).1,
        well_formed(old(ledger)@) ==> well_formed(final(ledger)@),
{
    proof {
        lemma_update(ledger@, kind@, id@, created_at, address@, views(payload@));
    }
    match run(ledger, kind, begin_update(kind, id, created_at, address, payload)) {
        Outcome::Record(record) => Ok(record),
        Outcome::Failed(failure) => Err(failure),
        _ => Err(Failure::StoreUnavailable),
    }
}

/// Takes the version at `address` of the record that a handle names out of a
/// base's index and asks for the removal of its entry.
pub fn delete(
    ledger: &mut Ledger,
    kind: &Kind,
    base: String,
    id: String,
    created_at: i64,
    address: String,
) -> (result: Result<String, Failure>)
    ensures
        final(ledger)@ == delete_result(old(ledger)@, kind@, base@, id@, created_at, address@).0,
        address_view(result) == delete_result(
            old(ledger)@,
            kind@,
            base@,
            id@,
            created_at,
            address@,
        ).1,
        well_formed(old(ledger)@) ==> well_formed(final(ledger)@),
{
    proof {
        lemma_delete(ledger@, kind@, base@, id@, created_at, address@);
    }
    match run(ledger, kind, begin_delete(kind, base, id, created_at, address)) {
        Outcome::Address(address) => Ok(address),
        Outcome::Failed(failure) => Err(failure),
        _ => Err(Failure::StoreUnavailable),
    }
}

/// Lists the records that a base indexes: one for each live index link, in
/// the order in which the links were added.
pub fn list(ledger: &mut Ledger, kind: &Kind, base: String) -> (result: Result<Vec<Record>, Failure>)
    ensures
        final(ledger)@ == list_result(old(ledger)@, kind@, base@).0,
        records_view(result) == list_result(old(ledger)@, kind@, base@).1,
        well_formed(old(ledger)@) ==> well_formed(final(ledger)@),
{
    proof {
        lemma_list(ledger@, kind@, base@);
    }
    match run(ledger, kind, begin_list(kind, base)) {
        Outcome::Records(records) => Ok(records),
        Outcome::Failed(failure) => Err(failure),
        _ => Err(Failure::StoreUnavailable),
    }
}

/// Moves the index link of a record from one base to another.
pub fn rebase(
    ledger: &mut Ledger,
    kind: &Kind,
    base_from: String,
    base_to: String,
    id: String,
    created_at: i64,
) -> (result: Result<String, Failure>)
    ensures
        final(ledger)@ == rebase_result(
            old(ledger)@,
            kind@,
            base_from@,
            base_to@,
            id@,
            created_at,
        ).0,
        address_view(result) == rebase_result(
            old(ledger)@,
            kind@,
            base_from@,
            base_to@,
            id@,
            created_at,
        ).1,
        well_formed(old(ledger)@) ==> well_formed(final(ledger)@),
{
    proof {
        lemma_rebase(ledger@, kind@, base_from@, base_to@, id@, created_at);
    }
    match run(ledger, kind, begin_rebase(kind, base_from, base_to, id, created_at)) {
        Outcome::Address(address) => Ok(address),
        Outcome::Failed(failure) => Err(failure),
        _ => Err(Failure::StoreUnavailable),
    }
}

} // verus!
