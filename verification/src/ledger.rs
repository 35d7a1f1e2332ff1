//! A store to run the operations against: entries by content address, anchors,
//! tagged links and a clock, all held in memory.
//!
//! The ledger answers each request of the protocol as the store, the link
//! index and the anchors are expected to. An entry's address is computed from
//! its content, so that equal contents share one entry. A removed entry stays
//! in the ledger and is no longer handed out. Anchors are made on first use.
//! Links are a set, listed in the order in which they were added. The clock
//! moves by one microsecond each time it is read.

use vstd::prelude::*;
use crate::address::{
    address_anchor, address_content, address_type, anchor_address, content_address, type_address,
};
use crate::protocol::{Action, ActionView, Edge, EdgeView, Event, EventView};
use crate::record::{copy_payload, same_payload, Field, FieldView};
use crate::scan::{
    first_index, lemma_first_index, lemma_first_index_is, lemma_first_index_none,
    lemma_select_contains, lemma_select_step, select,
};
use crate::text::{copy_text, copy_texts, lemma_views_push, views, Text};

verus! {

/// An entry as the ledger keeps it.
struct Entry {
    address: String,
    kind: String,
    payload: Vec<Field>,
    live: bool,
}

/// An entry of the ledger: its address, the name of its kind, what it holds,
/// and whether it is still handed out.
pub struct EntryView {
    pub address: Text,
    pub kind: Text,
    pub payload: Seq<FieldView>,
    pub live: bool,
}

impl View for Entry {
    type V = EntryView;

    closed spec fn view(&self) -> EntryView {
        EntryView {
            address: self.address@,
            kind: self.kind@,
            payload: views(self.payload@),
            live: self.live,
        }
    }
}

/// An anchor as the ledger keeps it.
struct Anchor {
    address: String,
    anchor_type: String,
    tag: String,
}

/// An anchor of the ledger: the node of a type and a tag, and its address.
pub struct AnchorView {
    pub address: Text,
    pub anchor_type: Text,
    pub tag: Text,
}

impl View for Anchor {
    type V = AnchorView;

    closed spec fn view(&self) -> AnchorView {
        AnchorView { address: self.address@, anchor_type: self.anchor_type@, tag: self.tag@ }
    }
}

/// A live link as the ledger keeps it.
struct Link {
    base: String,
    target: String,
    link_type: String,
    tag: String,
}

/// A live link of the ledger.
pub struct LinkView {
    pub base: Text,
    pub target: Text,
    pub link_type: Text,
    pub tag: Text,
}

impl View for Link {
    type V = LinkView;

    closed spec fn view(&self) -> LinkView {
        LinkView {
            base: self.base@,
            target: self.target@,
            link_type: self.link_type@,
            tag: self.tag@,
        }
    }
}

/// The store in memory.
pub struct Ledger {
    online: bool,
    clock: i64,
    entries: Vec<Entry>,
    types: Vec<String>,
    anchors: Vec<Anchor>,
    links: Vec<Link>,
}

/// What a ledger holds: whether it answers at all, the last time its clock
/// gave, its entries in the order of their first writing, the anchor types
/// and the anchors in the order of their making, and the live links in the
/// order of their adding.
pub struct LedgerView {
    pub online: bool,
    pub clock: i64,
    pub entries: Seq<EntryView>,
    pub types: Seq<Text>,
    pub anchors: Seq<AnchorView>,
    pub links: Seq<LinkView>,
}

impl View for Ledger {
    type V = LedgerView;

    closed spec fn view(&self) -> LedgerView {
        LedgerView {
            online: self.online,
            clock: self.clock,
            entries: views(self.entries@),
            types: views(self.types@),
            anchors: views(self.anchors@),
            links: views(self.links@),
        }
    }
}

/// The entries at an address.
pub open spec fn at_address(address: Text) -> spec_fn(EntryView) -> bool {
    |entry: EntryView| entry.address == address
}

/// The anchors of a type with a tag.
pub open spec fn named(anchor_type: Text, tag: Text) -> spec_fn(AnchorView) -> bool {
    |anchor: AnchorView| anchor.anchor_type == anchor_type && anchor.tag == tag
}

/// The anchors of a type.
pub open spec fn of_type(anchor_type: Text) -> spec_fn(AnchorView) -> bool {
    |anchor: AnchorView| anchor.anchor_type == anchor_type
}

/// The address of an anchor.
pub open spec fn anchor_to_address() -> spec_fn(AnchorView) -> Text {
    |anchor: AnchorView| anchor.address
}

/// The tag of an anchor.
pub open spec fn anchor_to_tag() -> spec_fn(AnchorView) -> Text {
    |anchor: AnchorView| anchor.tag
}

/// The links of a type from a base.
pub open spec fn from_base(base: Text, link_type: Text) -> spec_fn(LinkView) -> bool {
    |link: LinkView| link.base == base && link.link_type == link_type
}

/// The links other than one.
pub open spec fn other_than(link: LinkView) -> spec_fn(LinkView) -> bool {
    |other: LinkView| other != link
}

/// A link as seen from its base.
pub open spec fn link_to_edge() -> spec_fn(LinkView) -> EdgeView {
    |link: LinkView| EdgeView { target: link.target, tag: link.tag }
}

/// A link as it is.
pub open spec fn link_itself() -> spec_fn(LinkView) -> LinkView {
    |link: LinkView| link
}

/// Where the entry at an address stands among the entries.
pub open spec fn entry_index(entries: Seq<EntryView>, address: Text) -> Option<int> {
    first_index(entries, at_address(address))
}

/// Where the anchor of a type with a tag stands among the anchors.
pub open spec fn anchor_index(anchors: Seq<AnchorView>, anchor_type: Text, tag: Text) -> Option<int> {
    first_index(anchors, named(anchor_type, tag))
}

/// Whether some anchor has an address.
pub open spec fn address_taken(anchors: Seq<AnchorView>, address: Text) -> bool {
    exists|i: int| 0 <= i < anchors.len() && (#[trigger] anchors[i]).address == address
}

/// The edges of the links of a type from a base, in the links' order.
pub open spec fn edges_of(links: Seq<LinkView>, base: Text, link_type: Text) -> Seq<EdgeView> {
    select(links, from_base(base, link_type), link_to_edge())
}

/// The links without one of them.
pub open spec fn without(links: Seq<LinkView>, link: LinkView) -> Seq<LinkView> {
    select(links, other_than(link), link_itself())
}

/// The addresses of the anchors of a type, in the anchors' order.
pub open spec fn addresses_of(anchors: Seq<AnchorView>, anchor_type: Text) -> Seq<Text> {
    select(anchors, of_type(anchor_type), anchor_to_address())
}

/// The tags of the anchors of a type, in the anchors' order.
pub open spec fn tags_of(anchors: Seq<AnchorView>, anchor_type: Text) -> Seq<Text> {
    select(anchors, of_type(anchor_type), anchor_to_tag())
}

/// The links from a base, whatever their type.
pub open spec fn leaving(base: Text) -> spec_fn(LinkView) -> bool {
    |link: LinkView| link.base == base
}

/// Where a link leads.
pub open spec fn link_to_target() -> spec_fn(LinkView) -> Text {
    |link: LinkView| link.target
}

/// The targets of the links from a base, in the links' order.
pub open spec fn members_of(links: Seq<LinkView>, base: Text) -> Seq<Text> {
    select(links, leaving(base), link_to_target())
}

/// The addresses of the nodes of the anchor types, in the types' order.
pub open spec fn type_addresses(types: Seq<Text>) -> Seq<Text> {
    Seq::new(types.len(), |i: int| type_address(types[i]))
}

/// Writing an entry under an address: a content that the ledger holds at the
/// address is handed out again, a content at an address that holds nothing
/// joins the entries, and a content whose address another content has is
/// refused.
pub open spec fn commit_at(
    ledger: LedgerView,
    address: Text,
    kind: Text,
    payload: Seq<FieldView>,
) -> (LedgerView, EventView) {
    match entry_index(ledger.entries, address) {
        Some(i) => if ledger.entries[i].kind == kind && ledger.entries[i].payload == payload {
            (
                LedgerView {
                    entries: ledger.entries.update(
                        i,
                        EntryView { address, kind, payload, live: true },
                    ),
                    ..ledger
                },
                EventView::Address(address),
            )
        } else {
            (ledger, EventView::Unavailable)
        },
        None => (
            LedgerView {
                entries: ledger.entries.push(EntryView { address, kind, payload, live: true }),
                ..ledger
            },
            EventView::Address(address),
        ),
    }
}

/// Writing an entry: it is written under the address of its content.
pub open spec fn commit(ledger: LedgerView, kind: Text, payload: Seq<FieldView>) -> (
    LedgerView,
    EventView,
) {
    commit_at(ledger, content_address(kind, payload), kind, payload)
}

/// Reading an entry: the payload of the live entry at the address.
pub open spec fn fetch(ledger: LedgerView, address: Text) -> EventView {
    match entry_index(ledger.entries, address) {
        Some(i) => if ledger.entries[i].live {
            EventView::Payload(ledger.entries[i].payload)
        } else {
            EventView::Missing
        },
        None => EventView::Missing,
    }
}

/// Removing an entry: the live entry at the address is no longer handed out.
pub open spec fn retire(ledger: LedgerView, address: Text) -> (LedgerView, EventView) {
    match entry_index(ledger.entries, address) {
        Some(i) => if ledger.entries[i].live {
            (
                LedgerView {
                    entries: ledger.entries.update(
                        i,
                        EntryView {
                            address: ledger.entries[i].address,
                            kind: ledger.entries[i].kind,
                            payload: ledger.entries[i].payload,
                            live: false,
                        },
                    ),
                    ..ledger
                },
                EventView::Done,
            )
        } else {
            (ledger, EventView::Missing)
        },
        None => (ledger, EventView::Missing),
    }
}

/// Making an anchor with an address: the anchor joins the anchors, and its
/// type the types, unless another anchor has the address.
pub open spec fn plant(ledger: LedgerView, address: Text, anchor_type: Text, tag: Text) -> (
    LedgerView,
    EventView,
) {
    if address_taken(ledger.anchors, address) {
        (ledger, EventView::Unavailable)
    } else {
        (
            LedgerView {
                types: if ledger.types.contains(anchor_type) {
                    ledger.types
                } else {
                    ledger.types.push(anchor_type)
                },
                anchors: ledger.anchors.push(AnchorView { address, anchor_type, tag }),
                ..ledger
            },
            EventView::Address(address),
        )
    }
}

/// Resolving an anchor: the address of the anchor of the type with the tag.
/// Where there is none yet it is made, with the address of its type and tag.
pub open spec fn resolve(ledger: LedgerView, anchor_type: Text, tag: Text) -> (LedgerView, EventView) {
    match anchor_index(ledger.anchors, anchor_type, tag) {
        Some(i) => (ledger, EventView::Address(ledger.anchors[i].address)),
        None => plant(ledger, anchor_address(anchor_type, tag), anchor_type, tag),
    }
}

/// Adding a link: it joins the live links unless it is one of them.
pub open spec fn link(ledger: LedgerView, added: LinkView) -> LedgerView {
    if ledger.links.contains(added) {
        ledger
    } else {
        LedgerView { links: ledger.links.push(added), ..ledger }
    }
}

/// Removing a link: it is no longer one of the live links.
pub open spec fn unlink(ledger: LedgerView, removed: LinkView) -> LedgerView {
    LedgerView { links: without(ledger.links, removed), ..ledger }
}

/// Reading the clock: the next microsecond, while there is one.
pub open spec fn tick(ledger: LedgerView) -> (LedgerView, EventView) {
    if ledger.clock == i64::MAX {
        (ledger, EventView::Unavailable)
    } else {
        (
            LedgerView { clock: (ledger.clock + 1) as i64, ..ledger },
            EventView::Time((ledger.clock + 1) as i64),
        )
    }
}

/// What the ledger becomes and answers when it is asked for something. A
/// ledger that is not online answers `Unavailable` and stays as it is.
pub open spec fn respond(ledger: LedgerView, action: ActionView) -> (LedgerView, EventView) {
    if !ledger.online {
        (ledger, EventView::Unavailable)
    } else {
        match action {
            ActionView::Commit { kind, payload } => commit(ledger, kind, payload),
            ActionView::Fetch { address } => (ledger, fetch(ledger, address)),
            ActionView::Retire { address } => retire(ledger, address),
            ActionView::Anchor { anchor_type, tag } => resolve(ledger, anchor_type, tag),
            ActionView::Anchors { anchor_type } => (
                ledger,
                EventView::Addresses(addresses_of(ledger.anchors, anchor_type)),
            ),
            ActionView::Link { base, target, link_type, tag } => (
                link(ledger, LinkView { base, target, link_type, tag }),
                EventView::Done,
            ),
            ActionView::Unlink { base, target, link_type, tag } => (
                unlink(ledger, LinkView { base, target, link_type, tag }),
                EventView::Done,
            ),
            ActionView::Links { base, link_type } => (
                ledger,
                EventView::Edges(edges_of(ledger.links, base, link_type)),
            ),
            ActionView::Now => tick(ledger),
        }
    }
}

/// A ledger is well formed when each anchor has the address of its type and
/// tag, and no two anchors share an address.
pub open spec fn well_formed(ledger: LedgerView) -> bool {
    &&& forall|i: int|
        0 <= i < ledger.anchors.len() ==> (#[trigger] ledger.anchors[i]).address == anchor_address(
            ledger.anchors[i].anchor_type,
            ledger.anchors[i].tag,
        )
    &&& forall|i: int, j: int|
        0 <= i < j < ledger.anchors.len() ==> (#[trigger] ledger.anchors[i]).address != (
        #[trigger] ledger.anchors[j]).address
}

/// The ledger that holds nothing, with its clock at a time.
pub open spec fn empty_ledger(clock: i64) -> LedgerView {
    LedgerView {
        online: true,
        clock,
        entries: Seq::empty(),
        types: Seq::empty(),
        anchors: Seq::empty(),
        links: Seq::empty(),
    }
}

/// Making an anchor with the address of its type and tag keeps a ledger well
/// formed.
pub proof fn lemma_plant_well_formed(ledger: LedgerView, anchor_type: Text, tag: Text)
    requires
        well_formed(ledger),
    ensures
        well_formed(plant(ledger, anchor_address(anchor_type, tag), anchor_type, tag).0),
{
    let address = anchor_address(anchor_type, tag);
    let after = plant(ledger, address, anchor_type, tag).0;
    if !address_taken(ledger.anchors, address) {
        let n = ledger.anchors.len() as int;
        assert(after.anchors.len() == n + 1);
        assert forall|i: int, j: int| 0 <= i < j < after.anchors.len() implies (
        #[trigger] after.anchors[i]).address != (#[trigger] after.anchors[j]).address by {
            if j == n {
                assert(ledger.anchors[i].address != address);
            } else {
                assert(ledger.anchors[i].address != ledger.anchors[j].address);
            }
        }
    }
}

/// Whatever a well-formed ledger is asked, it stays well formed.
pub proof fn lemma_respond_well_formed(ledger: LedgerView, action: ActionView)
    requires
        well_formed(ledger),
    ensures
        well_formed(respond(ledger, action).0),
{
    if ledger.online {
        match action {
            ActionView::Anchor { anchor_type, tag } => {
                lemma_plant_well_formed(ledger, anchor_type, tag);
            },
            _ => {},
        }
    }
}

/// Whether a link is one of the live links.
pub open spec fn live(ledger: LedgerView, base: Text, target: Text, link_type: Text, tag: Text) -> bool {
    ledger.links.contains(LinkView { base, target, link_type, tag })
}

/// The edges of a base hold one to a target with a tag exactly when the link
/// is live.
pub proof fn lemma_edge_live(links: Seq<LinkView>, base: Text, link_type: Text, target: Text, tag: Text)
    ensures
        edges_of(links, base, link_type).contains(EdgeView { target, tag }) <==> links.contains(
            LinkView { base, target, link_type, tag },
        ),
{
    let edge = EdgeView { target, tag };
    let wanted = LinkView { base, target, link_type, tag };
    lemma_select_contains(links, from_base(base, link_type), link_to_edge(), edge);
    if links.contains(wanted) {
        let i = choose|i: int| 0 <= i < links.len() && links[i] == wanted;
        assert(from_base(base, link_type)(links[i]) && link_to_edge()(links[i]) == edge);
    }
    if edges_of(links, base, link_type).contains(edge) {
        let i = choose|i: int|
            0 <= i < links.len() && from_base(base, link_type)(#[trigger] links[i])
                && link_to_edge()(links[i]) == edge;
        assert(links[i] == wanted);
    }
}

/// Resolving an anchor on a well-formed ledger touches nothing but the
/// anchors and their types, and gives the address of the type and the tag.
/// After it the anchor is there, and resolving it again changes nothing.
pub proof fn lemma_resolve(ledger: LedgerView, anchor_type: Text, tag: Text)
    requires
        well_formed(ledger),
    ensures
        well_formed(resolve(ledger, anchor_type, tag).0),
        resolve(ledger, anchor_type, tag).0.links == ledger.links,
        resolve(ledger, anchor_type, tag).0.entries == ledger.entries,
        resolve(ledger, anchor_type, tag).0.clock == ledger.clock,
        resolve(ledger, anchor_type, tag).0.online == ledger.online,
        resolve(ledger, anchor_type, tag).1 is Address || resolve(ledger, anchor_type, tag).1
            is Unavailable,
        resolve(ledger, anchor_type, tag).1 is Unavailable ==> resolve(ledger, anchor_type, tag).0
            == ledger,
        resolve(ledger, anchor_type, tag).1 is Address ==> {
            &&& resolve(ledger, anchor_type, tag).1 == EventView::Address(
                anchor_address(anchor_type, tag),
            )
            &&& resolve(resolve(ledger, anchor_type, tag).0, anchor_type, tag) == resolve(
                ledger,
                anchor_type,
                tag,
            )
        },
        anchor_index(ledger.anchors, anchor_type, tag) is Some ==> resolve(
            ledger,
            anchor_type,
            tag,
        ) == (ledger, EventView::Address(anchor_address(anchor_type, tag))),
{
    let wanted = named(anchor_type, tag);
    lemma_first_index(ledger.anchors, wanted);
    lemma_respond_well_formed(
        LedgerView { online: true, ..ledger },
        ActionView::Anchor { anchor_type, tag },
    );
    match anchor_index(ledger.anchors, anchor_type, tag) {
        Some(i) => {
            assert(wanted(ledger.anchors[i]));
        },
        None => {
            let address = anchor_address(anchor_type, tag);
            if !address_taken(ledger.anchors, address) {
                let after = resolve(ledger, anchor_type, tag).0;
                let n = ledger.anchors.len() as int;
                assert(wanted(after.anchors[n]));
                assert forall|j: int| 0 <= j < n implies !wanted(#[trigger] after.anchors[j]) by {
                    assert(after.anchors[j] == ledger.anchors[j]);
                }
                lemma_first_index_is(after.anchors, wanted, n);
            }
        },
    }
}

/// Writing an entry touches nothing but the entries. The address it gives is
/// the content's, the entry at that address then holds the payload, and every
/// entry that could be read before reads as before.
pub proof fn lemma_commit(ledger: LedgerView, kind: Text, payload: Seq<FieldView>)
    ensures
        commit(ledger, kind, payload).0.links == ledger.links,
        commit(ledger, kind, payload).0.anchors == ledger.anchors,
        commit(ledger, kind, payload).0.types == ledger.types,
        commit(ledger, kind, payload).0.clock == ledger.clock,
        commit(ledger, kind, payload).0.online == ledger.online,
        commit(ledger, kind, payload).1 is Address || commit(ledger, kind, payload).1 is Unavailable,
        commit(ledger, kind, payload).1 is Address ==> {
            &&& commit(ledger, kind, payload).1 == EventView::Address(content_address(kind, payload))
            &&& fetch(commit(ledger, kind, payload).0, content_address(kind, payload))
                == EventView::Payload(payload)
        },
        forall|address: Text| #[trigger]
            fetch(ledger, address) is Payload ==> fetch(commit(ledger, kind, payload).0, address)
                == fetch(ledger, address),
{
    let address = content_address(kind, payload);
    let after = commit(ledger, kind, payload).0;
    lemma_first_index(ledger.entries, at_address(address));
    match entry_index(ledger.entries, address) {
        Some(i) => {
            if ledger.entries[i].kind == kind && ledger.entries[i].payload == payload {
                assert forall|j: int| 0 <= j < i implies !at_address(address)(
                    #[trigger] after.entries[j],
                ) by {
                    assert(after.entries[j] == ledger.entries[j]);
                }
                lemma_first_index_is(after.entries, at_address(address), i);
                assert forall|other: Text| #[trigger] fetch(ledger, other) is Payload implies fetch(
                    after,
                    other,
                ) == fetch(ledger, other) by {
                    lemma_first_index(ledger.entries, at_address(other));
                    let k = entry_index(ledger.entries, other).unwrap();
                    assert forall|j: int| 0 <= j < k implies !at_address(other)(
                        #[trigger] after.entries[j],
                    ) by {
                        assert(after.entries[j].address == ledger.entries[j].address);
                    }
                    assert(after.entries[k].address == ledger.entries[k].address);
                    lemma_first_index_is(after.entries, at_address(other), k);
                }
            }
        },
        None => {
            let n = ledger.entries.len() as int;
            assert forall|j: int| 0 <= j < n implies !at_address(address)(
                #[trigger] after.entries[j],
            ) by {
                assert(after.entries[j] == ledger.entries[j]);
            }
            lemma_first_index_is(after.entries, at_address(address), n);
            assert forall|other: Text| #[trigger] fetch(ledger, other) is Payload implies fetch(
                after,
                other,
            ) == fetch(ledger, other) by {
                lemma_first_index(ledger.entries, at_address(other));
                let k = entry_index(ledger.entries, other).unwrap();
                assert forall|j: int| 0 <= j < k implies !at_address(other)(
                    #[trigger] after.entries[j],
                ) by {
                    assert(after.entries[j] == ledger.entries[j]);
                }
                assert(after.entries[k] == ledger.entries[k]);
                lemma_first_index_is(after.entries, at_address(other), k);
            }
        },
    }
}

/// What is left without a link holds every other link that was there, and
/// not the link.
pub proof fn lemma_without(links: Seq<LinkView>, removed: LinkView, other: LinkView)
    ensures
        without(links, removed).contains(other) <==> links.contains(other) && other != removed,
{
    lemma_select_contains(links, other_than(removed), link_itself(), other);
    if links.contains(other) && other != removed {
        let i = choose|i: int| 0 <= i < links.len() && links[i] == other;
        assert(other_than(removed)(links[i]) && link_itself()(links[i]) == other);
    }
    if without(links, removed).contains(other) {
        let i = choose|i: int|
            0 <= i < links.len() && other_than(removed)(#[trigger] links[i]) && link_itself()(
                links[i],
            ) == other;
        assert(links[i] == other);
    }
}

/// After a link was added the live links are those that were live, and the
/// link.
pub proof fn lemma_link(ledger: LedgerView, added: LinkView, other: LinkView)
    ensures
        link(ledger, added).links.contains(other) <==> ledger.links.contains(other) || other
            == added,
{
    if !ledger.links.contains(added) {
        let after = ledger.links.push(added);
        if after.contains(other) {
            let i = choose|i: int| 0 <= i < after.len() && after[i] == other;
            if i < ledger.links.len() {
                assert(ledger.links[i] == other);
            }
        }
        if ledger.links.contains(other) {
            let i = choose|i: int| 0 <= i < ledger.links.len() && ledger.links[i] == other;
            assert(after[i] == other);
        }
        assert(after[ledger.links.len() as int] == added);
    }
}

/// Whether two links are the same link.
fn same_link(left: &Link, right: &Link) -> (same: bool)
    ensures
        same == (left@ == right@),
{
    left.base == right.base && left.target == right.target && left.link_type == right.link_type
        && left.tag == right.tag
}

impl Ledger {
    /// A ledger that holds nothing, with its clock at the epoch.
    pub fn new() -> (ledger: Self)
        ensures
            ledger@ == empty_ledger(0),
            well_formed(ledger@),
    {
        Ledger::starting_at(0)
    }

    /// A ledger that holds nothing, with its clock at a time of the caller's
    /// choosing.
    pub fn starting_at(clock: i64) -> (ledger: Self)
        ensures
            ledger@ == empty_ledger(clock),
            well_formed(ledger@),
    {
        let ledger = Ledger {
            online: true,
            clock,
            entries: Vec::new(),
            types: Vec::new(),
            anchors: Vec::new(),
            links: Vec::new(),
        };
        assert(ledger@.entries =~= Seq::empty());
        assert(ledger@.types =~= Seq::empty());
        assert(ledger@.anchors =~= Seq::empty());
        assert(ledger@.links =~= Seq::empty());
        ledger
    }

    /// Takes the ledger off line, or brings it back.
    pub fn set_online(&mut self, online: bool)
        ensures
            final(self)@ == (LedgerView { online, ..old(self)@ }),
    {
        self.online = online;
    }

    /// Whether the ledger answers requests.
    pub fn is_online(&self) -> (online: bool)
        ensures
            online == self@.online,
    {
        self.online
    }

    /// Where the entry at an address stands, if there is one.
    fn find_entry(&self, address: &String) -> (found: Option<usize>)
        ensures
            found matches Some(i) ==> i < self.entries.len() && entry_index(
                self@.entries,
                address@,
            ) == Some(i as int),
            found is None ==> entry_index(self@.entries, address@) is None,
    {
        let ghost wanted = at_address(address@);
        let mut i: usize = 0;
        while i < self.entries.len()
            invariant
                i <= self.entries.len(),
                wanted == at_address(address@),
                forall|j: int| 0 <= j < i ==> !wanted(#[trigger] views(self.entries@)[j]),
            decreases self.entries.len() - i,
        {
            if self.entries[i].address == *address {
                proof {
                    assert(wanted(views(self.entries@)[i as int]));
                    lemma_first_index_is(views(self.entries@), wanted, i as int);
                }
                return Some(i);
            }
            assert(!wanted(views(self.entries@)[i as int]));
            i = i + 1;
        }
        proof {
            lemma_first_index_none(views(self.entries@), wanted);
        }
        None
    }

    /// Where the anchor of a type with a tag stands, if there is one.
    fn find_anchor(&self, anchor_type: &String, tag: &String) -> (found: Option<usize>)
        ensures
            found matches Some(i) ==> i < self.anchors.len() && anchor_index(
                self@.anchors,
                anchor_type@,
                tag@,
            ) == Some(i as int),
            found is None ==> anchor_index(self@.anchors, anchor_type@, tag@) is None,
    {
        let ghost wanted = named(anchor_type@, tag@);
        let mut i: usize = 0;
        while i < self.anchors.len()
            invariant
                i <= self.anchors.len(),
                wanted == named(anchor_type@, tag@),
                forall|j: int| 0 <= j < i ==> !wanted(#[trigger] views(self.anchors@)[j]),
            decreases self.anchors.len() - i,
        {
            if self.anchors[i].anchor_type == *anchor_type && self.anchors[i].tag == *tag {
                proof {
                    assert(wanted(views(self.anchors@)[i as int]));
                    lemma_first_index_is(views(self.anchors@), wanted, i as int);
                }
                return Some(i);
            }
            assert(!wanted(views(self.anchors@)[i as int]));
            i = i + 1;
        }
        proof {
            lemma_first_index_none(views(self.anchors@), wanted);
        }
        None
    }

    /// Whether some anchor has an address.
    fn is_taken(&self, address: &String) -> (taken: bool)
        ensures
            taken == address_taken(self@.anchors, address@),
    {
        let mut i: usize = 0;
        while i < self.anchors.len()
            invariant
                i <= self.anchors.len(),
                forall|j: int| 0 <= j < i ==> (#[trigger] views(self.anchors@)[j]).address != address@,
            decreases self.anchors.len() - i,
        {
            if self.anchors[i].address == *address {
                assert(views(self.anchors@)[i as int].address == address@);
                return true;
            }
            i = i + 1;
        }
        false
    }

    /// Whether an anchor type is in use.
    fn has_type(&self, anchor_type: &String) -> (found: bool)
        ensures
            found == self@.types.contains(anchor_type@),
    {
        let mut i: usize = 0;
        while i < self.types.len()
            invariant
                i <= self.types.len(),
                forall|j: int| 0 <= j < i ==> views(self.types@)[j] != anchor_type@,
            decreases self.types.len() - i,
        {
            if self.types[i] == *anchor_type {
                assert(views(self.types@)[i as int] == anchor_type@);
                return true;
            }
            i = i + 1;
        }
        false
    }

    /// Whether a link is live.
    fn has_link(&self, link: &Link) -> (found: bool)
        ensures
            found == self@.links.contains(link@),
    {
        let mut i: usize = 0;
        while i < self.links.len()
            invariant
                i <= self.links.len(),
                forall|j: int| 0 <= j < i ==> views(self.links@)[j] != link@,
            decreases self.links.len() - i,
        {
            if same_link(&self.links[i], link) {
                assert(views(self.links@)[i as int] == link@);
                return true;
            }
            i = i + 1;
        }
        false
    }

    /// Writes an entry under an address that the caller has computed.
    pub fn write_at(&mut self, address: String, kind: String, payload: Vec<Field>) -> (event: Event)
        ensures
            (final(self)@, event@) == commit_at(old(self)@, address@, kind@, views(payload@)),
            well_formed(old(self)@) ==> well_formed(final(self)@),
    {
        match self.find_entry(&address) {
            Some(i) => {
                if self.entries[i].kind == kind && same_payload(&self.entries[i].payload, &payload) {
                    let answer = copy_text(&address);
                    let entry = Entry { address, kind, payload, live: true };
                    proof {
                        assert(views(self.entries@.update(i as int, entry)) =~= views(
                            self.entries@,
                        ).update(i as int, entry@));
                    }
                    self.entries.set(i, entry);
                    Event::Address(answer)
                } else {
                    Event::Unavailable
                }
            },
            None => {
                let answer = copy_text(&address);
                let entry = Entry { address, kind, payload, live: true };
                proof {
                    lemma_views_push(self.entries@, entry);
                }
                self.entries.push(entry);
                Event::Address(answer)
            },
        }
    }

    /// Writes an entry under the address of its content.
    fn commit(&mut self, kind: String, payload: Vec<Field>) -> (event: Event)
        ensures
            (final(self)@, event@) == commit(old(self)@, kind@, views(payload@)),
    {
        let address = address_content(&kind, &payload);
        self.write_at(address, kind, payload)
    }

    /// Reads the live entry at an address.
    fn fetch(&self, address: &String) -> (event: Event)
        ensures
            event@ == fetch(self@, address@),
    {
        match self.find_entry(address) {
            Some(i) => {
                if self.entries[i].live {
                    Event::Payload(copy_payload(&self.entries[i].payload))
                } else {
                    Event::Missing
                }
            },
            None => Event::Missing,
        }
    }

    /// Removes the live entry at an address.
    fn retire(&mut self, address: &String) -> (event: Event)
        ensures
            (final(self)@, event@) == retire(old(self)@, address@),
    {
        match self.find_entry(address) {
            Some(i) => {
                if self.entries[i].live {
                    let entry = Entry {
                        address: copy_text(&self.entries[i].address),
                        kind: copy_text(&self.entries[i].kind),
                        payload: copy_payload(&self.entries[i].payload),
                        live: false,
                    };
                    proof {
                        assert(views(self.entries@.update(i as int, entry)) =~= views(
                            self.entries@,
                        ).update(i as int, entry@));
                    }
                    self.entries.set(i, entry);
                    Event::Done
                } else {
                    Event::Missing
                }
            },
            None => Event::Missing,
        }
    }

    /// Makes an anchor with an address that the caller has computed. The
    /// ledger stays well formed where the address is that of the type and
    /// the tag.
    pub fn plant(&mut self, address: String, anchor_type: String, tag: String) -> (event: Event)
        ensures
            (final(self)@, event@) == plant(old(self)@, address@, anchor_type@, tag@),
            well_formed(old(self)@) && address@ == anchor_address(anchor_type@, tag@)
                ==> well_formed(final(self)@),
    {
        proof {
            if well_formed(self@) && address@ == anchor_address(anchor_type@, tag@) {
                lemma_plant_well_formed(self@, anchor_type@, tag@);
            }
        }
        if self.is_taken(&address) {
            Event::Unavailable
        } else {
            if !self.has_type(&anchor_type) {
                let name = copy_text(&anchor_type);
                proof {
                    lemma_views_push(self.types@, name);
                }
                self.types.push(name);
            }
            let answer = copy_text(&address);
            let anchor = Anchor { address, anchor_type, tag };
            proof {
                lemma_views_push(self.anchors@, anchor);
            }
            self.anchors.push(anchor);
            Event::Address(answer)
        }
    }

    /// Resolves the anchor of a type with a tag, making it if there is none.
    fn resolve(&mut self, anchor_type: String, tag: String) -> (event: Event)
        ensures
            (final(self)@, event@) == resolve(old(self)@, anchor_type@, tag@),
    {
        match self.find_anchor(&anchor_type, &tag) {
            Some(i) => Event::Address(copy_text(&self.anchors[i].address)),
            None => {
                let address = address_anchor(&anchor_type, &tag);
                self.plant(address, anchor_type, tag)
            },
        }
    }

    /// The addresses of the anchors of a type, in the order of their making.
    pub fn anchor_addresses(&self, anchor_type: &String) -> (addresses: Vec<String>)
        ensures
            views(addresses@) == addresses_of(self@.anchors, anchor_type@),
    {
        let ghost anchors = views(self.anchors@);
        let mut addresses: Vec<String> = Vec::new();
        let mut i: usize = 0;
        assert(anchors.take(0) =~= Seq::empty());
        assert(views(addresses@) =~= Seq::empty());
        while i < self.anchors.len()
            invariant
                i <= self.anchors.len(),
                anchors == views(self.anchors@),
                views(addresses@) == addresses_of(anchors.take(i as int), anchor_type@),
            decreases self.anchors.len() - i,
        {
            proof {
                lemma_select_step(anchors, of_type(anchor_type@), anchor_to_address(), i as int);
            }
            if self.anchors[i].anchor_type == *anchor_type {
                let address = copy_text(&self.anchors[i].address);
                proof {
                    lemma_views_push(addresses@, address);
                }
                addresses.push(address);
            }
            i = i + 1;
        }
        proof {
            assert(anchors.take(anchors.len() as int) =~= anchors);
        }
        addresses
    }

    /// The tags of the anchors of a type, in the order of their making.
    pub fn anchor_tags(&self, anchor_type: &String) -> (tags: Vec<String>)
        ensures
            views(tags@) == tags_of(self@.anchors, anchor_type@),
    {
        let ghost anchors = views(self.anchors@);
        let mut tags: Vec<String> = Vec::new();
        let mut i: usize = 0;
        assert(anchors.take(0) =~= Seq::empty());
        assert(views(tags@) =~= Seq::empty());
        while i < self.anchors.len()
            invariant
                i <= self.anchors.len(),
                anchors == views(self.anchors@),
                views(tags@) == tags_of(anchors.take(i as int), anchor_type@),
            decreases self.anchors.len() - i,
        {
            proof {
                lemma_select_step(anchors, of_type(anchor_type@), anchor_to_tag(), i as int);
            }
            if self.anchors[i].anchor_type == *anchor_type {
                let tag = copy_text(&self.anchors[i].tag);
                proof {
                    lemma_views_push(tags@, tag);
                }
                tags.push(tag);
            }
            i = i + 1;
        }
        proof {
            assert(anchors.take(anchors.len() as int) =~= anchors);
        }
        tags
    }

    /// The anchor types, in the order of their making.
    pub fn type_tags(&self) -> (tags: Vec<String>)
        ensures
            views(tags@) == self@.types,
    {
        copy_texts(&self.types)
    }

    /// The addresses of the nodes of the anchor types, in the order of their
    /// making.
    pub fn type_addresses(&self) -> (addresses: Vec<String>)
        ensures
            views(addresses@) == type_addresses(self@.types),
    {
        let mut addresses: Vec<String> = Vec::new();
        let mut i: usize = 0;
        while i < self.types.len()
            invariant
                i <= self.types.len(),
                views(addresses@) == type_addresses(views(self.types@)).take(i as int),
            decreases self.types.len() - i,
        {
            let address = address_type(&self.types[i]);
            proof {
                lemma_views_push(addresses@, address);
                assert(type_addresses(views(self.types@)).take(i as int + 1) =~= type_addresses(
                    views(self.types@),
                ).take(i as int).push(address@));
            }
            addresses.push(address);
            i = i + 1;
        }
        proof {
            assert(type_addresses(views(self.types@)).take(self.types.len() as int)
                =~= type_addresses(views(self.types@)));
        }
        addresses
    }

    /// Where the live links from a base lead, in the order of their adding.
    pub fn members(&self, base: &String) -> (targets: Vec<String>)
        ensures
            views(targets@) == members_of(self@.links, base@),
    {
        let ghost links = views(self.links@);
        let mut targets: Vec<String> = Vec::new();
        let mut i: usize = 0;
        assert(links.take(0) =~= Seq::empty());
        assert(views(targets@) =~= Seq::empty());
        while i < self.links.len()
            invariant
                i <= self.links.len(),
                links == views(self.links@),
                views(targets@) == members_of(links.take(i as int), base@),
            decreases self.links.len() - i,
        {
            proof {
                lemma_select_step(links, leaving(base@), link_to_target(), i as int);
            }
            if self.links[i].base == *base {
                let target = copy_text(&self.links[i].target);
                proof {
                    lemma_views_push(targets@, target);
                }
                targets.push(target);
            }
            i = i + 1;
        }
        proof {
            assert(links.take(links.len() as int) =~= links);
        }
        targets
    }

    /// The edges of the live links of a type from a base.
    fn list_links(&self, base: &String, link_type: &String) -> (edges: Vec<Edge>)
        ensures
            views(edges@) == edges_of(self@.links, base@, link_type@),
    {
        let ghost links = views(self.links@);
        let mut edges: Vec<Edge> = Vec::new();
        let mut i: usize = 0;
        assert(links.take(0) =~= Seq::empty());
        assert(views(edges@) =~= Seq::empty());
        while i < self.links.len()
            invariant
                i <= self.links.len(),
                links == views(self.links@),
                views(edges@) == edges_of(links.take(i as int), base@, link_type@),
            decreases self.links.len() - i,
        {
            proof {
                lemma_select_step(links, from_base(base@, link_type@), link_to_edge(), i as int);
            }
            if self.links[i].base == *base && self.links[i].link_type == *link_type {
                let edge = Edge {
                    target: copy_text(&self.links[i].target),
                    tag: copy_text(&self.links[i].tag),
                };
                proof {
                    lemma_views_push(edges@, edge);
                }
                edges.push(edge);
            }
            i = i + 1;
        }
        proof {
            assert(links.take(links.len() as int) =~= links);
        }
        edges
    }

    /// Adds a link unless it is live.
    fn add_link(&mut self, added: Link)
        ensures
            final(self)@ == link(old(self)@, added@),
    {
        if !self.has_link(&added) {
            proof {
                lemma_views_push(self.links@, added);
            }
            self.links.push(added);
        }
    }

    /// Removes a link.
    fn remove_link(&mut self, removed: &Link)
        ensures
            final(self)@ == unlink(old(self)@, removed@),
    {
        let ghost links = views(self.links@);
        let mut kept: Vec<Link> = Vec::new();
        let mut i: usize = 0;
        assert(links.take(0) =~= Seq::empty());
        assert(views(kept@) =~= Seq::empty());
        while i < self.links.len()
            invariant
                i <= self.links.len(),
                links == views(self.links@),
                views(kept@) == without(links.take(i as int), removed@),
            decreases self.links.len() - i,
        {
            proof {
                lemma_select_step(links, other_than(removed@), link_itself(), i as int);
            }
            if !same_link(&self.links[i], removed) {
                let link = Link {
                    base: copy_text(&self.links[i].base),
                    target: copy_text(&self.links[i].target),
                    link_type: copy_text(&self.links[i].link_type),
                    tag: copy_text(&self.links[i].tag),
                };
                proof {
                    lemma_views_push(kept@, link);
                }
                kept.push(link);
            }
            i = i + 1;
        }
        proof {
            assert(links.take(links.len() as int) =~= links);
        }
        self.links = kept;
    }

    /// Reads the clock.
    fn tick(&mut self) -> (event: Event)
        ensures
            (final(self)@, event@) == tick(old(self)@),
    {
        if self.clock == i64::MAX {
            Event::Unavailable
        } else {
            self.clock = self.clock + 1;
            Event::Time(self.clock)
        }
    }

    /// Does what is asked and says what came of it.
    pub fn perform(&mut self, action: Action) -> (event: Event)
        ensures
            (final(self)@, event@) == respond(old(self)@, action@),
            well_formed(old(self)@) ==> well_formed(final(self)@),
    {
        proof {
            if well_formed(self@) {
                lemma_respond_well_formed(self@, action@);
            }
        }
        if !self.online {
            return Event::Unavailable;
        }
        match action {
            Action::Commit { kind, payload } => self.commit(kind, payload),
            Action::Fetch { address } => self.fetch(&address),
            Action::Retire { address } => self.retire(&address),
            Action::Anchor { anchor_type, tag } => self.resolve(anchor_type, tag),
            Action::Anchors { anchor_type } => Event::Addresses(self.anchor_addresses(&anchor_type)),
            Action::Link { base, target, link_type, tag } => {
                self.add_link(Link { base, target, link_type, tag });
                Event::Done
            },
            Action::Unlink { base, target, link_type, tag } => {
                let removed = Link { base, target, link_type, tag };
                self.remove_link(&removed);
                Event::Done
            },
            Action::Links { base, link_type } => Event::Edges(self.list_links(&base, &link_type)),
            Action::Now => self.tick(),
        }
    }
}

} // verus!
