//! The exchanges that make up each operation on the records of a kind.
//!
//! The store, its link index and its anchors are not in this crate's hands. An
//! operation is therefore a conversation: it asks for one thing at a time and
//! decides, from what comes back, what to ask next or how to end. `begin_*`
//! gives the opening request of an operation and `advance` every later one.
//! Whoever holds the store performs the requests and hands back the events.
//! No step undoes an earlier one: an operation that ends with a failure leaves
//! behind what its earlier requests did.

use vstd::prelude::*;
use crate::record::{
    check_payload, conforms, copy_payload, Failure, Field, FieldView, Kind, KindView, Record,
    RecordView,
};
use crate::text::{copy_text, lemma_views_push, views, Text};
use crate::timestamp::{confirms, created_at_of, tag_of, text_timestamp, timestamp_text};

verus! {

/// A link as seen from its base: where it leads, and its tag.
#[derive(Debug, Clone, PartialEq, Eq)]
pub struct Edge {
    pub target: String,
    pub tag: String,
}

/// An edge as it stands in contracts.
pub struct EdgeView {
    pub target: Text,
    pub tag: Text,
}

impl View for Edge {
    type V = EdgeView;

    open spec fn view(&self) -> EdgeView {
        EdgeView { target: self.target@, tag: self.tag@ }
    }
}

/// One request to the store, its link index, its anchors or its clock.
#[derive(Debug, Clone, PartialEq, Eq)]
pub enum Action {
    /// Write an entry; answered by its address.
    Commit { kind: String, payload: Vec<Field> },
    /// Read the entry at an address; answered by its payload, or by `Missing`.
    Fetch { address: String },
    /// Ask for the removal of the entry at an address; answered by `Done`, or
    /// by `Missing`.
    Retire { address: String },
    /// Resolve the anchor of a type and a tag, making it if there is none;
    /// answered by its address.
    Anchor { anchor_type: String, tag: String },
    /// List the anchors of a type; answered by their addresses.
    Anchors { anchor_type: String },
    /// Add a link; answered by `Done`.
    Link { base: String, target: String, link_type: String, tag: String },
    /// Remove a link; answered by `Done`.
    Unlink { base: String, target: String, link_type: String, tag: String },
    /// List the live links of a type from a base; answered by their edges.
    Links { base: String, link_type: String },
    /// Read the clock; answered by the time.
    Now,
}

/// A request as it stands in contracts.
pub enum ActionView {
    Commit { kind: Text, payload: Seq<FieldView> },
    Fetch { address: Text },
    Retire { address: Text },
    Anchor { anchor_type: Text, tag: Text },
    Anchors { anchor_type: Text },
    Link { base: Text, target: Text, link_type: Text, tag: Text },
    Unlink { base: Text, target: Text, link_type: Text, tag: Text },
    Links { base: Text, link_type: Text },
    Now,
}

impl View for Action {
    type V = ActionView;

    open spec fn view(&self) -> ActionView {
        match self {
            Action::Commit { kind, payload } => ActionView::Commit {
                kind: kind@,
                payload: views(payload@),
            },
            Action::Fetch { address } => ActionView::Fetch { address: address@ },
            Action::Retire { address } => ActionView::Retire { address: address@ },
            Action::Anchor { anchor_type, tag } => ActionView::Anchor {
                anchor_type: anchor_type@,
                tag: tag@,
            },
            Action::Anchors { anchor_type } => ActionView::Anchors { anchor_type: anchor_type@ },
            Action::Link { base, target, link_type, tag } => ActionView::Link {
                base: base@,
                target: target@,
                link_type: link_type@,
                tag: tag@,
            },
            Action::Unlink { base, target, link_type, tag } => ActionView::Unlink {
                base: base@,
                target: target@,
                link_type: link_type@,
                tag: tag@,
            },
            Action::Links { base, link_type } => ActionView::Links {
                base: base@,
                link_type: link_type@,
            },
            Action::Now => ActionView::Now,
        }
    }
}

/// What came back for a request.
#[derive(Debug, Clone, PartialEq, Eq)]
pub enum Event {
    Address(String),
    Addresses(Vec<String>),
    Payload(Vec<Field>),
    Missing,
    Edges(Vec<Edge>),
    Time(i64),
    Done,
    /// The request could not be carried out.
    Unavailable,
}

/// An event as it stands in contracts.
pub enum EventView {
    Address(Text),
    Addresses(Seq<Text>),
    Payload(Seq<FieldView>),
    Missing,
    Edges(Seq<EdgeView>),
    Time(i64),
    Done,
    Unavailable,
}

impl View for Event {
    type V = EventView;

    open spec fn view(&self) -> EventView {
        match self {
            Event::Address(address) => EventView::Address(address@),
            Event::Addresses(addresses) => EventView::Addresses(views(addresses@)),
            Event::Payload(payload) => EventView::Payload(views(payload@)),
            Event::Missing => EventView::Missing,
            Event::Edges(edges) => EventView::Edges(views(edges@)),
            Event::Time(micros) => EventView::Time(*micros),
            Event::Done => EventView::Done,
            Event::Unavailable => EventView::Unavailable,
        }
    }
}

/// How an operation ended.
#[derive(Debug, Clone, PartialEq, Eq)]
pub enum Outcome {
    Record(Record),
    Records(Vec<Record>),
    Address(String),
    Failed(Failure),
}

/// An outcome as it stands in contracts.
pub enum OutcomeView {
    Record(RecordView),
    Records(Seq<RecordView>),
    Address(Text),
    Failed(Failure),
}

impl View for Outcome {
    type V = OutcomeView;

    open spec fn view(&self) -> OutcomeView {
        match self {
            Outcome::Record(record) => OutcomeView::Record(record@),
            Outcome::Records(records) => OutcomeView::Records(views(records@)),
            Outcome::Address(address) => OutcomeView::Address(address@),
            Outcome::Failed(failure) => OutcomeView::Failed(*failure),
        }
    }
}

/// Where an operation stands while a request is out: what it has gathered and
/// still needs.
#[derive(Debug, Clone, PartialEq, Eq)]
pub enum Phase {
    /// Create: the payload is being written.
    Committing { base: String, payload: Vec<Field> },
    /// Create: the base's anchor is being resolved.
    Anchoring { address: String, payload: Vec<Field> },
    /// Create and update: the clock is being read for the new index link.
    /// `origin` is the record whose version chain the new entry joins.
    Stamping { anchor: String, origin: Option<String>, address: String, payload: Vec<Field> },
    /// Create and update: the index link is being added.
    Indexing { origin: Option<String>, tag: String, record: Record },
    /// Update: the version link is being added.
    Revising { record: Record },
    /// Read: the entry is being fetched.
    Reading { id: String, created_at: i64 },
    /// Delete: the base's anchor is being resolved.
    DeleteAnchoring { id: String, tag: String, address: String },
    /// Delete: the anchor's links are being listed.
    DeleteLooking { anchor: String, id: String, tag: String, address: String },
    /// Delete: the index link is being removed.
    DeleteUnlinking { address: String },
    /// Delete: the entry's removal is being asked for.
    DeleteRetiring { address: String },
    /// List: the base's anchor is being resolved.
    ListAnchoring,
    /// List: the anchor's links are being listed.
    ListLooking,
    /// List: the entry of edge number `next` is being fetched.
    ListReading { edges: Vec<Edge>, next: usize, created_at: i64, records: Vec<Record> },
    /// Rebase: the anchor of the base that holds the link is being resolved.
    RebaseFrom { base_to: String, id: String, tag: String },
    /// Rebase: the anchor of the base that gets the link is being resolved.
    RebaseTo { from: String, id: String, tag: String },
    /// Rebase: the links of the first anchor are being listed.
    RebaseLooking { from: String, to: String, id: String, tag: String },
    /// Rebase: the link is being removed from the first anchor.
    RebaseUnlinking { to: String, id: String, tag: String },
    /// Rebase: the link is being added to the second anchor.
    RebaseLinking { id: String },
    /// Update: the new payload is being written.
    UpdateCommitting { id: String, tag: String, address: String, payload: Vec<Field> },
    /// Update: the anchors of the kind are being listed.
    UpdateListing { id: String, tag: String, address: String, fresh: String, payload: Vec<Field> },
    /// Update: the links of anchor number `next` are being listed.
    UpdateSearching {
        anchors: Vec<String>,
        next: usize,
        id: String,
        tag: String,
        address: String,
        fresh: String,
        payload: Vec<Field>,
    },
    /// Update: the old index link is being removed.
    UpdateUnlinking { anchor: String, id: String, fresh: String, payload: Vec<Field> },
}

/// A phase as it stands in contracts.
pub enum PhaseView {
    Committing { base: Text, payload: Seq<FieldView> },
    Anchoring { address: Text, payload: Seq<FieldView> },
    Stamping { anchor: Text, origin: Option<Text>, address: Text, payload: Seq<FieldView> },
    Indexing { origin: Option<Text>, tag: Text, record: RecordView },
    Revising { record: RecordView },
    Reading { id: Text, created_at: i64 },
    DeleteAnchoring { id: Text, tag: Text, address: Text },
    DeleteLooking { anchor: Text, id: Text, tag: Text, address: Text },
    DeleteUnlinking { address: Text },
    DeleteRetiring { address: Text },
    ListAnchoring,
    ListLooking,
    ListReading { edges: Seq<EdgeView>, next: nat, created_at: i64, records: Seq<RecordView> },
    RebaseFrom { base_to: Text, id: Text, tag: Text },
    RebaseTo { from: Text, id: Text, tag: Text },
    RebaseLooking { from: Text, to: Text, id: Text, tag: Text },
    RebaseUnlinking { to: Text, id: Text, tag: Text },
    RebaseLinking { id: Text },
    UpdateCommitting { id: Text, tag: Text, address: Text, payload: Seq<FieldView> },
    UpdateListing { id: Text, tag: Text, address: Text, fresh: Text, payload: Seq<FieldView> },
    UpdateSearching {
        anchors: Seq<Text>,
        next: nat,
        id: Text,
        tag: Text,
        address: Text,
        fresh: Text,
        payload: Seq<FieldView>,
    },
    UpdateUnlinking { anchor: Text, id: Text, fresh: Text, payload: Seq<FieldView> },
}

/// The view of a text that may be absent.
pub open spec fn view_of(text: Option<String>) -> Option<Text> {
    match text {
        Some(text) => Some(text@),
        None => None,
    }
}

impl View for Phase {
    type V = PhaseView;

    open spec fn view(&self) -> PhaseView {
        match self {
            Phase::Committing { base, payload } => PhaseView::Committing {
                base: base@,
                payload: views(payload@),
            },
            Phase::Anchoring { address, payload } => PhaseView::Anchoring {
                address: address@,
                payload: views(payload@),
            },
            Phase::Stamping { anchor, origin, address, payload } => PhaseView::Stamping {
                anchor: anchor@,
                origin: view_of(*origin),
                address: address@,
                payload: views(payload@),
            },
            Phase::Indexing { origin, tag, record } => PhaseView::Indexing {
                origin: view_of(*origin),
                tag: tag@,
                record: record@,
            },
            Phase::Revising { record } => PhaseView::Revising { record: record@ },
            Phase::Reading { id, created_at } => PhaseView::Reading {
                id: id@,
                created_at: *created_at,
            },
            Phase::DeleteAnchoring { id, tag, address } => PhaseView::DeleteAnchoring {
                id: id@,
                tag: tag@,
                address: address@,
            },
            Phase::DeleteLooking { anchor, id, tag, address } => PhaseView::DeleteLooking {
                anchor: anchor@,
                id: id@,
                tag: tag@,
                address: address@,
            },
            Phase::DeleteUnlinking { address } => PhaseView::DeleteUnlinking { address: address@ },
            Phase::DeleteRetiring { address } => PhaseView::DeleteRetiring { address: address@ },
            Phase::ListAnchoring => PhaseView::ListAnchoring,
            Phase::ListLooking => PhaseView::ListLooking,
            Phase::ListReading { edges, next, created_at, records } => PhaseView::ListReading {
                edges: views(edges@),
                next: *next as nat,
                created_at: *created_at,
                records: views(records@),
            },
            Phase::RebaseFrom { base_to, id, tag } => PhaseView::RebaseFrom {
                base_to: base_to@,
                id: id@,
                tag: tag@,
            },
            Phase::RebaseTo { from, id, tag } => PhaseView::RebaseTo {
                from: from@,
                id: id@,
                tag: tag@,
            },
            Phase::RebaseLooking { from, to, id, tag } => PhaseView::RebaseLooking {
                from: from@,
                to: to@,
                id: id@,
                tag: tag@,
            },
            Phase::RebaseUnlinking { to, id, tag } => PhaseView::RebaseUnlinking {
                to: to@,
                id: id@,
                tag: tag@,
            },
            Phase::RebaseLinking { id } => PhaseView::RebaseLinking { id: id@ },
            Phase::UpdateCommitting { id, tag, address, payload } => PhaseView::UpdateCommitting {
                id: id@,
                tag: tag@,
                address: address@,
                payload: views(payload@),
            },
            Phase::UpdateListing { id, tag, address, fresh, payload } => PhaseView::UpdateListing {
                id: id@,
                tag: tag@,
                address: address@,
                fresh: fresh@,
                payload: views(payload@),
            },
            Phase::UpdateSearching {
                anchors,
                next,
                id,
                tag,
                address,
                fresh,
                payload,
            } => PhaseView::UpdateSearching {
                anchors: views(anchors@),
                next: *next as nat,
                id: id@,
                tag: tag@,
                address: address@,
                fresh: fresh@,
                payload: views(payload@),
            },
            Phase::UpdateUnlinking { anchor, id, fresh, payload } => PhaseView::UpdateUnlinking {
                anchor: anchor@,
                id: id@,
                fresh: fresh@,
                payload: views(payload@),
            },
        }
    }
}

/// What an operation does next: ask for something and wait in a phase, or end.
#[derive(Debug, Clone, PartialEq, Eq)]
pub enum Step {
    Ask(Phase, Action),
    Finished(Outcome),
}

/// A step as it stands in contracts.
pub enum StepView {
    Ask(PhaseView, ActionView),
    Finished(OutcomeView),
}

impl View for Step {
    type V = StepView;

    open spec fn view(&self) -> StepView {
        match self {
            Step::Ask(phase, action) => StepView::Ask(phase@, action@),
            Step::Finished(outcome) => StepView::Finished(outcome@),
        }
    }
}

/// The step that ends an operation with a failure.
pub open spec fn failed(failure: Failure) -> StepView {
    StepView::Finished(OutcomeView::Failed(failure))
}

/// Whether a list of edges holds one to a target with a tag.
pub open spec fn has_edge(edges: Seq<EdgeView>, target: Text, tag: Text) -> bool {
    edges.contains(EdgeView { target, tag })
}

/// Whether a handle is live among the edges of an anchor: both the record that
/// the handle names and the version that it points at are linked under the tag
/// of the creation time.
pub open spec fn has_handle(edges: Seq<EdgeView>, id: Text, tag: Text, address: Text) -> bool {
    has_edge(edges, id, tag) && has_edge(edges, address, tag)
}

/// The record that an edge stands for, once its payload is known.
pub open spec fn record_of(edge: EdgeView, created_at: i64, payload: Seq<FieldView>) -> RecordView {
    RecordView { id: edge.target, created_at, address: edge.target, payload }
}

/// The opening of `create`: a payload of the wrong shape ends it at once,
/// any other is written.
pub open spec fn begin_create_spec(kind: KindView, base: Text, payload: Seq<FieldView>) -> StepView {
    if conforms(kind.schema, payload) {
        StepView::Ask(
            PhaseView::Committing { base, payload },
            ActionView::Commit { kind: kind.name, payload },
        )
    } else {
        failed(Failure::ValidationFailure)
    }
}

/// The opening of `read`: the entry at `id` is fetched.
pub open spec fn begin_read_spec(id: Text, created_at: i64) -> StepView {
    StepView::Ask(PhaseView::Reading { id, created_at }, ActionView::Fetch { address: id })
}

/// The opening of `update`: a payload of the wrong shape ends it at once, any
/// other is written.
pub open spec fn begin_update_spec(
    kind: KindView,
    id: Text,
    created_at: i64,
    address: Text,
    payload: Seq<FieldView>,
) -> StepView {
    if conforms(kind.schema, payload) {
        StepView::Ask(
            PhaseView::UpdateCommitting { id, tag: timestamp_text(created_at), address, payload },
            ActionView::Commit { kind: kind.name, payload },
        )
    } else {
        failed(Failure::ValidationFailure)
    }
}

/// The opening of `delete`: the base's anchor is resolved.
pub open spec fn begin_delete_spec(
    kind: KindView,
    base: Text,
    id: Text,
    created_at: i64,
    address: Text,
) -> StepView {
    StepView::Ask(
        PhaseView::DeleteAnchoring { id, tag: timestamp_text(created_at), address },
        ActionView::Anchor { anchor_type: kind.anchor_type, tag: base },
    )
}

/// The opening of `list`: the base's anchor is resolved.
pub open spec fn begin_list_spec(kind: KindView, base: Text) -> StepView {
    StepView::Ask(
        PhaseView::ListAnchoring,
        ActionView::Anchor { anchor_type: kind.anchor_type, tag: base },
    )
}

/// The opening of `rebase`: the anchor of the base that holds the link is
/// resolved.
pub open spec fn begin_rebase_spec(
    kind: KindView,
    base_from: Text,
    base_to: Text,
    id: Text,
    created_at: i64,
) -> StepView {
    StepView::Ask(
        PhaseView::RebaseFrom { base_to, id, tag: timestamp_text(created_at) },
        ActionView::Anchor { anchor_type: kind.anchor_type, tag: base_from },
    )
}

/// `list` at edge number `next`, given what the parser made of the edge's
/// tag: it ends with the records when no edge is left, fails where the tag
/// holds no creation time, and else fetches the edge's entry.
pub open spec fn list_given(
    edges: Seq<EdgeView>,
    next: nat,
    parsed: Option<i64>,
    records: Seq<RecordView>,
) -> StepView {
    if next >= edges.len() {
        StepView::Finished(OutcomeView::Records(records))
    } else {
        match parsed {
            Some(created_at) => StepView::Ask(
                PhaseView::ListReading { edges, next, created_at, records },
                ActionView::Fetch { address: edges[next as int].target },
            ),
            None => failed(Failure::NotFound),
        }
    }
}

/// `list` from edge number `next` on.
pub open spec fn list_from(edges: Seq<EdgeView>, next: nat, records: Seq<RecordView>) -> StepView {
    list_given(
        edges,
        next,
        if next < edges.len() {
            text_timestamp(edges[next as int].tag)
        } else {
            None
        },
        records,
    )
}

/// `update`'s search from anchor number `next` on: it fails when no anchor is
/// left, and else lists the anchor's links.
pub open spec fn search_from(
    kind: KindView,
    anchors: Seq<Text>,
    next: nat,
    id: Text,
    tag: Text,
    address: Text,
    fresh: Text,
    payload: Seq<FieldView>,
) -> StepView {
    if next >= anchors.len() {
        failed(Failure::NotFound)
    } else {
        StepView::Ask(
            PhaseView::UpdateSearching { anchors, next, id, tag, address, fresh, payload },
            ActionView::Links { base: anchors[next as int], link_type: kind.link_type },
        )
    }
}

/// Create, after the payload was written: the base's anchor is resolved.
pub open spec fn after_committing(
    kind: KindView,
    base: Text,
    payload: Seq<FieldView>,
    event: EventView,
) -> StepView {
    match event {
        EventView::Address(address) => StepView::Ask(
            PhaseView::Anchoring { address, payload },
            ActionView::Anchor { anchor_type: kind.anchor_type, tag: base },
        ),
        _ => failed(Failure::StoreUnavailable),
    }
}

/// Create, after the anchor was resolved: the clock is read.
pub open spec fn after_anchoring(address: Text, payload: Seq<FieldView>, event: EventView) -> StepView {
    match event {
        EventView::Address(anchor) => StepView::Ask(
            PhaseView::Stamping { anchor, origin: None, address, payload },
            ActionView::Now,
        ),
        _ => failed(Failure::StoreUnavailable),
    }
}

/// Indexing an entry created at a time, given the text of the time and what
/// the parser made of that text: the entry is linked from the anchor under
/// the text where the text reads back as the time, and the store counts as
/// unavailable where it does not.
pub open spec fn stamp_given(
    kind: KindView,
    anchor: Text,
    origin: Option<Text>,
    address: Text,
    payload: Seq<FieldView>,
    created_at: i64,
    tag: Text,
    parsed: Option<i64>,
) -> StepView {
    if parsed == Some(created_at) {
        StepView::Ask(
            PhaseView::Indexing {
                origin,
                tag,
                record: RecordView { id: address, created_at, address, payload },
            },
            ActionView::Link { base: anchor, target: address, link_type: kind.link_type, tag },
        )
    } else {
        failed(Failure::StoreUnavailable)
    }
}

/// Create and update, after the clock was read: the entry is linked from the
/// anchor under the tag of the time, unless the time cannot stand in a tag.
pub open spec fn after_stamping(
    kind: KindView,
    anchor: Text,
    origin: Option<Text>,
    address: Text,
    payload: Seq<FieldView>,
    event: EventView,
) -> StepView {
    match event {
        EventView::Time(created_at) => stamp_given(
            kind,
            anchor,
            origin,
            address,
            payload,
            created_at,
            timestamp_text(created_at),
            text_timestamp(timestamp_text(created_at)),
        ),
        _ => failed(Failure::StoreUnavailable),
    }
}

/// Create and update, after the index link was added: create ends with the
/// record; update links the new version from the record it came from.
pub open spec fn after_indexing(
    kind: KindView,
    origin: Option<Text>,
    tag: Text,
    record: RecordView,
    event: EventView,
) -> StepView {
    match event {
        EventView::Done => match origin {
            Some(from) => StepView::Ask(
                PhaseView::Revising { record },
                ActionView::Link {
                    base: from,
                    target: record.address,
                    link_type: kind.revision_type,
                    tag,
                },
            ),
            None => StepView::Finished(OutcomeView::Record(record)),
        },
        _ => failed(Failure::StoreUnavailable),
    }
}

/// Update, after the version link was added: it ends with the record.
pub open spec fn after_revising(record: RecordView, event: EventView) -> StepView {
    match event {
        EventView::Done => StepView::Finished(OutcomeView::Record(record)),
        _ => failed(Failure::StoreUnavailable),
    }
}

/// Read, after the fetch: it ends with the record, or with `NotFound` where
/// the address holds no entry.
pub open spec fn after_reading(id: Text, created_at: i64, event: EventView) -> StepView {
    match event {
        EventView::Payload(payload) => StepView::Finished(
            OutcomeView::Record(RecordView { id, created_at, address: id, payload }),
        ),
        EventView::Missing => failed(Failure::NotFound),
        _ => failed(Failure::StoreUnavailable),
    }
}

/// Delete, after the anchor was resolved: its links are listed.
pub open spec fn after_delete_anchoring(
    kind: KindView,
    id: Text,
    tag: Text,
    address: Text,
    event: EventView,
) -> StepView {
    match event {
        EventView::Address(anchor) => StepView::Ask(
            PhaseView::DeleteLooking { anchor, id, tag, address },
            ActionView::Links { base: anchor, link_type: kind.link_type },
        ),
        _ => failed(Failure::StoreUnavailable),
    }
}

/// Delete, after the links were listed: the link to the version is removed
/// where the handle is live, and the operation ends with `NotFound` where it
/// is not.
pub open spec fn after_delete_looking(
    kind: KindView,
    anchor: Text,
    id: Text,
    tag: Text,
    address: Text,
    event: EventView,
) -> StepView {
    match event {
        EventView::Edges(edges) => if has_handle(edges, id, tag, address) {
            StepView::Ask(
                PhaseView::DeleteUnlinking { address },
                ActionView::Unlink { base: anchor, target: address, link_type: kind.link_type, tag },
            )
        } else {
            failed(Failure::NotFound)
        },
        _ => failed(Failure::StoreUnavailable),
    }
}

/// Delete, after the link was removed: the entry's removal is asked for.
pub open spec fn after_delete_unlinking(address: Text, event: EventView) -> StepView {
    match event {
        EventView::Done => StepView::Ask(
            PhaseView::DeleteRetiring { address },
            ActionView::Retire { address },
        ),
        _ => failed(Failure::StoreUnavailable),
    }
}

/// Delete, after the removal was asked for: it ends with the address, or with
/// `NotFound` where the address held no entry.
pub open spec fn after_delete_retiring(address: Text, event: EventView) -> StepView {
    match event {
        EventView::Done => StepView::Finished(OutcomeView::Address(address)),
        EventView::Missing => failed(Failure::NotFound),
        _ => failed(Failure::StoreUnavailable),
    }
}

/// List, after the anchor was resolved: its links are listed.
pub open spec fn after_list_anchoring(kind: KindView, event: EventView) -> StepView {
    match event {
        EventView::Address(anchor) => StepView::Ask(
            PhaseView::ListLooking,
            ActionView::Links { base: anchor, link_type: kind.link_type },
        ),
        _ => failed(Failure::StoreUnavailable),
    }
}

/// List, after the links were listed: the entries are fetched one by one.
pub open spec fn after_list_looking(event: EventView) -> StepView {
    match event {
        EventView::Edges(edges) => list_from(edges, 0, Seq::empty()),
        _ => failed(Failure::StoreUnavailable),
    }
}

/// List, after the entry of edge number `next` was fetched: its record joins
/// the list, or the operation ends with `NotFound` where the target holds no
/// entry.
pub open spec fn after_list_reading(
    edges: Seq<EdgeView>,
    next: nat,
    created_at: i64,
    records: Seq<RecordView>,
    event: EventView,
) -> StepView {
    if next >= edges.len() {
        failed(Failure::StoreUnavailable)
    } else {
        match event {
            EventView::Payload(payload) => list_from(
                edges,
                next + 1,
                records.push(record_of(edges[next as int], created_at, payload)),
            ),
            EventView::Missing => failed(Failure::NotFound),
            _ => failed(Failure::StoreUnavailable),
        }
    }
}

/// Rebase, after the first anchor was resolved: the second is resolved.
pub open spec fn after_rebase_from(
    kind: KindView,
    base_to: Text,
    id: Text,
    tag: Text,
    event: EventView,
) -> StepView {
    match event {
        EventView::Address(from) => StepView::Ask(
            PhaseView::RebaseTo { from, id, tag },
            ActionView::Anchor { anchor_type: kind.anchor_type, tag: base_to },
        ),
        _ => failed(Failure::StoreUnavailable),
    }
}

/// Rebase, after the second anchor was resolved: the links of the first are
/// listed.
pub open spec fn after_rebase_to(
    kind: KindView,
    from: Text,
    id: Text,
    tag: Text,
    event: EventView,
) -> StepView {
    match event {
        EventView::Address(to) => StepView::Ask(
            PhaseView::RebaseLooking { from, to, id, tag },
            ActionView::Links { base: from, link_type: kind.link_type },
        ),
        _ => failed(Failure::StoreUnavailable),
    }
}

/// Rebase, after the links were listed: the link is removed from the first
/// anchor where it is live, and the operation ends with `NotFound` where it
/// is not.
pub open spec fn after_rebase_looking(
    kind: KindView,
    from: Text,
    to: Text,
    id: Text,
    tag: Text,
    event: EventView,
) -> StepView {
    match event {
        EventView::Edges(edges) => if has_edge(edges, id, tag) {
            StepView::Ask(
                PhaseView::RebaseUnlinking { to, id, tag },
                ActionView::Unlink { base: from, target: id, link_type: kind.link_type, tag },
            )
        } else {
            failed(Failure::NotFound)
        },
        _ => failed(Failure::StoreUnavailable),
    }
}

/// Rebase, after the link was removed: the same link is added to the second
/// anchor.
pub open spec fn after_rebase_unlinking(
    kind: KindView,
    to: Text,
    id: Text,
    tag: Text,
    event: EventView,
) -> StepView {
    match event {
        EventView::Done => StepView::Ask(
            PhaseView::RebaseLinking { id },
            ActionView::Link { base: to, target: id, link_type: kind.link_type, tag },
        ),
        _ => failed(Failure::StoreUnavailable),
    }
}

/// Rebase, after the link was added: it ends with the record's address.
pub open spec fn after_rebase_linking(id: Text, event: EventView) -> StepView {
    match event {
        EventView::Done => StepView::Finished(OutcomeView::Address(id)),
        _ => failed(Failure::StoreUnavailable),
    }
}

/// Update, after the new payload was written: the anchors of the kind are
/// listed.
pub open spec fn after_update_committing(
    kind: KindView,
    id: Text,
    tag: Text,
    address: Text,
    payload: Seq<FieldView>,
    event: EventView,
) -> StepView {
    match event {
        EventView::Address(fresh) => StepView::Ask(
            PhaseView::UpdateListing { id, tag, address, fresh, payload },
            ActionView::Anchors { anchor_type: kind.anchor_type },
        ),
        _ => failed(Failure::StoreUnavailable),
    }
}

/// Update, after the anchors were listed: they are searched in order.
pub open spec fn after_update_listing(
    kind: KindView,
    id: Text,
    tag: Text,
    address: Text,
    fresh: Text,
    payload: Seq<FieldView>,
    event: EventView,
) -> StepView {
    match event {
        EventView::Addresses(anchors) => search_from(
            kind,
            anchors,
            0,
            id,
            tag,
            address,
            fresh,
            payload,
        ),
        _ => failed(Failure::StoreUnavailable),
    }
}

/// Update, after the links of anchor number `next` were listed: the link to
/// the old version is removed from it where the handle is live there, and the
/// search goes on where it is not.
pub open spec fn after_update_searching(
    kind: KindView,
    anchors: Seq<Text>,
    next: nat,
    id: Text,
    tag: Text,
    address: Text,
    fresh: Text,
    payload: Seq<FieldView>,
    event: EventView,
) -> StepView {
    if next >= anchors.len() {
        failed(Failure::StoreUnavailable)
    } else {
        match event {
            EventView::Edges(edges) => if has_handle(edges, id, tag, address) {
                StepView::Ask(
                    PhaseView::UpdateUnlinking { anchor: anchors[next as int], id, fresh, payload },
                    ActionView::Unlink {
                        base: anchors[next as int],
                        target: address,
                        link_type: kind.link_type,
                        tag,
                    },
                )
            } else {
                search_from(kind, anchors, next + 1, id, tag, address, fresh, payload)
            },
            _ => failed(Failure::StoreUnavailable),
        }
    }
}

/// Update, after the old link was removed: the clock is read for the new one.
pub open spec fn after_update_unlinking(
    anchor: Text,
    id: Text,
    fresh: Text,
    payload: Seq<FieldView>,
    event: EventView,
) -> StepView {
    match event {
        EventView::Done => StepView::Ask(
            PhaseView::Stamping { anchor, origin: Some(id), address: fresh, payload },
            ActionView::Now,
        ),
        _ => failed(Failure::StoreUnavailable),
    }
}

/// What an operation does when `event` answers the request it made in `phase`.
/// An event that is no answer to that request ends the operation as if the
/// store had been unavailable.
pub open spec fn advance_spec(kind: KindView, phase: PhaseView, event: EventView) -> StepView {
    match phase {
        PhaseView::Committing { base, payload } => after_committing(kind, base, payload, event),
        PhaseView::Anchoring { address, payload } => after_anchoring(address, payload, event),
        PhaseView::Stamping { anchor, origin, address, payload } => after_stamping(
            kind,
            anchor,
            origin,
            address,
            payload,
            event,
        ),
        PhaseView::Indexing { origin, tag, record } => after_indexing(
            kind,
            origin,
            tag,
            record,
            event,
        ),
        PhaseView::Revising { record } => after_revising(record, event),
        PhaseView::Reading { id, created_at } => after_reading(id, created_at, event),
        PhaseView::DeleteAnchoring { id, tag, address } => after_delete_anchoring(
            kind,
            id,
            tag,
            address,
            event,
        ),
        PhaseView::DeleteLooking { anchor, id, tag, address } => after_delete_looking(
            kind,
            anchor,
            id,
            tag,
            address,
            event,
        ),
        PhaseView::DeleteUnlinking { address } => after_delete_unlinking(address, event),
        PhaseView::DeleteRetiring { address } => after_delete_retiring(address, event),
        PhaseView::ListAnchoring => after_list_anchoring(kind, event),
        PhaseView::ListLooking => after_list_looking(event),
        PhaseView::ListReading { edges, next, created_at, records } => after_list_reading(
            edges,
            next,
            created_at,
            records,
            event,
        ),
        PhaseView::RebaseFrom { base_to, id, tag } => after_rebase_from(
            kind,
            base_to,
            id,
            tag,
            event,
        ),
        PhaseView::RebaseTo { from, id, tag } => after_rebase_to(kind, from, id, tag, event),
        PhaseView::RebaseLooking { from, to, id, tag } => after_rebase_looking(
            kind,
            from,
            to,
            id,
            tag,
            event,
        ),
        PhaseView::RebaseUnlinking { to, id, tag } => after_rebase_unlinking(
            kind,
            to,
            id,
            tag,
            event,
        ),
        PhaseView::RebaseLinking { id } => after_rebase_linking(id, event),
        PhaseView::UpdateCommitting { id, tag, address, payload } => after_update_committing(
            kind,
            id,
            tag,
            address,
            payload,
            event,
        ),
        PhaseView::UpdateListing { id, tag, address, fresh, payload } => after_update_listing(
            kind,
            id,
            tag,
            address,
            fresh,
            payload,
            event,
        ),
        PhaseView::UpdateSearching {
            anchors,
            next,
            id,
            tag,
            address,
            fresh,
            payload,
        } => after_update_searching(kind, anchors, next, id, tag, address, fresh, payload, event),
        PhaseView::UpdateUnlinking { anchor, id, fresh, payload } => after_update_unlinking(
            anchor,
            id,
            fresh,
            payload,
            event,
        ),
    }
}

/// Ends an operation with a failure.
fn fail(failure: Failure) -> (step: Step)
    ensures
        step@ == failed(failure),
{
    Step::Finished(Outcome::Failed(failure))
}

/// Whether the edges hold one to `target` with `tag`.
pub fn holds_edge(edges: &Vec<Edge>, target: &String, tag: &String) -> (found: bool)
    ensures
        found == has_edge(views(edges@), target@, tag@),
{
    let ghost wanted = EdgeView { target: target@, tag: tag@ };
    let mut i: usize = 0;
    while i < edges.len()
        invariant
            i <= edges.len(),
            wanted == (EdgeView { target: target@, tag: tag@ }),
            forall|j: int| 0 <= j < i ==> views(edges@)[j] != wanted,
        decreases edges.len() - i,
    {
        if edges[i].target == *target && edges[i].tag == *tag {
            assert(views(edges@)[i as int] == wanted);
            return true;
        }
        i = i + 1;
    }
    false
}

/// Opens `create` for a payload under a base.
pub fn begin_create(kind: &Kind, base: String, payload: Vec<Field>) -> (step: Step)
    ensures
        step@ == begin_create_spec(kind@, base@, views(payload@)),
{
    if check_payload(kind, &payload) {
        let written = copy_payload(&payload);
        Step::Ask(
            Phase::Committing { base, payload },
            Action::Commit { kind: copy_text(&kind.name), payload: written },
        )
    } else {
        fail(Failure::ValidationFailure)
    }
}

/// Opens `read` for a handle.
pub fn begin_read(id: String, created_at: i64) -> (step: Step)
    ensures
        step@ == begin_read_spec(id@, created_at),
{
    let address = copy_text(&id);
    Step::Ask(Phase::Reading { id, created_at }, Action::Fetch { address })
}

/// Opens `update` of the version at `address`, named by a handle, with a new
/// payload.
pub fn begin_update(
    kind: &Kind,
    id: String,
    created_at: i64,
    address: String,
    payload: Vec<Field>,
) -> (step: Step)
    ensures
        step@ == begin_update_spec(kind@, id@, created_at, address@, views(payload@)),
{
    if check_payload(kind, &payload) {
        let written = copy_payload(&payload);
        Step::Ask(
            Phase::UpdateCommitting { id, tag: tag_of(created_at), address, payload },
            Action::Commit { kind: copy_text(&kind.name), payload: written },
        )
    } else {
        fail(Failure::ValidationFailure)
    }
}

/// Opens `delete` of the version at `address`, named by a handle, under a base.
pub fn begin_delete(
    kind: &Kind,
    base: String,
    id: String,
    created_at: i64,
    address: String,
) -> (step: Step)
    ensures
        step@ == begin_delete_spec(kind@, base@, id@, created_at, address@),
{
    Step::Ask(
        Phase::DeleteAnchoring { id, tag: tag_of(created_at), address },
        Action::Anchor { anchor_type: copy_text(&kind.anchor_type), tag: base },
    )
}

/// Opens `list` for a base.
pub fn begin_list(kind: &Kind, base: String) -> (step: Step)
    ensures
        step@ == begin_list_spec(kind@, base@),
{
    Step::Ask(
        Phase::ListAnchoring,
        Action::Anchor { anchor_type: copy_text(&kind.anchor_type), tag: base },
    )
}

/// Opens `rebase` of a handle from one base to another.
pub fn begin_rebase(
    kind: &Kind,
    base_from: String,
    base_to: String,
    id: String,
    created_at: i64,
) -> (step: Step)
    ensures
        step@ == begin_rebase_spec(kind@, base_from@, base_to@, id@, created_at),
{
    Step::Ask(
        Phase::RebaseFrom { base_to, id, tag: tag_of(created_at) },
        Action::Anchor { anchor_type: copy_text(&kind.anchor_type), tag: base_from },
    )
}

/// Goes on with `list` at edge number `next`, given what the parser made of
/// the edge's tag.
pub fn list_with(edges: Vec<Edge>, next: usize, parsed: Option<i64>, records: Vec<Record>) -> (step:
    Step)
    ensures
        step@ == list_given(views(edges@), next as nat, parsed, views(records@)),
{
    if next >= edges.len() {
        Step::Finished(Outcome::Records(records))
    } else {
        match parsed {
            Some(created_at) => {
                let address = copy_text(&edges[next].target);
                Step::Ask(
                    Phase::ListReading { edges, next, created_at, records },
                    Action::Fetch { address },
                )
            },
            None => fail(Failure::NotFound),
        }
    }
}

/// Goes on with `list` at edge number `next`.
fn list_onward(edges: Vec<Edge>, next: usize, records: Vec<Record>) -> (step: Step)
    ensures
        step@ == list_from(views(edges@), next as nat, views(records@)),
{
    let parsed = if next < edges.len() {
        created_at_of(&edges[next].tag)
    } else {
        None
    };
    list_with(edges, next, parsed, records)
}

/// Indexes an entry created at a time, given the text of the time and what
/// the parser made of that text.
pub fn stamp_with(
    kind: &Kind,
    anchor: String,
    origin: Option<String>,
    address: String,
    payload: Vec<Field>,
    created_at: i64,
    tag: String,
    parsed: Option<i64>,
) -> (step: Step)
    ensures
        step@ == stamp_given(
            kind@,
            anchor@,
            view_of(origin),
            address@,
            views(payload@),
            created_at,
            tag@,
            parsed,
        ),
{
    if confirms(parsed, created_at) {
        let target = copy_text(&address);
        let id = copy_text(&address);
        let link_tag = copy_text(&tag);
        Step::Ask(
            Phase::Indexing { origin, tag, record: Record { id, created_at, address, payload } },
            Action::Link {
                base: anchor,
                target,
                link_type: copy_text(&kind.link_type),
                tag: link_tag,
            },
        )
    } else {
        fail(Failure::StoreUnavailable)
    }
}

/// Goes on with `update`'s search at anchor number `next`.
fn search_onward(
    kind: &Kind,
    anchors: Vec<String>,
    next: usize,
    id: String,
    tag: String,
    address: String,
    fresh: String,
    payload: Vec<Field>,
) -> (step: Step)
    ensures
        step@ == search_from(
            kind@,
            views(anchors@),
            next as nat,
            id@,
            tag@,
            address@,
            fresh@,
            views(payload@),
        ),
{
    if next >= anchors.len() {
        fail(Failure::NotFound)
    } else {
        let base = copy_text(&anchors[next]);
        Step::Ask(
            Phase::UpdateSearching { anchors, next, id, tag, address, fresh, payload },
            Action::Links { base, link_type: copy_text(&kind.link_type) },
        )
    }
}

/// Create, after the payload was written.
fn on_committing(kind: &Kind, base: String, payload: Vec<Field>, event: Event) -> (step: Step)
    ensures
        step@ == after_committing(kind@, base@, views(payload@), event@),
{
    match event {
        Event::Address(address) => Step::Ask(
            Phase::Anchoring { address, payload },
            Action::Anchor { anchor_type: copy_text(&kind.anchor_type), tag: base },
        ),
        _ => fail(Failure::StoreUnavailable),
    }
}

/// Create, after the anchor was resolved.
fn on_anchoring(address: String, payload: Vec<Field>, event: Event) -> (step: Step)
    ensures
        step@ == after_anchoring(address@, views(payload@), event@),
{
    match event {
        Event::Address(anchor) => Step::Ask(
            Phase::Stamping { anchor, origin: None, address, payload },
            Action::Now,
        ),
        _ => fail(Failure::StoreUnavailable),
    }
}

/// Create and update, after the clock was read.
fn on_stamping(
    kind: &Kind,
    anchor: String,
    origin: Option<String>,
    address: String,
    payload: Vec<Field>,
    event: Event,
) -> (step: Step)
    ensures
        step@ == after_stamping(kind@, anchor@, view_of(origin), address@, views(payload@), event@),
{
    match event {
        Event::Time(created_at) => {
            let tag = tag_of(created_at);
            let parsed = created_at_of(&tag);
            stamp_with(kind, anchor, origin, address, payload, created_at, tag, parsed)
        },
        _ => fail(Failure::StoreUnavailable),
    }
}

/// Create and update, after the index link was added.
fn on_indexing(kind: &Kind, origin: Option<String>, tag: String, record: Record, event: Event) -> (step:
    Step)
    ensures
        step@ == after_indexing(kind@, view_of(origin), tag@, record@, event@),
{
    match event {
        Event::Done => match origin {
            Some(from) => {
                let target = copy_text(&record.address);
                Step::Ask(
                    Phase::Revising { record },
                    Action::Link {
                        base: from,
                        target,
                        link_type: copy_text(&kind.revision_type),
                        tag,
                    },
                )
            },
            None => Step::Finished(Outcome::Record(record)),
        },
        _ => fail(Failure::StoreUnavailable),
    }
}

/// Update, after the version link was added.
fn on_revising(record: Record, event: Event) -> (step: Step)
    ensures
        step@ == after_revising(record@, event@),
{
    match event {
        Event::Done => Step::Finished(Outcome::Record(record)),
        _ => fail(Failure::StoreUnavailable),
    }
}

/// Read, after the fetch.
fn on_reading(id: String, created_at: i64, event: Event) -> (step: Step)
    ensures
        step@ == after_reading(id@, created_at, event@),
{
    match event {
        Event::Payload(payload) => {
            let address = copy_text(&id);
            Step::Finished(Outcome::Record(Record { id, created_at, address, payload }))
        },
        Event::Missing => fail(Failure::NotFound),
        _ => fail(Failure::StoreUnavailable),
    }
}

/// Delete, after the anchor was resolved.
fn on_delete_anchoring(kind: &Kind, id: String, tag: String, address: String, event: Event) -> (step:
    Step)
    ensures
        step@ == after_delete_anchoring(kind@, id@, tag@, address@, event@),
{
    match event {
        Event::Address(anchor) => {
            let base = copy_text(&anchor);
            Step::Ask(
                Phase::DeleteLooking { anchor, id, tag, address },
                Action::Links { base, link_type: copy_text(&kind.link_type) },
            )
        },
        _ => fail(Failure::StoreUnavailable),
    }
}

/// Delete, after the links were listed.
fn on_delete_looking(
    kind: &Kind,
    anchor: String,
    id: String,
    tag: String,
    address: String,
    event: Event,
) -> (step: Step)
    ensures
        step@ == after_delete_looking(kind@, anchor@, id@, tag@, address@, event@),
{
    match event {
        Event::Edges(edges) => {
            if holds_edge(&edges, &id, &tag) && holds_edge(&edges, &address, &tag) {
                let target = copy_text(&address);
                Step::Ask(
                    Phase::DeleteUnlinking { address },
                    Action::Unlink {
                        base: anchor,
                        target,
                        link_type: copy_text(&kind.link_type),
                        tag,
                    },
                )
            } else {
                fail(Failure::NotFound)
            }
        },
        _ => fail(Failure::StoreUnavailable),
    }
}

/// Delete, after the link was removed.
fn on_delete_unlinking(address: String, event: Event) -> (step: Step)
    ensures
        step@ == after_delete_unlinking(address@, event@),
{
    match event {
        Event::Done => {
            let retired = copy_text(&address);
            Step::Ask(Phase::DeleteRetiring { address }, Action::Retire { address: retired })
        },
        _ => fail(Failure::StoreUnavailable),
    }
}

/// Delete, after the removal was asked for.
fn on_delete_retiring(address: String, event: Event) -> (step: Step)
    ensures
        step@ == after_delete_retiring(address@, event@),
{
    match event {
        Event::Done => Step::Finished(Outcome::Address(address)),
        Event::Missing => fail(Failure::NotFound),
        _ => fail(Failure::StoreUnavailable),
    }
}

/// List, after the anchor was resolved.
fn on_list_anchoring(kind: &Kind, event: Event) -> (step: Step)
    ensures
        step@ == after_list_anchoring(kind@, event@),
{
    match event {
        Event::Address(anchor) => Step::Ask(
            Phase::ListLooking,
            Action::Links { base: anchor, link_type: copy_text(&kind.link_type) },
        ),
        _ => fail(Failure::StoreUnavailable),
    }
}

/// List, after the links were listed.
fn on_list_looking(event: Event) -> (step: Step)
    ensures
        step@ == after_list_looking(event@),
{
    match event {
        Event::Edges(edges) => {
            let records: Vec<Record> = Vec::new();
            assert(views(records@) =~= Seq::<RecordView>::empty());
            list_onward(edges, 0, records)
        },
        _ => fail(Failure::StoreUnavailable),
    }
}

/// List, after the entry of edge number `next` was fetched.
fn on_list_reading(
    edges: Vec<Edge>,
    next: usize,
    created_at: i64,
    records: Vec<Record>,
    event: Event,
) -> (step: Step)
    ensures
        step@ == after_list_reading(
            views(edges@),
            next as nat,
            created_at,
            views(records@),
            event@,
        ),
{
    if next >= edges.len() {
        fail(Failure::StoreUnavailable)
    } else {
        match event {
            Event::Payload(payload) => {
                let mut records = records;
                let record = Record {
                    id: copy_text(&edges[next].target),
                    created_at,
                    address: copy_text(&edges[next].target),
                    payload,
                };
                proof {
                    lemma_views_push(records@, record);
                }
                records.push(record);
                list_onward(edges, next + 1, records)
            },
            Event::Missing => fail(Failure::NotFound),
            _ => fail(Failure::StoreUnavailable),
        }
    }
}

/// Rebase, after the first anchor was resolved.
fn on_rebase_from(kind: &Kind, base_to: String, id: String, tag: String, event: Event) -> (step: Step)
    ensures
        step@ == after_rebase_from(kind@, base_to@, id@, tag@, event@),
{
    match event {
        Event::Address(from) => Step::Ask(
            Phase::RebaseTo { from, id, tag },
            Action::Anchor { anchor_type: copy_text(&kind.anchor_type), tag: base_to },
        ),
        _ => fail(Failure::StoreUnavailable),
    }
}

/// Rebase, after the second anchor was resolved.
fn on_rebase_to(kind: &Kind, from: String, id: String, tag: String, event: Event) -> (step: Step)
    ensures
        step@ == after_rebase_to(kind@, from@, id@, tag@, event@),
{
    match event {
        Event::Address(to) => {
            let base = copy_text(&from);
            Step::Ask(
                Phase::RebaseLooking { from, to, id, tag },
                Action::Links { base, link_type: copy_text(&kind.link_type) },
            )
        },
        _ => fail(Failure::StoreUnavailable),
    }
}

/// Rebase, after the links were listed.
fn on_rebase_looking(
    kind: &Kind,
    from: String,
    to: String,
    id: String,
    tag: String,
    event: Event,
) -> (step: Step)
    ensures
        step@ == after_rebase_looking(kind@, from@, to@, id@, tag@, event@),
{
    match event {
        Event::Edges(edges) => {
            if holds_edge(&edges, &id, &tag) {
                let target = copy_text(&id);
                let link_tag = copy_text(&tag);
                Step::Ask(
                    Phase::RebaseUnlinking { to, id, tag },
                    Action::Unlink {
                        base: from,
                        target,
                        link_type: copy_text(&kind.link_type),
                        tag: link_tag,
                    },
                )
            } else {
                fail(Failure::NotFound)
            }
        },
        _ => fail(Failure::StoreUnavailable),
    }
}

/// Rebase, after the link was removed.
fn on_rebase_unlinking(kind: &Kind, to: String, id: String, tag: String, event: Event) -> (step: Step)
    ensures
        step@ == after_rebase_unlinking(kind@, to@, id@, tag@, event@),
{
    match event {
        Event::Done => {
            let target = copy_text(&id);
            Step::Ask(
                Phase::RebaseLinking { id },
                Action::Link { base: to, target, link_type: copy_text(&kind.link_type), tag },
            )
        },
        _ => fail(Failure::StoreUnavailable),
    }
}

/// Rebase, after the link was added.
fn on_rebase_linking(id: String, event: Event) -> (step: Step)
    ensures
        step@ == after_rebase_linking(id@, event@),
{
    match event {
        Event::Done => Step::Finished(Outcome::Address(id)),
        _ => fail(Failure::StoreUnavailable),
    }
}

/// Update, after the new payload was written.
fn on_update_committing(
    kind: &Kind,
    id: String,
    tag: String,
    address: String,
    payload: Vec<Field>,
    event: Event,
) -> (step: Step)
    ensures
        step@ == after_update_committing(kind@, id@, tag@, address@, views(payload@), event@),
{
    match event {
        Event::Address(fresh) => Step::Ask(
            Phase::UpdateListing { id, tag, address, fresh, payload },
            Action::Anchors { anchor_type: copy_text(&kind.anchor_type) },
        ),
        _ => fail(Failure::StoreUnavailable),
    }
}

/// Update, after the anchors were listed.
fn on_update_listing(
    kind: &Kind,
    id: String,
    tag: String,
    address: String,
    fresh: String,
    payload: Vec<Field>,
    event: Event,
) -> (step: Step)
    ensures
        step@ == after_update_listing(
            kind@,
            id@,
            tag@,
            address@,
            fresh@,
            views(payload@),
            event@,
        ),
{
    match event {
        Event::Addresses(anchors) => search_onward(kind, anchors, 0, id, tag, address, fresh, payload),
        _ => fail(Failure::StoreUnavailable),
    }
}

/// Update, after the links of anchor number `next` were listed.
fn on_update_searching(
    kind: &Kind,
    anchors: Vec<String>,
    next: usize,
    id: String,
    tag: String,
    address: String,
    fresh: String,
    payload: Vec<Field>,
    event: Event,
) -> (step: Step)
    ensures
        step@ == after_update_searching(
            kind@,
            views(anchors@),
            next as nat,
            id@,
            tag@,
            address@,
            fresh@,
            views(payload@),
            event@,
        ),
{
    if next >= anchors.len() {
        fail(Failure::StoreUnavailable)
    } else {
        match event {
            Event::Edges(edges) => {
                if holds_edge(&edges, &id, &tag) && holds_edge(&edges, &address, &tag) {
                    let anchor = copy_text(&anchors[next]);
                    let base = copy_text(&anchors[next]);
                    Step::Ask(
                        Phase::UpdateUnlinking { anchor, id, fresh, payload },
                        Action::Unlink {
                            base,
                            target: address,
                            link_type: copy_text(&kind.link_type),
                            tag,
                        },
                    )
                } else {
                    search_onward(kind, anchors, next + 1, id, tag, address, fresh, payload)
                }
            },
            _ => fail(Failure::StoreUnavailable),
        }
    }
}

/// Update, after the old link was removed.
fn on_update_unlinking(
    anchor: String,
    id: String,
    fresh: String,
    payload: Vec<Field>,
    event: Event,
) -> (step: Step)
    ensures
        step@ == after_update_unlinking(anchor@, id@, fresh@, views(payload@), event@),
{
    match event {
        Event::Done => Step::Ask(
            Phase::Stamping { anchor, origin: Some(id), address: fresh, payload },
            Action::Now,
        ),
        _ => fail(Failure::StoreUnavailable),
    }
}

/// Takes the answer to the request that was made in `phase` and says what the
/// operation does next.
pub fn advance(kind: &Kind, phase: Phase, event: Event) -> (step: Step)
    ensures
        step@ == advance_spec(kind@, phase@, event@),
{
    match phase {
        Phase::Committing { base, payload } => on_committing(kind, base, payload, event),
        Phase::Anchoring { address, payload } => on_anchoring(address, payload, event),
        Phase::Stamping { anchor, origin, address, payload } => on_stamping(
            kind,
            anchor,
            origin,
            address,
            payload,
            event,
        ),
        Phase::Indexing { origin, tag, record } => on_indexing(kind, origin, tag, record, event),
        Phase::Revising { record } => on_revising(record, event),
        Phase::Reading { id, created_at } => on_reading(id, created_at, event),
        Phase::DeleteAnchoring { id, tag, address } => on_delete_anchoring(
            kind,
            id,
            tag,
            address,
            event,
        ),
        Phase::DeleteLooking { anchor, id, tag, address } => on_delete_looking(
            kind,
            anchor,
            id,
            tag,
            address,
            event,
        ),
        Phase::DeleteUnlinking { address } => on_delete_unlinking(address, event),
        Phase::DeleteRetiring { address } => on_delete_retiring(address, event),
        Phase::ListAnchoring => on_list_anchoring(kind, event),
        Phase::ListLooking => on_list_looking(event),
        Phase::ListReading { edges, next, created_at, records } => on_list_reading(
            edges,
            next,
            created_at,
            records,
            event,
        ),
        Phase::RebaseFrom { base_to, id, tag } => on_rebase_from(kind, base_to, id, tag, event),
        Phase::RebaseTo { from, id, tag } => on_rebase_to(kind, from, id, tag, event),
        Phase::RebaseLooking { from, to, id, tag } => on_rebase_looking(
            kind,
            from,
            to,
            id,
            tag,
            event,
        ),
        Phase::RebaseUnlinking { to, id, tag } => on_rebase_unlinking(kind, to, id, tag, event),
        Phase::RebaseLinking { id } => on_rebase_linking(id, event),
        Phase::UpdateCommitting { id, tag, address, payload } => on_update_committing(
            kind,
            id,
            tag,
            address,
            payload,
            event,
        ),
        Phase::UpdateListing { id, tag, address, fresh, payload } => on_update_listing(
            kind,
            id,
            tag,
            address,
            fresh,
            payload,
            event,
        ),
        Phase::UpdateSearching {
            anchors,
            next,
            id,
            tag,
            address,
            fresh,
            payload,
        } => on_update_searching(kind, anchors, next, id, tag, address, fresh, payload, event),
        Phase::UpdateUnlinking { anchor, id, fresh, payload } => on_update_unlinking(
            anchor,
            id,
            fresh,
            payload,
            event,
        ),
    }
}

} // verus!
