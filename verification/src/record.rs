//! The shape of the records of one kind, and the record as callers see it.

use vstd::prelude::*;
use crate::text::{copy_text, lemma_views_push, views, Text};

verus! {

/// One named value of a payload.
#[derive(Debug, Clone, PartialEq, Eq)]
pub struct Field {
    pub name: String,
    pub value: String,
}

/// A field as it stands in contracts.
pub struct FieldView {
    pub name: Text,
    pub value: Text,
}

impl View for Field {
    type V = FieldView;

    open spec fn view(&self) -> FieldView {
        FieldView { name: self.name@, value: self.value@ }
    }
}

/// What tells the records of one kind from those of another: the name of
/// their entries, the type of the anchors that index them, the types of their
/// two sorts of link, and the names of their fields in order.
#[derive(Debug, Clone, PartialEq, Eq)]
pub struct Kind {
    pub name: String,
    pub anchor_type: String,
    pub link_type: String,
    pub revision_type: String,
    pub schema: Vec<String>,
}

/// A kind as it stands in contracts.
pub struct KindView {
    pub name: Text,
    pub anchor_type: Text,
    pub link_type: Text,
    pub revision_type: Text,
    pub schema: Seq<Text>,
}

impl View for Kind {
    type V = KindView;

    open spec fn view(&self) -> KindView {
        KindView {
            name: self.name@,
            anchor_type: self.anchor_type@,
            link_type: self.link_type@,
            revision_type: self.revision_type@,
            schema: views(self.schema@),
        }
    }
}

/// A record as callers see it: the handle by which it is named in later calls
/// (`id` and `created_at`), the address of its content, and the content.
#[derive(Debug, Clone, PartialEq, Eq)]
pub struct Record {
    pub id: String,
    pub created_at: i64,
    pub address: String,
    pub payload: Vec<Field>,
}

/// A record as it stands in contracts.
pub struct RecordView {
    pub id: Text,
    pub created_at: i64,
    pub address: Text,
    pub payload: Seq<FieldView>,
}

impl View for Record {
    type V = RecordView;

    open spec fn view(&self) -> RecordView {
        RecordView {
            id: self.id@,
            created_at: self.created_at,
            address: self.address@,
            payload: views(self.payload@),
        }
    }
}

/// Why an operation gave no result.
#[derive(Debug, Clone, Copy, PartialEq, Eq, Structural)]
pub enum Failure {
    /// The handle names no record that can be resolved, or no live link.
    NotFound,
    /// The payload does not have the fields of its kind.
    ValidationFailure,
    /// The store or the link index could not do what it was asked.
    StoreUnavailable,
}

/// A payload has the shape of a kind when it holds the schema's fields, each
/// once and in the schema's order.
pub open spec fn conforms(schema: Seq<Text>, payload: Seq<FieldView>) -> bool {
    &&& payload.len() == schema.len()
    &&& forall|i: int| 0 <= i < schema.len() ==> (#[trigger] payload[i]).name == schema[i]
}

/// Whether a payload has the shape of a kind.
pub fn check_payload(kind: &Kind, payload: &Vec<Field>) -> (ok: bool)
    ensures
        ok == conforms(kind@.schema, views(payload@)),
{
    if payload.len() != kind.schema.len() {
        return false;
    }
    let mut i: usize = 0;
    while i < payload.len()
        invariant
            i <= payload.len(),
            payload.len() == kind.schema.len(),
            forall|j: int| 0 <= j < i ==> (#[trigger] views(payload@)[j]).name == views(kind.schema@)[j],
        decreases payload.len() - i,
    {
        if payload[i].name != kind.schema[i] {
            assert(views(payload@)[i as int].name != views(kind.schema@)[i as int]);
            return false;
        }
        i = i + 1;
    }
    true
}

/// A copy of a payload.
pub fn copy_payload(payload: &Vec<Field>) -> (copy: Vec<Field>)
    ensures
        views(copy@) == views(payload@),
{
    let mut copy: Vec<Field> = Vec::new();
    let mut i: usize = 0;
    while i < payload.len()
        invariant
            i <= payload.len(),
            views(copy@) == views(payload@).take(i as int),
        decreases payload.len() - i,
    {
        let field = Field { name: copy_text(&payload[i].name), value: copy_text(&payload[i].value) };
        proof {
            lemma_views_push(copy@, field);
            assert(views(payload@).take(i as int + 1) =~= views(payload@).take(i as int).push(
                payload@[i as int]@,
            ));
        }
        copy.push(field);
        i = i + 1;
    }
    proof {
        assert(views(payload@).take(payload.len() as int) =~= views(payload@));
    }
    copy
}

/// Whether two payloads hold the same fields with the same values.
pub fn same_payload(left: &Vec<Field>, right: &Vec<Field>) -> (same: bool)
    ensures
        same == (views(left@) == views(right@)),
{
    if left.len() != right.len() {
        assert(views(left@).len() != views(right@).len());
        return false;
    }
    let mut i: usize = 0;
    while i < left.len()
        invariant
            i <= left.len(),
            left.len() == right.len(),
            views(left@).take(i as int) == views(right@).take(i as int),
        decreases left.len() - i,
    {
        if left[i].name != right[i].name || left[i].value != right[i].value {
            assert(views(left@)[i as int] != views(right@)[i as int]);
            return false;
        }
        proof {
            assert(views(left@).take(i as int + 1) =~= views(left@).take(i as int).push(
                left@[i as int]@,
            ));
            assert(views(right@).take(i as int + 1) =~= views(right@).take(i as int).push(
                right@[i as int]@,
            ));
        }
        i = i + 1;
    }
    proof {
        assert(views(left@).take(left.len() as int) =~= views(left@));
        assert(views(right@).take(right.len() as int) =~= views(right@));
    }
    true
}

} // verus!
