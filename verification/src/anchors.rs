//! The anchors of a ledger, by type and tag.
//!
//! An anchor is the node that stands for a type and a tag; it is the base of
//! the links that index a collection. Each type has a node of its own, so that
//! the types in use and the tags in use under each can be found.

use vstd::prelude::*;
use crate::address::{address_anchor, anchor_address};
use crate::ledger::{
    addresses_of, members_of, resolve, tags_of, type_addresses, well_formed, Ledger, LedgerView,
};
use crate::lifecycle::address_view;
use crate::protocol::{Action, Event, EventView};
use crate::record::Failure;
use crate::text::{views, Text};

verus! {

/// A list of texts or a failure as it stands in contracts.
pub open spec fn texts_view(result: Result<Vec<String>, Failure>) -> Result<Seq<Text>, Failure> {
    match result {
        Ok(texts) => Ok(views(texts@)),
        Err(failure) => Err(failure),
    }
}

/// What a ledger hands out of what it holds: everything while it is online,
/// and nothing while it is not.
pub open spec fn handed_out(ledger: LedgerView, held: Seq<Text>) -> Result<Seq<Text>, Failure> {
    if ledger.online {
        Ok(held)
    } else {
        Err(Failure::StoreUnavailable)
    }
}

/// What resolving an anchor comes to: the address of the anchor of the type
/// with the tag, made if it was not there, or `StoreUnavailable` where the
/// ledger cannot give it.
pub open spec fn resolve_result(ledger: LedgerView, anchor_type: Text, tag: Text) -> (
    LedgerView,
    Result<Text, Failure>,
) {
    if !ledger.online {
        (ledger, Err(Failure::StoreUnavailable))
    } else {
        let resolved = resolve(ledger, anchor_type, tag);
        match resolved.1 {
            EventView::Address(address) => (resolved.0, Ok(address)),
            _ => (resolved.0, Err(Failure::StoreUnavailable)),
        }
    }
}

/// Resolves the anchor of a type with a tag, making it if there is none.
pub fn resolve_or_create(ledger: &mut Ledger, anchor_type: String, tag: String) -> (result: Result<
    String,
    Failure,
>)
    ensures
        final(ledger)@ == resolve_result(old(ledger)@, anchor_type@, tag@).0,
        address_view(result) == resolve_result(old(ledger)@, anchor_type@, tag@).1,
        well_formed(old(ledger)@) ==> well_formed(final(ledger)@),
{
    match ledger.perform(Action::Anchor { anchor_type, tag }) {
        Event::Address(address) => Ok(address),
        _ => Err(Failure::StoreUnavailable),
    }
}

/// The addresses of the nodes of all anchor types.
pub fn list_anchor_type_addresses(ledger: &Ledger) -> (result: Result<Vec<String>, Failure>)
    ensures
        texts_view(result) == handed_out(ledger@, type_addresses(ledger@.types)),
{
    if ledger.is_online() {
        Ok(ledger.type_addresses())
    } else {
        Err(Failure::StoreUnavailable)
    }
}

/// The anchor types in use.
pub fn list_anchor_type_tags(ledger: &Ledger) -> (result: Result<Vec<String>, Failure>)
    ensures
        texts_view(result) == handed_out(ledger@, ledger@.types),
{
    if ledger.is_online() {
        Ok(ledger.type_tags())
    } else {
        Err(Failure::StoreUnavailable)
    }
}

/// The addresses of the anchors of a type.
pub fn list_anchor_addresses(ledger: &Ledger, anchor_type: String) -> (result: Result<
    Vec<String>,
    Failure,
>)
    ensures
        texts_view(result) == handed_out(ledger@, addresses_of(ledger@.anchors, anchor_type@)),
{
    if ledger.is_online() {
        Ok(ledger.anchor_addresses(&anchor_type))
    } else {
        Err(Failure::StoreUnavailable)
    }
}

/// The tags in use under an anchor type.
pub fn list_anchor_tags(ledger: &Ledger, anchor_type: String) -> (result: Result<Vec<String>, Failure>)
    ensures
        texts_view(result) == handed_out(ledger@, tags_of(ledger@.anchors, anchor_type@)),
{
    if ledger.is_online() {
        Ok(ledger.anchor_tags(&anchor_type))
    } else {
        Err(Failure::StoreUnavailable)
    }
}

/// Where the live links from the anchor of a type with a tag lead, whatever
/// their type.
pub fn list_members(ledger: &Ledger, anchor_type: String, tag: String) -> (result: Result<
    Vec<String>,
    Failure,
>)
    ensures
        texts_view(result) == handed_out(
            ledger@,
            members_of(ledger@.links, anchor_address(anchor_type@, tag@)),
        ),
{
    if ledger.is_online() {
        let base = address_anchor(&anchor_type, &tag);
        Ok(ledger.members(&base))
    } else {
        Err(Failure::StoreUnavailable)
    }
}

} // verus!
