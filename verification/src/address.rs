//! Content addresses: the text by which the store names what it holds.
//!
//! The address of a content is the text of the BLAKE2b digest of its bytes, as
//! `holo_hash` computes and prints them. Equal contents have equal addresses.
//! Two different contents may share one; the store refuses the second.

use vstd::prelude::*;
use vstd::utf8::encode_utf8;
use crate::record::{Field, FieldView};
use crate::text::{views, Text};

verus! {

/// The 32 bytes that `holo_hash::blake2b_256` computes from a sequence of bytes.
pub uninterp spec fn blake2b_256_digest(data: Seq<u8>) -> Seq<u8>;

/// The text that `holo_hash::holo_hash_encode` prints for a sequence of bytes.
pub uninterp spec fn holo_hash_text(raw: Seq<u8>) -> Seq<char>;

/// Calls `holo_hash::blake2b_256`, the BLAKE2b hash of the bytes at a length
/// of 32. Nothing is claimed of the digest but that it depends on the bytes
/// alone.
#[verifier::external_body]
fn digest(data: &Vec<u8>) -> (out: Vec<u8>)
    ensures
        out@ == blake2b_256_digest(data@),
{
    hdk::prelude::holo_hash::blake2b_256(data.as_slice())
}

/// Calls `holo_hash::holo_hash_encode`, which prints bytes as the letter `u`
/// and their unpadded URL-safe base 64. Nothing is claimed of the text but
/// that it depends on the bytes alone.
#[verifier::external_body]
fn print_hash(raw: &Vec<u8>) -> (text: String)
    ensures
        text@ == holo_hash_text(raw@),
{
    hdk::prelude::holo_hash::holo_hash_encode(raw.as_slice())
}

/// The closing byte of a piece: one that no UTF-8 text holds.
pub const PIECE_END: u8 = 0xff;

/// One text as bytes: its UTF-8 encoding and the closing byte.
pub open spec fn piece(text: Text) -> Seq<u8> {
    encode_utf8(text).push(PIECE_END)
}

/// The bytes of an entry: the piece of its kind's name, then for each field
/// the pieces of its name and of its value.
pub open spec fn content_bytes(kind: Text, payload: Seq<FieldView>) -> Seq<u8>
    decreases payload.len(),
{
    if payload.len() == 0 {
        piece(kind)
    } else {
        content_bytes(kind, payload.drop_last()) + piece(payload.last().name) + piece(
            payload.last().value,
        )
    }
}

/// The address of a sequence of bytes.
pub open spec fn address_of(bytes: Seq<u8>) -> Text {
    holo_hash_text(blake2b_256_digest(bytes))
}

/// The address of an entry of a kind with a payload.
pub open spec fn content_address(kind: Text, payload: Seq<FieldView>) -> Text {
    address_of(content_bytes(kind, payload))
}

/// The address of the node that stands for an anchor type.
pub open spec fn type_address(anchor_type: Text) -> Text {
    address_of(piece(anchor_type))
}

/// The address of the anchor of a type with a tag.
pub open spec fn anchor_address(anchor_type: Text, tag: Text) -> Text {
    address_of(piece(anchor_type) + piece(tag))
}

/// Appends the piece of a text to the bytes.
fn push_piece(bytes: &mut Vec<u8>, text: &String)
    ensures
        final(bytes)@ == old(bytes)@ + piece(text@),
{
    let raw = text.as_str().as_bytes();
    let mut i: usize = 0;
    while i < raw.len()
        invariant
            i <= raw.len(),
            raw@ == encode_utf8(text@),
            bytes@ == old(bytes)@ + raw@.take(i as int),
        decreases raw.len() - i,
    {
        proof {
            assert(raw@.take(i as int + 1) =~= raw@.take(i as int).push(raw@[i as int]));
        }
        bytes.push(raw[i]);
        i = i + 1;
    }
    proof {
        assert(raw@.take(raw.len() as int) =~= raw@);
    }
    bytes.push(PIECE_END);
    assert(bytes@ =~= old(bytes)@ + piece(text@));
}

/// The address of the bytes gathered so far.
fn address_of_bytes(bytes: &Vec<u8>) -> (address: String)
    ensures
        address@ == address_of(bytes@),
{
    let raw = digest(bytes);
    print_hash(&raw)
}

/// Computes the address of an entry of a kind with a payload.
pub fn address_content(kind: &String, payload: &Vec<Field>) -> (address: String)
    ensures
        address@ == content_address(kind@, views(payload@)),
{
    let mut bytes: Vec<u8> = Vec::new();
    push_piece(&mut bytes, kind);
    let mut i: usize = 0;
    assert(views(payload@).take(0).len() == 0);
    assert(bytes@ =~= piece(kind@));
    while i < payload.len()
        invariant
            i <= payload.len(),
            bytes@ == content_bytes(kind@, views(payload@).take(i as int)),
        decreases payload.len() - i,
    {
        proof {
            let next = views(payload@).take(i as int + 1);
            assert(next.drop_last() =~= views(payload@).take(i as int));
            assert(next.last() == payload@[i as int]@);
        }
        push_piece(&mut bytes, &payload[i].name);
        push_piece(&mut bytes, &payload[i].value);
        i = i + 1;
    }
    proof {
        assert(views(payload@).take(payload.len() as int) =~= views(payload@));
    }
    address_of_bytes(&bytes)
}

/// Computes the address of the node of an anchor type.
pub fn address_type(anchor_type: &String) -> (address: String)
    ensures
        address@ == type_address(anchor_type@),
{
    let mut bytes: Vec<u8> = Vec::new();
    push_piece(&mut bytes, anchor_type);
    assert(bytes@ =~= piece(anchor_type@));
    address_of_bytes(&bytes)
}

/// Computes the address of the anchor of a type with a tag.
pub fn address_anchor(anchor_type: &String, tag: &String) -> (address: String)
    ensures
        address@ == anchor_address(anchor_type@, tag@),
{
    let mut bytes: Vec<u8> = Vec::new();
    push_piece(&mut bytes, anchor_type);
    push_piece(&mut bytes, tag);
    assert(bytes@ =~= piece(anchor_type@) + piece(tag@));
    address_of_bytes(&bytes)
}

} // verus!
