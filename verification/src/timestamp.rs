//! Creation times and the link tags that carry them.
//!
//! A creation time is a count of microseconds since the Unix epoch. In a link
//! tag it stands as the text that `hdk`'s `Timestamp` prints, and it is read
//! back from a tag by `Timestamp`'s parser.

use vstd::prelude::*;

verus! {

/// The text that `hdk::prelude::Timestamp` prints for a count of microseconds.
pub uninterp spec fn timestamp_text(micros: i64) -> Seq<char>;

/// The count of microseconds that `hdk::prelude::Timestamp` reads from a text,
/// where it accepts the text.
pub uninterp spec fn text_timestamp(text: Seq<char>) -> Option<i64>;

/// A creation time can stand in a tag when reading its text gives it back.
pub open spec fn taggable(micros: i64) -> bool {
    text_timestamp(timestamp_text(micros)) == Some(micros)
}

/// Calls `Timestamp::from_micros(..).to_string()`: the `Display` text of the
/// timestamp, which is an RFC 3339 date and time in UTC from the year 0000 to
/// the start of the last day of the year 9999, and the bare count outside
/// that span. Nothing is claimed of the text but that it depends on the count
/// alone.
#[verifier::external_body]
fn print_timestamp(micros: i64) -> (text: String)
    ensures
        text@ == timestamp_text(micros),
{
    hdk::prelude::Timestamp::from_micros(micros).to_string()
}

/// Calls `Timestamp::try_from(&str)`, which parses an RFC 3339 date and time,
/// and hands out the microseconds of what it parsed, or nothing where the
/// parser refuses the text. Nothing is claimed of the result but that it
/// depends on the text alone.
#[verifier::external_body]
fn parse_timestamp(text: &str) -> (micros: Option<i64>)
    ensures
        micros == text_timestamp(text@),
{
    match hdk::prelude::Timestamp::try_from(text) {
        Ok(stamp) => Some(stamp.as_micros()),
        Err(_) => None,
    }
}

/// The tag text of a creation time, whether or not it can be read back.
pub fn tag_of(micros: i64) -> (tag: String)
    ensures
        tag@ == timestamp_text(micros),
{
    print_timestamp(micros)
}

/// The creation time that a tag carries, if it carries one.
pub fn created_at_of(tag: &String) -> (micros: Option<i64>)
    ensures
        micros == text_timestamp(tag@),
{
    parse_timestamp(tag.as_str())
}

/// What a tag holds, given what the parser made of it: the tag serves for a
/// record created at `micros` exactly when the parser read `micros` from it.
pub fn confirms(parsed: Option<i64>, micros: i64) -> (same: bool)
    ensures
        same == (parsed == Some(micros)),
{
    match parsed {
        Some(read) => read == micros,
        None => false,
    }
}

} // verus!
