//! Identifiers: UUIDs and their text.

use crate::text::{first_chars, take_chars};
use vstd::prelude::*;
use vstd::utf8::is_ascii_chars;

verus! {

/// The number that a text stands for as a UUID, where it is one.
pub uninterp spec fn uuid_value(text: Seq<char>) -> Option<u128>;

/// The lower-case hyphenated text of a UUID.
pub uninterp spec fn uuid_text(value: u128) -> Seq<char>;

/// `uuid::Uuid::parse_str`: the number that the text stands for, under a name. Whatever it
/// accepts is ASCII and has at least 32 characters.
#[verifier::external_body]
pub(crate) fn parse_uuid(text: &str) -> (r: Option<u128>)
    ensures
        r == uuid_value(text@),
        r is Some ==> is_ascii_chars(text@) && text@.len() >= 32,
{
    uuid::Uuid::parse_str(text).ok().map(|u| u.as_u128())
}

/// The `Display` of `uuid::Uuid`: the hyphenated text, under a name. It has 36 characters and
/// parses to the number again.
#[verifier::external_body]
pub(crate) fn format_uuid(value: u128) -> (r: String)
    ensures
        r@ == uuid_text(value),
        r@.len() == 36,
        uuid_value(r@) == Some(value),
{
    uuid::Uuid::from_u128(value).to_string()
}

/// `uuid::Uuid::new_v4`: a random UUID. Nothing is said of its value.
#[verifier::external_body]
pub(crate) fn random_uuid() -> u128 {
    uuid::Uuid::new_v4().as_u128()
}

/// Whether the text is a UUID.
pub open spec fn uuid_like(text: Seq<char>) -> bool {
    uuid_value(text) is Some
}

/// Whether the text is a UUID.
pub fn is_uuid(text: &str) -> (r: bool)
    ensures
        r == uuid_like(text@),
{
    parse_uuid(text).is_some()
}

/// The number that a text stands for as a UUID, where it is one.
pub fn uuid_number(text: &str) -> (r: Option<u128>)
    ensures
        r == uuid_value(text@),
{
    parse_uuid(text)
}

/// A new random id, as the text of a UUID.
pub fn fresh_id() -> (r: String)
    ensures
        uuid_like(r@),
        r@.len() == 36,
{
    format_uuid(random_uuid())
}

/// The first eight characters of an id.
pub open spec fn short(id: Seq<char>) -> Seq<char> {
    take_chars(id, 8)
}

/// The first eight characters of an id.
pub fn short_id(id: &str) -> (r: String)
    ensures
        r@ == short(id@),
{
    first_chars(id, 8)
}

} // verus!
