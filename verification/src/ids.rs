//! Request and user identifiers, through the uuid crate.
//!
//! The rest of the crate holds identifiers as plain 128-bit values; these
//! are the only places where one is drawn, rendered or parsed.

use vstd::prelude::*;

verus! {

/// The canonical hyphenated rendering of a 128-bit identifier.
pub uninterp spec fn uuid_str_of(id: u128) -> Seq<char>;

/// What a string parses to as a 128-bit identifier, if anything.
pub uninterp spec fn uuid_parse_of(s: Seq<char>) -> Option<u128>;

/// Relies on uuid's `Uuid::new_v4` and `as_u128`: a freshly drawn random
/// identifier. Nothing is assumed about the value.
#[verifier::external_body]
pub fn fresh_id() -> u128 {
    uuid::Uuid::new_v4().as_u128()
}

/// Relies on uuid's `Uuid::from_u128` and `to_string`: the canonical
/// hyphenated rendering, a function of the identifier alone.
#[verifier::external_body]
pub fn uuid_string(id: u128) -> (r: String)
    ensures
        r@ == uuid_str_of(id),
{
    uuid::Uuid::from_u128(id).to_string()
}

/// Relies on uuid's `Uuid::parse_str` and `as_u128`: whether a string is
/// a well-formed identifier, and which, a function of the string alone.
#[verifier::external_body]
pub fn parse_uuid(s: &str) -> (r: Option<u128>)
    ensures
        r == uuid_parse_of(s@),
{
    match uuid::Uuid::parse_str(s) {
        Ok(u) => Some(u.as_u128()),
        Err(_) => None,
    }
}

} // verus!
