//! Wall-clock time and timestamp rendering, through the chrono crate.
//!
//! The rest of the crate works on plain millisecond timestamps; these are
//! the only places where the clock itself is read or a timestamp is
//! rendered.

use vstd::prelude::*;

verus! {

/// The RFC 3339 rendering of a millisecond timestamp, at UTC.
pub uninterp spec fn rfc3339_of(ms: i64) -> Seq<char>;

/// Relies on chrono's `Utc::now` and `timestamp_millis`: the current
/// time as milliseconds since the Unix epoch. Nothing is assumed about
/// the value.
#[verifier::external_body]
pub fn now_millis() -> i64 {
    chrono::Utc::now().timestamp_millis()
}

/// Relies on chrono's `DateTime::from_timestamp_millis` and `to_rfc3339`:
/// the rendering depends on the millisecond value alone. A value outside
/// the range chrono represents renders as the empty string.
#[verifier::external_body]
pub fn rfc3339_of_millis(ms: i64) -> (r: String)
    ensures
        r@ == rfc3339_of(ms),
{
    match chrono::DateTime::from_timestamp_millis(ms) {
        Some(dt) => dt.to_rfc3339(),
        None => String::new(),
    }
}

} // verus!
