//! The trusted boundary to the chrono crate: the clock, and RFC 3339
//! parsing.

use vstd::prelude::*;

verus! {

/// The UTC milliseconds a well-formed RFC 3339 date-and-time text
/// denotes, or nothing for any other text; a function of the text
/// alone.
pub uninterp spec fn rfc3339_millis(s: Seq<char>) -> Option<i64>;

/// Relies on chrono's `DateTime::parse_from_rfc3339` and
/// `timestamp_millis`: what a fixed text parses to depends on the
/// text alone, and the UTC milliseconds of the parsed instant do not
/// depend on the offset the text spelled it in.
#[verifier::external_body]
pub(crate) fn parse_rfc3339_ms(s: &str) -> (r: Option<i64>)
    ensures
        r == rfc3339_millis(s@),
{
    match chrono::DateTime::parse_from_rfc3339(s) {
        Ok(dt) => Some(dt.with_timezone(&chrono::Utc).timestamp_millis()),
        Err(_) => None,
    }
}

/// Relies on chrono's `Utc::now`: the clock's current UTC instant in
/// milliseconds.  The result depends on the moment of the call, so
/// nothing is promised of it.
#[verifier::external_body]
pub(crate) fn now_ms() -> i64 {
    chrono::Utc::now().timestamp_millis()
}

} // verus!
