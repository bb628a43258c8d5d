//! Timestamps as text, read by `chrono`.

use vstd::prelude::*;

verus! {

/// What `chrono::DateTime::parse_from_rfc3339` reads from a text, in
/// milliseconds since the epoch; none where it gives an error.
pub uninterp spec fn rfc3339_millis(text: Seq<char>) -> Option<i64>;

/// What `chrono::DateTime::parse_from_rfc3339` reads from a text, in
/// nanoseconds since the epoch; none where it gives an error, and where the
/// time does not fit into 64 bits of nanoseconds.
pub uninterp spec fn rfc3339_nanos(text: Seq<char>) -> Option<i64>;

/// `chrono::DateTime::parse_from_rfc3339` and `timestamp_millis`. The result
/// rests on the text alone and goes by the name `rfc3339_millis`.
#[verifier::external_body]
pub(crate) fn parse_millis(text: &str) -> (r: Option<i64>)
    ensures
        r == rfc3339_millis(text@),
{
    chrono::DateTime::parse_from_rfc3339(text).ok().map(|dt| dt.timestamp_millis())
}

/// `chrono::DateTime::parse_from_rfc3339` and `timestamp_nanos_opt`. The
/// result rests on the text alone and goes by the name `rfc3339_nanos`.
#[verifier::external_body]
pub(crate) fn parse_nanos(text: &str) -> (r: Option<i64>)
    ensures
        r == rfc3339_nanos(text@),
{
    chrono::DateTime::parse_from_rfc3339(text).ok().and_then(|dt| dt.timestamp_nanos_opt())
}

} // verus!
