//! Instants in UTC, read from RFC 3339 text, and the current time.

use vstd::prelude::*;

verus! {

/// An instant: whole seconds since the Unix epoch and the nanoseconds past
/// that second.
#[derive(Clone, Copy, Debug, PartialEq, Eq, Structural)]
pub struct Timestamp {
    pub secs: i64,
    pub nanos: u32,
}

/// The instant that an RFC 3339 text denotes, as (seconds since the Unix
/// epoch, nanoseconds past that second), when the text is valid RFC 3339.
pub uninterp spec fn rfc3339_instant(text: Seq<char>) -> Option<(i64, u32)>;

/// `chrono::DateTime::parse_from_rfc3339`, taken as the instant it denotes:
/// `timestamp()` and `timestamp_subsec_nanos()` of the parsed value.
/// Believed: the result is `rfc3339_instant` of the text (a function of the
/// text alone); what that instant is for a given text is left to chrono.
#[verifier::external_body]
pub(crate) fn parse_rfc3339(text: &str) -> (res: Option<Timestamp>)
    ensures
        match rfc3339_instant(text@) {
            Some((s, n)) => res == Some(Timestamp { secs: s, nanos: n }),
            None => res is None,
        },
{
    match chrono::DateTime::parse_from_rfc3339(text) {
        Ok(d) => Some(Timestamp { secs: d.timestamp(), nanos: d.timestamp_subsec_nanos() }),
        Err(_) => None,
    }
}

/// Nanoseconds from `earlier` to `later`.
pub open spec fn elapsed_nanos(later: Timestamp, earlier: Timestamp) -> int {
    (later.secs - earlier.secs) * 1_000_000_000 + (later.nanos - earlier.nanos)
}

/// Nanoseconds from `earlier` to `later`, exactly.
pub fn nanos_between(later: Timestamp, earlier: Timestamp) -> (res: i128)
    ensures
        res == elapsed_nanos(later, earlier),
{
    let ds: i128 = later.secs as i128 - earlier.secs as i128;
    let dn: i128 = later.nanos as i128 - earlier.nanos as i128;
    ds * 1_000_000_000 + dn
}

} // verus!
