//! Wall-clock instants, as the registry stamps its rows.

use vstd::prelude::*;

verus! {

/// An instant in UTC: seconds since the Unix epoch and the nanoseconds
/// within that second.
#[derive(Debug, Clone, Copy, PartialEq, Eq, Structural)]
pub struct Timestamp {
    pub secs: i64,
    pub nanos: u32,
}

/// The current time. Calls `chrono::Utc::now`; nothing is claimed of the
/// instant returned, which depends on the clock.
#[verifier::external_body]
pub fn now() -> (res: Timestamp) {
    let t = chrono::Utc::now();
    Timestamp { secs: t.timestamp(), nanos: t.timestamp_subsec_nanos() }
}

/// The UTC instant that `DateTime::parse_from_rfc3339` reads from a text,
/// if it accepts it (a function of the text alone).
pub uninterp spec fn rfc3339_instant(s: Seq<char>) -> Option<Timestamp>;

/// Reads an RFC 3339 timestamp. Calls `chrono::DateTime::parse_from_rfc3339`
/// and converts the result to UTC; the contract claims that the outcome is
/// the named reading of the text, with the error's display text on failure.
#[verifier::external_body]
pub fn parse_rfc3339(s: &str) -> (res: Result<Timestamp, String>)
    ensures
        res is Ok <==> rfc3339_instant(s@) is Some,
        res matches Ok(t) ==> rfc3339_instant(s@) == Some(t),
{
    match chrono::DateTime::parse_from_rfc3339(s) {
        Ok(dt) => {
            let t = dt.with_timezone(&chrono::Utc);
            Ok(Timestamp { secs: t.timestamp(), nanos: t.timestamp_subsec_nanos() })
        },
        Err(e) => Err(e.to_string()),
    }
}

} // verus!
