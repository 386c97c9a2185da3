//! Calendar arithmetic delegated to `chrono`.
use vstd::prelude::*;

verus! {

/// An instant as whole seconds since the Unix epoch plus the sub-second
/// nanoseconds, as `chrono` reports them (`timestamp`, `timestamp_subsec_nanos`).
#[derive(Clone, Copy, Debug, PartialEq, Eq, Structural)]
pub struct Timestamp {
    pub secs: i64,
    pub nanos: u32,
}

/// Seconds from the Unix epoch back to `0001-01-01T00:00:00Z`, the zero
/// instant of the pipeline (719162 days of 86400 seconds).
pub open spec fn year_one_secs() -> int {
    -62_135_596_800
}

/// The instant that chrono parses out of an RFC 3339 text, if it parses.
pub uninterp spec fn rfc3339_instant(s: Seq<char>) -> Option<(i64, u32)>;

/// Calls `chrono::NaiveDate::from_ymd_opt(1, 1, 1)`, `and_hms_opt(0, 0, 0)` and
/// reads `and_utc().timestamp()`. The contract claims that chrono builds that
/// date and that its Unix timestamp is `year_one_secs()`.
#[verifier::external_body]
fn year_one_unix() -> (r: Option<i64>)
    ensures
        r == Some(year_one_secs() as i64),
{
    match chrono::NaiveDate::from_ymd_opt(1, 1, 1) {
        Some(d) => match d.and_hms_opt(0, 0, 0) {
            Some(t) => Some(t.and_utc().timestamp()),
            None => None,
        },
        None => None,
    }
}

/// `0001-01-01T00:00:00Z`, the zero instant.
pub fn zero_time() -> (t: Timestamp)
    ensures
        t.secs == year_one_secs(),
        t.nanos == 0,
{
    match year_one_unix() {
        Some(s) => Timestamp { secs: s, nanos: 0 },
        None => Timestamp { secs: -62_135_596_800i64, nanos: 0 },
    }
}

/// Calls `chrono::DateTime::parse_from_rfc3339` on `s` and, on success, reads
/// the instant's `timestamp()` and `timestamp_subsec_nanos()`. The contract
/// claims only that the result is a function of the text, named
/// `rfc3339_instant`.
#[verifier::external_body]
pub(crate) fn parse_rfc3339(s: &str) -> (r: Option<Timestamp>)
    ensures
        r is Some <==> rfc3339_instant(s@) is Some,
        r matches Some(t) ==> rfc3339_instant(s@) == Some((t.secs, t.nanos)),
{
    match chrono::DateTime::parse_from_rfc3339(s) {
        Ok(t) => Some(Timestamp { secs: t.timestamp(), nanos: t.timestamp_subsec_nanos() }),
        Err(_) => None,
    }
}

} // verus!
