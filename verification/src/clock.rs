//! Time at the trusted boundary: reading the clock, and turning an
//! RFC 3339 timestamp text into epoch milliseconds.  Both calls go to
//! chrono; everything that decides on the values is verified code
//! that takes them as arguments.

use vstd::prelude::*;

verus! {

/// What chrono's RFC 3339 parser yields on a text, in epoch
/// milliseconds: nothing on a text it refuses.  The outcome depends
/// on the text alone.
pub uninterp spec fn rfc3339_millis(s: Seq<char>) -> Option<i64>;

/// Relies on `chrono::DateTime::parse_from_rfc3339` and
/// `timestamp_millis`: parses a timestamp text into epoch
/// milliseconds, or refuses it.
#[verifier::external_body]
pub fn parse_rfc3339_millis(s: &str) -> (r: Option<i64>)
    ensures
        r == rfc3339_millis(s@),
{
    match chrono::DateTime::parse_from_rfc3339(s) {
        Ok(dt) => Some(dt.timestamp_millis()),
        Err(_) => None,
    }
}

/// Relies on `chrono::Utc::now`: reads the clock in epoch
/// milliseconds.  Nothing is promised of the value read; every caller
/// states what holds whatever came back.
#[verifier::external_body]
pub fn now_millis() -> i64 {
    chrono::Utc::now().timestamp_millis()
}

/// The cutoff instant `days` days before the instant `now`, in epoch
/// milliseconds, saturating at the representable minimum.
pub open spec fn spec_cutoff(days: u32, now: i64) -> i64 {
    if now - days * 86_400_000 >= i64::MIN {
        (now - days * 86_400_000) as i64
    } else {
        i64::MIN
    }
}

/// The optional cutoff for an optional window.
pub open spec fn spec_cutoff_opt(days: Option<u32>, now: i64) -> Option<i64> {
    match days {
        Some(d) => Some(spec_cutoff(d, now)),
        None => None,
    }
}

/// Reads the clock and returns the cutoff `days` days before now:
/// whatever instant the clock read, the result is exactly that
/// instant's cutoff.
pub fn cutoff_for_days(days: u32) -> (r: i64)
    ensures
        exists|now: i64| r == spec_cutoff(days, now),
{
    let now = now_millis();
    let span: i64 = (days as i64) * 86_400_000;
    let r = if now >= i64::MIN + span {
        now - span
    } else {
        i64::MIN
    };
    proof {
        assert(r == spec_cutoff(days, now));
    }
    r
}

} // verus!
