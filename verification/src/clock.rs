//! The wall clock, through `chrono`. Nothing is claimed of the times it
//! returns: the logic that uses them takes them as arguments.
use vstd::prelude::*;

verus! {

/// `chrono::Utc::now().to_rfc3339()`. The current time; nothing is stated of it.
#[verifier::external_body]
pub(crate) fn now_rfc3339() -> String {
    chrono::Utc::now().to_rfc3339()
}

/// `(chrono::Utc::now() + chrono::Duration::seconds(secs)).to_rfc3339()`.
/// A time `secs` seconds from now; nothing is stated of it.
#[verifier::external_body]
pub(crate) fn rfc3339_after_seconds(secs: u32) -> String {
    (chrono::Utc::now() + chrono::Duration::seconds(secs as i64)).to_rfc3339()
}

/// The most hours ahead a time may be asked for: 2,000,000,000 hours (about
/// 228,000 years) stay inside chrono's range (to year 262143) for any clock
/// reading before year 34,000.
pub const MAX_AHEAD_HOURS: u32 = 2_000_000_000;

/// `(chrono::Utc::now() + chrono::Duration::hours(hours)).to_rfc3339()`.
/// A time `hours` hours from now; nothing is stated of it. The addition
/// panics past chrono's last year, hence the bound on `hours`.
#[verifier::external_body]
pub(crate) fn rfc3339_after_hours(hours: u32) -> String
    requires
        hours <= MAX_AHEAD_HOURS,
{
    (chrono::Utc::now() + chrono::Duration::hours(hours as i64)).to_rfc3339()
}

/// `chrono::Utc::now().timestamp()`: seconds since the Unix epoch; nothing is stated of it.
#[verifier::external_body]
pub(crate) fn now_unix() -> i64 {
    chrono::Utc::now().timestamp()
}

/// Name for the Unix seconds of an RFC 3339 time, where the text is one.
pub uninterp spec fn rfc3339_seconds(text: Seq<char>) -> Option<int>;

/// `chrono::DateTime::parse_from_rfc3339(text)` and its `timestamp()`: the
/// whole seconds since the Unix epoch, or `None` where the text does not parse.
#[verifier::external_body]
pub(crate) fn parse_rfc3339_seconds(text: &str) -> (r: Option<i64>)
    ensures
        match r {
            Some(v) => rfc3339_seconds(text@) == Some(v as int),
            None => rfc3339_seconds(text@) is None,
        },
{
    chrono::DateTime::parse_from_rfc3339(text).ok().map(|d| d.timestamp())
}

} // verus!
