//! Trusted access to the clock and to RFC 3339 timestamp formatting.
//!
//! Timestamps are carried everywhere in this crate as milliseconds since the
//! Unix epoch (UTC); the conversions to and from their textual form are
//! delegated to the `chrono` crate behind the items in this module.

use vstd::prelude::*;

verus! {

/// Earliest representable timestamp: 0001-01-01T00:00:00Z in milliseconds.
pub const TS_MIN: i64 = -62135596800000;

/// Latest representable timestamp: 9999-12-31T23:59:59.999Z in milliseconds.
pub const TS_MAX: i64 = 253402300799999;

/// A timestamp whose year fits a plain four-digit RFC 3339 date.
pub open spec fn ts_ok(t: int) -> bool {
    TS_MIN as int <= t <= TS_MAX as int
}

/// The RFC 3339 rendering of a millisecond timestamp, as `chrono` writes it.
pub uninterp spec fn rfc3339_of(t: int) -> Seq<char>;

/// The millisecond timestamp an RFC 3339 string denotes, if it parses.
pub uninterp spec fn rfc3339_parse(s: Seq<char>) -> Option<int>;

/// The `YYYY-MM-DD` date of a millisecond timestamp.
pub uninterp spec fn date_of(t: int) -> Seq<char>;

/// The current wall-clock time in milliseconds since the Unix epoch.
///
/// Relies on `chrono::Utc::now`; nothing can be promised of the clock.
#[verifier::external_body]
pub(crate) fn now_millis() -> i64 {
    chrono::Utc::now().timestamp_millis()
}

/// Formats a millisecond timestamp as RFC 3339. Confined to four-digit
/// years: outside them the writer would emit an expanded year that the
/// RFC 3339 parser does not read back.
///
/// Relies on `chrono::DateTime::from_timestamp_millis` (documented to
/// accept at least the four-digit-year range) and on `to_rfc3339` together
/// with `parse_from_rfc3339`, which round-trip the instant for such years.
#[verifier::external_body]
pub(crate) fn format_rfc3339(t: i64) -> (r: String)
    requires
        ts_ok(t as int),
    ensures
        r@ == rfc3339_of(t as int),
        rfc3339_parse(r@) == Some(t as int),
{
    chrono::DateTime::from_timestamp_millis(t)
        .map(|dt| dt.to_rfc3339())
        .unwrap_or_default()
}

/// Parses an RFC 3339 string back to a millisecond timestamp.
///
/// Relies on `chrono::DateTime::parse_from_rfc3339`; the result is a
/// function of the string alone.
#[verifier::external_body]
pub(crate) fn parse_rfc3339(s: &str) -> (r: Option<i64>)
    ensures
        match r {
            Some(t) => rfc3339_parse(s@) == Some(t as int),
            None => rfc3339_parse(s@) is None,
        },
{
    chrono::DateTime::parse_from_rfc3339(s).ok().map(|dt| {
        dt.with_timezone(&chrono::Utc).timestamp_millis()
    })
}

/// Formats the date part of a millisecond timestamp as `YYYY-MM-DD`.
///
/// Relies on `chrono::DateTime::format`; the result is a function of the
/// timestamp alone. Out-of-range timestamps give an empty string.
#[verifier::external_body]
pub(crate) fn format_date(t: i64) -> (r: String)
    ensures
        ts_ok(t as int) ==> r@ == date_of(t as int),
{
    match chrono::DateTime::from_timestamp_millis(t) {
        Some(dt) => dt.format("%Y-%m-%d").to_string(),
        None => String::new(),
    }
}

} // verus!
