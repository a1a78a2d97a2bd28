//! Trusted wrappers around the chrono calls the codec relies on for datetime
//! parsing and formatting. Verified code sees their results only through the
//! uninterpreted names declared here: both are functions of their byte
//! arguments alone.

use std::fmt::Write;
use vstd::prelude::*;

verus! {

/// The epoch-millisecond value that parsing `field` against `pattern` as a
/// naive date/time (interpreted as UTC) yields, or `None` where the field
/// does not parse against the pattern or either argument is not valid UTF-8.
/// A pattern with no time components yields midnight of the parsed date.
pub uninterp spec fn dt_parse_spec(field: Seq<u8>, pattern: Seq<u8>) -> Option<i64>;

/// Relies on chrono's `NaiveDateTime::parse_from_str` (with a fallback to
/// `NaiveDate::parse_from_str` at midnight for date-only patterns) and
/// `NaiveDateTime::and_utc`: the result depends on the field and pattern
/// bytes alone, and the naive timestamp is normalized to UTC.
#[verifier::external_body]
pub(crate) fn parse_datetime(field: &Vec<u8>, pattern: &Vec<u8>) -> (r: Option<i64>)
    ensures
        r == dt_parse_spec(field@, pattern@),
{
    let f = match core::str::from_utf8(field) {
        Ok(s) => s,
        Err(_) => return None,
    };
    let p = match core::str::from_utf8(pattern) {
        Ok(s) => s,
        Err(_) => return None,
    };
    if let Ok(dt) = chrono::NaiveDateTime::parse_from_str(f, p) {
        return Some(dt.and_utc().timestamp_millis());
    }
    match chrono::NaiveDate::parse_from_str(f, p) {
        Ok(d) => d.and_hms_opt(0, 0, 0).map(|dt| dt.and_utc().timestamp_millis()),
        Err(_) => None,
    }
}

/// The text that formatting the UTC timestamp `millis` (epoch milliseconds)
/// under `pattern` yields, or `None` where the timestamp is outside chrono's
/// representable range or the pattern is invalid or not valid UTF-8.
pub uninterp spec fn dt_format_spec(millis: i64, pattern: Seq<u8>) -> Option<Seq<u8>>;

/// Relies on chrono's `DateTime::<Utc>::from_timestamp_millis` and the
/// `Display` of `DateTime::format`, which reports an error (rather than
/// panicking) on a malformed pattern: the result depends on the timestamp
/// and pattern bytes alone.
#[verifier::external_body]
pub(crate) fn format_datetime(millis: i64, pattern: &Vec<u8>) -> (r: Option<Vec<u8>>)
    ensures
        r is Some <==> dt_format_spec(millis, pattern@) is Some,
        r matches Some(v) ==> Some(v@) == dt_format_spec(millis, pattern@),
{
    let p = match core::str::from_utf8(pattern) {
        Ok(s) => s,
        Err(_) => return None,
    };
    let dt = match chrono::DateTime::<chrono::Utc>::from_timestamp_millis(millis) {
        Some(dt) => dt,
        None => return None,
    };
    let mut out = String::new();
    match write!(out, "{}", dt.format(p)) {
        Ok(()) => Some(out.into_bytes()),
        Err(_) => None,
    }
}

} // verus!
