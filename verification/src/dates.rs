//! Calendar arithmetic at the edge of the library: parsing the datetime
//! strings the providers report, and rendering stored unix timestamps for
//! display. Both are pure functions of their arguments, computed by the
//! `chrono` crate and named here so that contracts can speak of them.

use vstd::prelude::*;

verus! {

/// The unix timestamp a datetime string parses to under a format string,
/// or nothing when it does not parse.
pub uninterp spec fn parsed_unix_of(value: Seq<char>, fmt: Seq<char>) -> Option<i64>;

/// Relies on `chrono::NaiveDateTime::parse_from_str` (and `and_utc().timestamp()`
/// to read the result out as unix seconds): parsing depends on the two
/// strings alone.
#[verifier::external_body]
pub(crate) fn parse_datetime_unix(value: &str, fmt: &str) -> (r: Option<i64>)
    ensures
        r == parsed_unix_of(value@, fmt@),
{
    match chrono::NaiveDateTime::parse_from_str(value, fmt) {
        Ok(dt) => Some(dt.and_utc().timestamp()),
        Err(_) => None,
    }
}

/// The display form of a unix timestamp (`YYYY-MM-DD HH:MM:SS`), or nothing
/// when the timestamp lies outside the representable calendar range.
pub uninterp spec fn timestamp_display_of(t: i64) -> Option<Seq<char>>;

/// Relies on `chrono::DateTime::from_timestamp` and the display form of
/// `chrono::NaiveDateTime`: the rendering depends on the timestamp alone.
#[verifier::external_body]
pub(crate) fn timestamp_display(t: i64) -> (r: Option<String>)
    ensures
        (match r {
            Some(s) => Some(s@),
            None => None,
        }) == timestamp_display_of(t),
{
    match chrono::DateTime::from_timestamp(t, 0) {
        Some(dt) => Some(dt.naive_utc().to_string()),
        None => None,
    }
}

/// The datetime format the team-solves endpoint reports.
pub open spec fn solve_date_fmt() -> Seq<char> {
    "%Y-%m-%dT%H:%M:%S%z"@
}

/// The datetime format the team-solves endpoint reports.
pub fn solve_date_format() -> (r: &'static str)
    ensures
        r@ == solve_date_fmt(),
{
    "%Y-%m-%dT%H:%M:%S%z"
}

/// The datetime format the per-user provider's activity feed reports.
pub open spec fn activity_date_fmt() -> Seq<char> {
    "%Y-%m-%dT%H:%M:%S.%Z"@
}

/// The datetime format the per-user provider's activity feed reports.
pub fn activity_date_format() -> (r: &'static str)
    ensures
        r@ == activity_date_fmt(),
{
    "%Y-%m-%dT%H:%M:%S.%Z"
}

} // verus!
