//! Points in time, as seconds since the Unix epoch, and their notation.
use vstd::prelude::*;

verus! {

/// The notation of a creation time.
pub const DATETIME_FORMAT: &'static str = "%Y-%m-%d %H:%M:%S";

/// Seconds in a day.
pub const DAY_SECONDS: i64 = 86_400;

/// The notation of a day in a search.
pub const DATE_FORMAT: &'static str = "%Y-%m-%d";

/// What `chrono::DateTime::format` writes, by `format`, for the point in time
/// `secs` seconds after the Unix epoch, in UTC; nothing where the calendar of
/// `chrono` does not reach that far.
pub uninterp spec fn utc_text(secs: i64, format: Seq<char>) -> Option<Seq<char>>;

/// The seconds since the Unix epoch of the date and time that
/// `chrono::NaiveDateTime::parse_from_str` reads from `text` by `format`, taken
/// as UTC.
pub uninterp spec fn datetime_seconds(text: Seq<char>, format: Seq<char>) -> Option<i64>;

/// The seconds since the Unix epoch at which the day begins that
/// `chrono::NaiveDate::parse_from_str` reads from `text` by `format`, taken as
/// UTC.
pub uninterp spec fn day_start(text: Seq<char>, format: Seq<char>) -> Option<i64>;

/// Calls `chrono::Utc::now` for the seconds since the Unix epoch. Nothing is
/// claimed of the outcome.
#[verifier::external_body]
pub(crate) fn unix_now() -> i64 {
    chrono::Utc::now().timestamp()
}

/// Calls `chrono::DateTime::from_timestamp` and `format`. Claimed: the outcome
/// depends on the arguments alone. Only the notation of a creation time is
/// admitted: on a faulty format `to_string` panics.
#[verifier::external_body]
pub(crate) fn format_utc(secs: i64, format: &str) -> (r: Option<String>)
    requires
        format@ == DATETIME_FORMAT@,
    ensures
        match r {
            Some(t) => utc_text(secs, format@) == Some(t@),
            None => utc_text(secs, format@) is None,
        },
{
    chrono::DateTime::from_timestamp(secs, 0).map(|d| d.format(format).to_string())
}

/// Calls `chrono::NaiveDateTime::parse_from_str`. Claimed: the outcome depends
/// on the arguments alone.
#[verifier::external_body]
pub(crate) fn parse_datetime(text: &str, format: &str) -> (r: Option<i64>)
    ensures
        r == datetime_seconds(text@, format@),
{
    chrono::NaiveDateTime::parse_from_str(text, format).ok().map(|d| d.and_utc().timestamp())
}

/// Calls `chrono::NaiveDate::parse_from_str` and takes the midnight at which the
/// day begins, as `and_time` with `chrono::NaiveTime::MIN` gives it. Claimed: the
/// outcome depends on the arguments alone.
#[verifier::external_body]
pub(crate) fn parse_day(text: &str, format: &str) -> (r: Option<i64>)
    ensures
        r == day_start(text@, format@),
{
    let day = chrono::NaiveDate::parse_from_str(text, format).ok();
    day.map(|d| d.and_time(chrono::NaiveTime::MIN).and_utc().timestamp())
}

} // verus!
