//! Points in time: seconds since the epoch, and their calendar forms, as chrono gives them.

use crate::text::opt_text;
use vstd::prelude::*;

verus! {

/// A date and a time of day to the second.
pub const SECOND_FORM: &'static str = "%Y-%m-%dT%H:%M:%S";

/// A date and a time of day with a fraction.
pub const FRACTION_FORM: &'static str = "%Y-%m-%dT%H:%M:%S%.f";

/// A date and a time of day to the minute.
pub const MINUTE_FORM: &'static str = "%Y-%m-%dT%H:%M";

/// A date.
pub const DATE_FORM: &'static str = "%Y-%m-%d";

/// A day of the year and a time of day, for the timeline.
pub const SHORT_FORM: &'static str = "%m-%d %H:%M:%S";

/// Whether chrono can reach a number of seconds from the epoch.
pub open spec fn in_calendar(secs: int) -> bool {
    -8_400_000_000_000 <= secs <= 8_400_000_000_000
}

/// The point in time that chrono reads from a text without an offset, taken as UTC: seconds
/// since the epoch and nanoseconds.
pub uninterp spec fn naive_instant(text: Seq<char>, form: Seq<char>) -> Option<(i64, u32)>;

/// Calls `chrono::NaiveDateTime::parse_from_str` and gives the point in UTC. The result
/// depends on the text and the form alone, and lies in chrono's calendar; the nanoseconds
/// stay below two seconds.
#[verifier::external_body]
pub(crate) fn read_naive(text: &str, form: &str) -> (r: Option<(i64, u32)>)
    ensures
        r == naive_instant(text@, form@),
        r matches Some(t) ==> in_calendar(t.0 as int) && t.1 < 2_000_000_000,
{
    chrono::NaiveDateTime::parse_from_str(text, form).ok().map(
        |d| (d.and_utc().timestamp(), d.and_utc().timestamp_subsec_nanos()),
    )
}

/// The point in time that chrono reads from a text in RFC 3339 form.
pub uninterp spec fn rfc3339_instant(text: Seq<char>) -> Option<(i64, u32)>;

/// Calls `chrono::DateTime::parse_from_rfc3339`. The result depends on the text alone, and
/// lies in chrono's calendar; the nanoseconds stay below two seconds.
#[verifier::external_body]
pub(crate) fn read_rfc3339(text: &str) -> (r: Option<(i64, u32)>)
    ensures
        r == rfc3339_instant(text@),
        r matches Some(t) ==> in_calendar(t.0 as int) && t.1 < 2_000_000_000,
{
    chrono::DateTime::parse_from_rfc3339(text).ok().map(
        |d| (d.timestamp(), d.timestamp_subsec_nanos()),
    )
}

/// The start in UTC of the day that chrono reads from a text.
pub uninterp spec fn day_start(text: Seq<char>, form: Seq<char>) -> Option<i64>;

/// Calls `chrono::NaiveDate::parse_from_str` and gives midnight UTC of that day. The result
/// depends on the text and the form alone, and lies in chrono's calendar.
#[verifier::external_body]
pub(crate) fn read_day(text: &str, form: &str) -> (r: Option<i64>)
    ensures
        r == day_start(text@, form@),
        r matches Some(t) ==> in_calendar(t as int),
{
    chrono::NaiveDate::parse_from_str(text, form).ok().and_then(|d| d.and_hms_opt(0, 0, 0)).map(
        |d| d.and_utc().timestamp(),
    )
}

/// A point in time in UTC, given in milliseconds, written in a form; `None` where chrono's
/// calendar does not reach.
pub uninterp spec fn utc_text(millis: i64, form: Seq<char>) -> Option<Seq<char>>;

/// Calls `chrono::TimeZone::timestamp_millis_opt` for UTC and writes the point with
/// `format`. The result depends on the arguments alone. An unknown form would make `format`
/// panic, so it takes two of the forms above; the calendar reaches a quarter of a million
/// years either way.
#[verifier::external_body]
pub(crate) fn write_utc(millis: i64, form: &str) -> (r: Option<String>)
    requires
        form@ == SECOND_FORM@ || form@ == SHORT_FORM@,
    ensures
        opt_text(r) == utc_text(millis, form@),
        -8_000_000_000_000_000 <= millis <= 8_000_000_000_000_000 ==> r is Some,
{
    chrono::TimeZone::timestamp_millis_opt(&chrono::Utc, millis).single().map(
        |d| d.format(form).to_string(),
    )
}

/// A point in time in UTC, given in seconds, in RFC 3339 form; `None` where chrono's calendar
/// does not reach.
pub uninterp spec fn rfc3339_text(secs: i64) -> Option<Seq<char>>;

/// Calls `chrono::TimeZone::timestamp_opt` for UTC and writes the point with
/// `to_rfc3339_opts`, to the second and with a `Z`. The result depends on the seconds alone.
#[verifier::external_body]
pub(crate) fn write_rfc3339(secs: i64) -> (r: Option<String>)
    ensures
        opt_text(r) == rfc3339_text(secs),
{
    chrono::TimeZone::timestamp_opt(&chrono::Utc, secs, 0).single().map(
        |d| d.to_rfc3339_opts(chrono::SecondsFormat::Secs, true),
    )
}

} // verus!
