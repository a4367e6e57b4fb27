//! Ranges: which span of time a dashboard is looked at over, and at which step.

use crate::clock::{
    day_start, naive_instant, read_day, read_naive, read_rfc3339, rfc3339_instant, rfc3339_text, write_rfc3339,
    DATE_FORM, FRACTION_FORM, MINUTE_FORM, SECOND_FORM,
};
use crate::live::duration::{compound_secs, parse_compound_secs};
use crate::live::window::outcome;
use crate::number::{all_digits, int_text, int_to_text, int_value, only_digits, parse_int};
use crate::text::{char_count, opt_str, owned, past_prefix, quote, quoted, strip_prefix, trim, trimmed};
use vstd::prelude::*;

verus! {

/// The second of a time without an offset, in one of the forms that it may have.
pub open spec fn plain_second(t: Seq<char>) -> Option<i64> {
    if let Some(p) = naive_instant(t, FRACTION_FORM@) {
        Some(p.0)
    } else if let Some(p) = naive_instant(t, SECOND_FORM@) {
        Some(p.0)
    } else if let Some(p) = naive_instant(t, MINUTE_FORM@) {
        Some(p.0)
    } else {
        day_start(t, DATE_FORM@)
    }
}

fn read_plain(t: &str) -> (r: Option<i64>)
    ensures
        r == plain_second(t@),
{
    if let Some(p) = read_naive(t, FRACTION_FORM) {
        return Some(p.0);
    }
    if let Some(p) = read_naive(t, SECOND_FORM) {
        return Some(p.0);
    }
    if let Some(p) = read_naive(t, MINUTE_FORM) {
        return Some(p.0);
    }
    read_day(t, DATE_FORM)
}

/// Seconds since the epoch that a time stands for: now, a time relative to it, a number of
/// seconds or, from 13 digits on, of milliseconds, a time with an offset, which is `zoned`, or a
/// time or a date without one, which is `bare` and in UTC.
pub open spec fn second_with(t: Seq<char>, now: i64, zoned: Option<i64>, bare: Option<i64>) -> Result<
    i64,
    Seq<char>,
> {
    if t.len() == 0 || t == "now"@ {
        Ok(now)
    } else if let Some(d) = past_prefix(t, "now-"@) {
        match compound_secs(d) {
            Some(secs) => Ok((now - secs) as i64),
            None => Err("unsupported Grafana date math "@ + quoted(t) + "; use --start/--since"@),
        }
    } else if all_digits(t) {
        match int_value(t) {
            Some(n) => Ok(
                if t.len() >= 13 {
                    (n as int / 1000) as i64
                } else {
                    n
                },
            ),
            None => Err("invalid timestamp "@ + quoted(t)),
        }
    } else if let Some(s) = zoned {
        Ok(s)
    } else if let Some(s) = bare {
        Ok(s)
    } else {
        Err("cannot parse time "@ + quoted(t))
    }
}

/// The second of a time with an offset.
pub open spec fn zoned_second(t: Seq<char>) -> Option<i64> {
    match rfc3339_instant(t) {
        Some(p) => Some(p.0),
        None => None,
    }
}

/// Seconds since the epoch that a text stands for.
pub open spec fn second_of(raw: Seq<char>, now: i64) -> Result<i64, Seq<char>> {
    let t = trimmed(raw);
    second_with(t, now, zoned_second(t), plain_second(t))
}

/// Reads a time as seconds since the epoch.
pub fn parse_time(raw: &str, now: i64) -> (r: Result<i64, String>)
    requires
        now >= 0,
    ensures
        outcome(r) == second_of(raw@, now),
{
    let t = trim(raw);
    let zoned = match read_rfc3339(t.as_str()) {
        Some(p) => Some(p.0),
        None => None,
    };
    choose_second(t.as_str(), now, zoned, read_plain(t.as_str()))
}

/// Takes the second that a time stands for, given what it reads as with an offset and without one.
pub fn choose_second(t: &str, now: i64, zoned: Option<i64>, bare: Option<i64>) -> (r: Result<i64, String>)
    requires
        now >= 0,
    ensures
        outcome(r) == second_with(t@, now, zoned, bare),
{
    if t.is_empty() || *t == *"now" {
        return Ok(now);
    }
    if let Some(d) = strip_prefix(t, "now-") {
        return match parse_compound_secs(d.as_str()) {
            Some(secs) => {
                proof {
                    lemma_compound_positive(d@);
                }
                Ok(now - secs)
            },
            None => {
                let mut e = owned("unsupported Grafana date math ");
                e.append(quote(t).as_str());
                e.append("; use --start/--since");
                Err(e)
            },
        };
    }
    if only_digits(t) {
        return match parse_int(t) {
            Some(n) => if char_count(t) >= 13 {
                proof {
                    lemma_digits_positive(t@);
                }
                Ok(n / 1000)
            } else {
                Ok(n)
            },
            None => {
                let mut e = owned("invalid timestamp ");
                e.append(quote(t).as_str());
                Err(e)
            },
        };
    }
    if let Some(s) = zoned {
        return Ok(s);
    }
    if let Some(s) = bare {
        return Ok(s);
    }
    let mut e = owned("cannot parse time ");
    e.append(quote(t).as_str());
    Err(e)
}

proof fn lemma_compound_positive(s: Seq<char>)
    ensures
        compound_secs(s) matches Some(v) ==> v >= 0,
{
    crate::live::duration::lemma_terms_grow(trimmed(s), 0);
}

proof fn lemma_digits_positive(s: Seq<char>)
    requires
        all_digits(s),
    ensures
        int_value(s) matches Some(v) ==> v >= 0,
{
    if s.len() > 0 {
        assert(crate::number::is_digit(s[0]));
    }
}

/// A duration that is not zero, or what is wrong with it; `flag` is the option it comes from.
pub open spec fn duration_in(raw: Seq<char>, flag: Seq<char>) -> Result<i64, Seq<char>> {
    match compound_secs(raw) {
        None => Err("invalid "@ + flag + " duration "@ + quoted(raw)),
        Some(v) => if v <= 0 {
            Err(flag + " must be positive"@)
        } else {
            Ok(v)
        },
    }
}

/// Reads a duration that is not zero.
pub fn positive_duration(raw: &str, flag: &str) -> (r: Result<i64, String>)
    ensures
        outcome(r) == duration_in(raw@, flag@),
{
    match parse_compound_secs(raw) {
        None => {
            let mut e = owned("invalid ");
            e.append(flag);
            e.append(" duration ");
            e.append(quote(raw).as_str());
            Err(e)
        },
        Some(v) => if v <= 0 {
            let mut e = owned(flag);
            e.append(" must be positive");
            Err(e)
        } else {
            Ok(v)
        },
    }
}

/// The bounds of a range as they are asked for: on the command line, and in the URL.
pub struct Asked<'a> {
    pub since: Option<&'a str>,
    pub start: Option<&'a str>,
    pub end: Option<&'a str>,
    pub url_from: Option<&'a str>,
    pub url_to: Option<&'a str>,
    pub step: Option<&'a str>,
}

/// The model of the bounds of a range as they are asked for.
pub struct AskedView {
    pub since: Option<Seq<char>>,
    pub start: Option<Seq<char>>,
    pub end: Option<Seq<char>>,
    pub url_from: Option<Seq<char>>,
    pub url_to: Option<Seq<char>>,
    pub step: Option<Seq<char>>,
}

impl<'a> View for Asked<'a> {
    type V = AskedView;

    open spec fn view(&self) -> AskedView {
        AskedView {
            since: opt_str(self.since),
            start: opt_str(self.start),
            end: opt_str(self.end),
            url_from: opt_str(self.url_from),
            url_to: opt_str(self.url_to),
            step: opt_str(self.step),
        }
    }
}

/// Whether the command line says anything on the range.
pub open spec fn on_command_line(a: AskedView) -> bool {
    a.since is Some || a.start is Some || a.end is Some
}

/// The text of the end of a range: the command line decides where it says anything on the range,
/// the URL elsewhere.
pub open spec fn end_text(a: AskedView) -> Seq<char> {
    let asked = if on_command_line(a) {
        a.end
    } else {
        a.url_to
    };
    match asked {
        Some(s) => s,
        None => "now"@,
    }
}

/// A point in time so many seconds before another, where it fits.
pub open spec fn before_end(end: i64, secs: i64) -> Result<i64, Seq<char>> {
    if end - secs >= i64::MIN {
        Ok((end - secs) as i64)
    } else {
        Err("time range out of bounds"@)
    }
}

/// The start of a range that has an end: the one given, or as far back as asked, or what the URL
/// says where the command line says nothing, or an hour before the end.
pub open spec fn start_of(a: AskedView, end: i64, now: i64) -> Result<i64, Seq<char>> {
    if let Some(s) = a.start {
        second_of(s, now)
    } else if let Some(s) = a.since {
        match duration_in(s, "--since"@) {
            Ok(d) => before_end(end, d),
            Err(e) => Err(e),
        }
    } else if let (false, Some(from)) = (on_command_line(a), a.url_from) {
        second_of(from, now)
    } else {
        before_end(end, 3600)
    }
}

/// The step that a range is looked at in where none is given: one that gives at most 500 points,
/// between a second and an hour.
pub open spec fn default_step(range: int) -> int {
    let s = (range + 499) / 500;
    if s < 1 {
        1
    } else if s > 3600 {
        3600
    } else {
        s
    }
}

/// The step of a range.
pub open spec fn step_in(a: AskedView, range: i64) -> Result<i64, Seq<char>> {
    match a.step {
        Some(s) => duration_in(s, "--step"@),
        None => Ok(default_step(range as int) as i64),
    }
}

/// A range with its step, or what is wrong with it: it starts before it ends, and is no shorter
/// than its step.
pub open spec fn stepped(a: AskedView, start: i64, end: i64) -> Result<(i64, i64, i64), Seq<char>> {
    if start >= end {
        Err("range start must be before end"@)
    } else if end - start > i64::MAX {
        Err("time range out of bounds"@)
    } else {
        let range = (end - start) as i64;
        match step_in(a, range) {
            Err(e) => Err(e),
            Ok(step) => if step > range {
                Err(
                    "--step "@ + int_text(step as int) + "s exceeds range "@ + int_text(range as int) + "s"@,
                )
            } else {
                Ok((start, end, step))
            },
        }
    }
}

/// The range that is asked for: its start, its end and its step in seconds.
pub open spec fn range_of(a: AskedView, now: i64) -> Result<(i64, i64, i64), Seq<char>> {
    match second_of(end_text(a), now) {
        Err(e) => Err(e),
        Ok(end) => match start_of(a, end, now) {
            Err(e) => Err(e),
            Ok(start) => stepped(a, start, end),
        },
    }
}

fn step_back(end: i64, secs: i64) -> (r: Result<i64, String>)
    requires
        secs >= 0,
    ensures
        outcome(r) == before_end(end, secs),
{
    match end.checked_sub(secs) {
        Some(s) => Ok(s),
        None => Err(owned("time range out of bounds")),
    }
}

fn find_start(a: &Asked, end: i64, now: i64) -> (r: Result<i64, String>)
    requires
        now >= 0,
    ensures
        outcome(r) == start_of(a@, end, now),
{
    if let Some(s) = a.start {
        return parse_time(s, now);
    }
    if let Some(s) = a.since {
        return match positive_duration(s, "--since") {
            Ok(d) => step_back(end, d),
            Err(e) => Err(e),
        };
    }
    if a.end.is_none() {
        if let Some(from) = a.url_from {
            return parse_time(from, now);
        }
    }
    step_back(end, 3600)
}

fn find_step(a: &Asked, range: i64) -> (r: Result<i64, String>)
    requires
        range > 0,
    ensures
        outcome(r) == step_in(a@, range),
{
    match a.step {
        Some(s) => positive_duration(s, "--step"),
        None => {
            let s: i128 = (range as i128 + 499) / 500;
            if s < 1 {
                Ok(1)
            } else if s > 3600 {
                Ok(3600)
            } else {
                Ok(s as i64)
            }
        },
    }
}

/// Finds the range that is asked for.
pub fn resolve_range(a: &Asked, now: i64) -> (r: Result<(i64, i64, i64), String>)
    requires
        now >= 0,
    ensures
        outcome(r) == range_of(a@, now),
{
    let from_cli = a.since.is_some() || a.start.is_some() || a.end.is_some();
    let asked = if from_cli {
        a.end
    } else {
        a.url_to
    };
    let end_raw: &str = match asked {
        Some(s) => s,
        None => "now",
    };
    let end: i64 = match parse_time(end_raw, now) {
        Ok(t) => t,
        Err(e) => {
            return Err(e);
        },
    };
    let start: i64 = match find_start(a, end, now) {
        Ok(t) => t,
        Err(e) => {
            return Err(e);
        },
    };
    if start >= end {
        return Err(owned("range start must be before end"));
    }
    let range: i64 = match end.checked_sub(start) {
        Some(d) => d,
        None => {
            return Err(owned("time range out of bounds"));
        },
    };
    let step: i64 = match find_step(a, range) {
        Ok(s) => s,
        Err(e) => {
            return Err(e);
        },
    };
    if step > range {
        let mut e = owned("--step ");
        e.append(int_to_text(step).as_str());
        e.append("s exceeds range ");
        e.append(int_to_text(range).as_str());
        e.append("s");
        return Err(e);
    }
    Ok((start, end, step))
}

/// A range starts before it ends, its length is a number of seconds that fits, and its step is
/// positive and no longer than it.
pub proof fn ranges_are_sound(a: AskedView, now: i64)
    ensures
        range_of(a, now) matches Ok((start, end, step)) ==> start < end && 0 < step <= end - start <= i64::MAX,
{
}

/// The step that is chosen where none is given leaves at most 500 whole steps in a range of up
/// to 500 hours, and is never longer than the range.
pub proof fn default_step_is_bounded(range: int)
    requires
        range > 0,
    ensures
        1 <= default_step(range) <= 3600,
        default_step(range) <= range,
        range <= 1_800_000 ==> range / default_step(range) <= 500,
{
    let s = default_step(range);
    let q = range / s;
    if range <= 1_800_000 {
        assert(s == (range + 499) / 500);
        assert(500 * s >= range);
        assert(q <= 500) by (nonlinear_arith)
            requires
                q == range / s,
                s >= 1,
                500 * s >= range,
                range > 0,
        ;
    }
}

/// Where the command line says anything on the range, the URL has no say in it.
pub proof fn command_line_decides_on_the_range(a: AskedView, b: AskedView, now: i64)
    requires
        on_command_line(a),
        a.since == b.since,
        a.start == b.start,
        a.end == b.end,
        a.step == b.step,
    ensures
        range_of(a, now) == range_of(b, now),
{
}

/// A second as a timestamp in UTC, or another text where the calendar has none.
pub open spec fn iso_text(seconds: i64, otherwise: Seq<char>) -> Seq<char> {
    match rfc3339_text(seconds) {
        Some(s) => s,
        None => otherwise,
    }
}

/// Writes a second as a timestamp in UTC, or takes another text where the calendar has none.
pub fn iso_seconds(seconds: i64, otherwise: &str) -> (r: String)
    ensures
        r@ == iso_text(seconds, otherwise@),
{
    match write_rfc3339(seconds) {
        Some(s) => s,
        None => owned(otherwise),
    }
}

} // verus!
