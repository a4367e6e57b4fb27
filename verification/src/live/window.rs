//! Windows of time: what the bounds of a query stand for.

use super::duration::{compound_secs, parse_compound_secs, secs_in, secs_of, try_duration_secs, unit_secs};
use crate::cli::TimeRange;
use crate::clock::{
    naive_instant, read_naive, read_rfc3339, rfc3339_instant, utc_text, write_utc, SECOND_FORM,
};
use crate::number::{all_digits, int_text, int_to_text, int_value, only_digits, parse_int, three_wide, to_three_wide};
use crate::text::{
    chars_of, cut_front, find_char, head_of, head_part, opt_text, owned, place_of, quote, quoted, text_between,
    trim, trim_front, trimmed, CharSet,
};
use vstd::prelude::*;

verus! {

/// Nanoseconds in a second.
pub const NANOS: i64 = 1_000_000_000;

/// How far back a relative time reaches, in nanoseconds, where the text is one: a number and a
/// unit, with hyphens in front or without.
pub open spec fn reach_ns(t: Seq<char>) -> Option<int> {
    match (secs_of(t.last()), int_value(cut_front(t.drop_last(), CharSet::Only('-')))) {
        (Some(u), Some(n)) => Some(n * u * NANOS),
        _ => None,
    }
}

/// Nanoseconds since the epoch that a run of digits stands for: nanoseconds from 18 digits on,
/// seconds below.
pub open spec fn epoch_ns(t: Seq<char>) -> int {
    let n = match int_value(t) {
        Some(n) => n as int,
        None => 0,
    };
    if t.len() > 17 {
        n
    } else {
        n * NANOS
    }
}

/// Nanoseconds since the epoch that a time stands for: now, a time relative to it, a number, a
/// time with an offset, which is `zoned`, or a time without one, which is `bare` and in UTC.
pub open spec fn ns_of(
    t: Seq<char>,
    now: int,
    zoned: Option<(i64, u32)>,
    bare: Option<(i64, u32)>,
) -> Result<int, Seq<char>> {
    if t.len() == 0 || t == "now"@ {
        Ok(now)
    } else if let Some(d) = reach_ns(t) {
        Ok(now - d)
    } else if all_digits(t) {
        Ok(epoch_ns(t))
    } else if let Some(p) = zoned {
        Ok(p.0 * NANOS + p.1)
    } else if let Some(p) = bare {
        Ok(p.0 * NANOS)
    } else {
        Err("cannot parse time "@ + quoted(t))
    }
}

/// Nanoseconds since the epoch that a time stands for, where they fit.
pub open spec fn fitting_ns(
    t: Seq<char>,
    now: i64,
    zoned: Option<(i64, u32)>,
    bare: Option<(i64, u32)>,
) -> Result<i64, Seq<char>> {
    match ns_of(t, now as int, zoned, bare) {
        Ok(v) => if i64::MIN <= v <= i64::MAX {
            Ok(v as i64)
        } else {
            Err("time out of range "@ + quoted(t))
        },
        Err(e) => Err(e),
    }
}

/// Nanoseconds since the epoch that a text stands for.
pub open spec fn instant_ns(s: Seq<char>, now: i64) -> Result<i64, Seq<char>> {
    let t = trimmed(s);
    fitting_ns(t, now, rfc3339_instant(t), naive_instant(head_part(t, '.'), SECOND_FORM@))
}

/// The view of a result whose error is a text.
pub open spec fn outcome<T>(r: Result<T, String>) -> Result<T, Seq<char>> {
    match r {
        Ok(v) => Ok(v),
        Err(e) => Err(e@),
    }
}

/// Takes a number of nanoseconds where it fits; `t` is the time that it stands for.
pub fn fit(v: i128, t: &str) -> (r: Result<i64, String>)
    ensures
        match r {
            Ok(n) => n == v,
            Err(e) => !(i64::MIN <= v <= i64::MAX) && e@ == "time out of range "@ + quoted(t@),
        },
{
    if v >= i64::MIN as i128 && v <= i64::MAX as i128 {
        Ok(v as i64)
    } else {
        let mut e = owned("time out of range ");
        e.append(quote(t).as_str());
        Err(e)
    }
}

fn find_reach(v: &Vec<char>) -> (r: Option<i128>)
    requires
        v@.len() > 0,
    ensures
        match r {
            Some(d) => reach_ns(v@) == Some(d as int) && -10_000_000_000_000_000_000_000_000_000_000_000 <= d
                <= 10_000_000_000_000_000_000_000_000_000_000_000,
            None => reach_ns(v@) is None,
        },
{
    let u: i64 = match unit_secs(v[v.len() - 1]) {
        Some(u) => u,
        None => {
            return None;
        },
    };
    let head = text_between(v, 0, v.len() - 1);
    assert(head@ =~= v@.drop_last());
    let n: i64 = match parse_int(trim_front(head.as_str(), CharSet::Only('-')).as_str()) {
        Some(n) => n,
        None => {
            return None;
        },
    };
    proof {
        assert(-10_000_000_000_000_000_000_000_000 <= n * u <= 10_000_000_000_000_000_000_000_000)
            by (nonlinear_arith)
            requires
                -9_223_372_036_854_775_808 <= n <= 9_223_372_036_854_775_807,
                1 <= u <= 604800,
        ;
    }
    Some(n as i128 * u as i128 * NANOS as i128)
}

/// Reads a time as nanoseconds since the epoch.
pub fn to_ns(s: &str, now: i64) -> (r: Result<i64, String>)
    ensures
        outcome(r) == instant_ns(s@, now),
{
    let t = trim(s);
    let zoned = read_rfc3339(t.as_str());
    let bare = read_naive(head_of(t.as_str(), '.').as_str(), SECOND_FORM);
    choose_ns(t.as_str(), now, zoned, bare)
}

/// Takes the nanoseconds that a time stands for, given what it reads as with an offset and
/// without one.
pub fn choose_ns(t: &str, now: i64, zoned: Option<(i64, u32)>, bare: Option<(i64, u32)>) -> (r: Result<
    i64,
    String,
>)
    ensures
        outcome(r) == fitting_ns(t@, now, zoned, bare),
{
    if t.is_empty() || *t == *"now" {
        return Ok(now);
    }
    let v = chars_of(t);
    if let Some(d) = find_reach(&v) {
        return fit(now as i128 - d, t);
    }
    if only_digits(t) {
        let n: i64 = match parse_int(t) {
            Some(n) => n,
            None => 0,
        };
        return if v.len() > 17 {
            Ok(n)
        } else {
            fit(n as i128 * NANOS as i128, t)
        };
    }
    if let Some(p) = zoned {
        return fit(p.0 as i128 * NANOS as i128 + p.1 as i128, t);
    }
    match bare {
        Some(p) => fit(p.0 as i128 * NANOS as i128, t),
        None => {
            let mut e = owned("cannot parse time ");
            e.append(quote(t).as_str());
            Err(e)
        },
    }
}

/// A quotient rounded toward zero.
pub open spec fn toward_zero(a: int, b: int) -> int {
    if a >= 0 {
        a / b
    } else {
        -((-a) / b)
    }
}

/// The second that a number of nanoseconds lies in, as milliseconds.
pub open spec fn second_of(ts_ns: i64) -> i64 {
    (toward_zero(ts_ns as int, NANOS as int) * 1000) as i64
}

/// The milliseconds of a number of nanoseconds beyond its second.
pub open spec fn millis_past(ts_ns: i64) -> int {
    toward_zero(ts_ns - toward_zero(ts_ns as int, NANOS as int) * NANOS, 1_000_000)
}

/// Writes a second, which is written already, with its milliseconds.
pub fn stamp(second: &str, ms: i64) -> (r: String)
    ensures
        r@ == second@ + "."@ + three_wide(ms as int) + "Z"@,
{
    let mut s = owned(second);
    s.append(".");
    s.append(to_three_wide(ms).as_str());
    s.append("Z");
    s
}

/// Writes nanoseconds since the epoch as a timestamp in UTC, to the millisecond.
pub fn iso_from_ns(ts_ns: i64) -> (r: String)
    ensures
        utc_text(second_of(ts_ns), SECOND_FORM@) is Some,
        r@ == utc_text(second_of(ts_ns), SECOND_FORM@)->0 + "."@ + three_wide(millis_past(ts_ns)) + "Z"@,
{
    let t: i128 = ts_ns as i128;
    let secs: i128 = if t >= 0 {
        t / 1_000_000_000
    } else {
        -((-t) / 1_000_000_000)
    };
    assert(secs == toward_zero(ts_ns as int, NANOS as int));
    let past: i128 = t - secs * 1_000_000_000;
    let ms: i128 = if past >= 0 {
        past / 1_000_000
    } else {
        -((-past) / 1_000_000)
    };
    assert(ms == millis_past(ts_ns));
    let at: i64 = (secs * 1000) as i64;
    assert(at == second_of(ts_ns));
    let second = match write_utc(at, SECOND_FORM) {
        Some(s) => s,
        None => String::new(),
    };
    stamp(second.as_str(), ms as i64)
}

/// A window of time, in nanoseconds since the epoch, and how it was asked for.
pub struct Window {
    pub start: i64,
    pub end: i64,
    pub label: String,
}

/// The model of a time range.
pub struct TimeRangeView {
    pub since: Seq<char>,
    pub start: Option<Seq<char>>,
    pub end: Seq<char>,
}

impl View for TimeRange {
    type V = TimeRangeView;

    open spec fn view(&self) -> TimeRangeView {
        TimeRangeView { since: self.since@, start: opt_text(self.start), end: self.end@ }
    }
}

/// The start of a window that ends at `end`: the time given, or as far back as asked.
pub open spec fn window_start(t: TimeRangeView, now: i64, end: i64) -> Result<i64, Seq<char>> {
    match t.start {
        Some(s) => instant_ns(s, now),
        None => match secs_in(t.since) {
            Some(d) => if i64::MIN <= end - d * NANOS <= i64::MAX {
                Ok((end - d * NANOS) as i64)
            } else {
                Err("duration out of range "@ + quoted(t.since))
            },
            None => Err("duration out of range "@ + quoted(t.since)),
        },
    }
}

/// The bounds of a window.
pub open spec fn window_bounds(t: TimeRangeView, now: i64) -> Result<(i64, i64), Seq<char>> {
    match instant_ns(t.end, now) {
        Err(e) => Err(e),
        Ok(end) => match window_start(t, now, end) {
            Err(e) => Err(e),
            Ok(start) => Ok((start, end)),
        },
    }
}

/// How a window was asked for.
pub open spec fn window_label(t: TimeRangeView) -> Seq<char> {
    match t.start {
        Some(s) => s + ".."@ + t.end,
        None => t.since + ".."@ + t.end,
    }
}

pub(crate) fn bad_duration(since: &str) -> (r: String)
    ensures
        r@ == "duration out of range "@ + quoted(since@),
{
    let mut e = owned("duration out of range ");
    e.append(quote(since).as_str());
    e
}

fn find_start(t: &TimeRange, now: i64, end: i64) -> (r: Result<i64, String>)
    ensures
        outcome(r) == window_start(t@, now, end),
{
    match &t.start {
        Some(s) => to_ns(s.as_str(), now),
        None => match try_duration_secs(t.since.as_str()) {
            Some(d) => {
                let at: i128 = end as i128 - d as i128 * NANOS as i128;
                if at >= i64::MIN as i128 && at <= i64::MAX as i128 {
                    Ok(at as i64)
                } else {
                    Err(bad_duration(t.since.as_str()))
                }
            },
            None => Err(bad_duration(t.since.as_str())),
        },
    }
}

/// Finds the window of a time range.
pub fn window(t: &TimeRange, now: i64) -> (r: Result<Window, String>)
    ensures
        match r {
            Ok(w) => window_bounds(t@, now) == Ok::<(i64, i64), Seq<char>>((w.start, w.end)) && w.label@
                == window_label(t@),
            Err(e) => window_bounds(t@, now) == Err::<(i64, i64), Seq<char>>(e@),
        },
{
    let end: i64 = match to_ns(t.end.as_str(), now) {
        Ok(end) => end,
        Err(e) => {
            return Err(e);
        },
    };
    let start: i64 = match find_start(t, now, end) {
        Ok(start) => start,
        Err(e) => {
            return Err(e);
        },
    };
    let mut label = match &t.start {
        Some(s) => owned(s.as_str()),
        None => owned(t.since.as_str()),
    };
    label.append("..");
    label.append(t.end.as_str());
    Ok(Window { start, end, label })
}

/// The seconds of the first range in brackets that a query holds, if any.
pub open spec fn range_secs(query: Seq<char>) -> Option<i64>
    decreases query.len(),
{
    match place_of(query, '[') {
        Some(i) if 0 <= i < query.len() => {
            let rest = query.skip(i + 1);
            match place_of(rest, ']') {
                Some(j) => match compound_secs(rest.take(j)) {
                    Some(v) => Some(v),
                    None => range_secs(rest),
                },
                None => None,
            }
        },
        _ => None,
    }
}

fn find_range_from(v: &Vec<char>, from: usize) -> (r: Option<i64>)
    requires
        from <= v@.len(),
    ensures
        r == range_secs(v@.skip(from as int)),
    decreases v@.len() - from,
{
    let ghost s = v@.skip(from as int);
    let rest = chars_of(text_between(v, from, v.len()).as_str());
    assert(rest@ =~= s);
    match find_char(&rest, '[') {
        Some(i) => {
            let after = chars_of(text_between(&rest, i + 1, rest.len()).as_str());
            assert(after@ =~= s.skip(i as int + 1));
            assert(v@.skip(from + i + 1) =~= s.skip(i as int + 1));
            match find_char(&after, ']') {
                Some(j) => {
                    let inner = text_between(&after, 0, j);
                    assert(inner@ =~= after@.take(j as int));
                    match parse_compound_secs(inner.as_str()) {
                        Some(d) => Some(d),
                        None => find_range_from(v, from + i + 1),
                    }
                },
                None => None,
            }
        },
        None => None,
    }
}

/// The warning about a metric query whose windows do not tile: its range is not its step.
pub open spec fn tiling_warning(query: Seq<char>, step: i64) -> Option<Seq<char>> {
    match range_secs(query) {
        Some(r) if r > step => Some(
            "warning: range "@ + int_text(r as int) + "s is longer than --step "@ + int_text(step as int)
                + "s — windows overlap, and summing the points over-counts"@,
        ),
        Some(r) if r < step => Some(
            "warning: range "@ + int_text(r as int) + "s is shorter than --step "@ + int_text(step as int)
                + "s — windows leave gaps, and summing the points undercounts"@,
        ),
        _ => None,
    }
}

/// Warns about a metric query whose windows do not tile.
pub fn warn_tiling(query: &str, step: i64) -> (r: Option<String>)
    ensures
        opt_text(r) == tiling_warning(query@, step),
{
    let v = chars_of(query);
    assert(v@.skip(0) =~= v@);
    let range: i64 = match find_range_from(&v, 0) {
        Some(r) => r,
        None => {
            return None;
        },
    };
    if range == step {
        return None;
    }
    let mut s = owned("warning: range ");
    s.append(int_to_text(range).as_str());
    if range > step {
        s.append("s is longer than --step ");
        s.append(int_to_text(step).as_str());
        s.append("s — windows overlap, and summing the points over-counts");
    } else {
        s.append("s is shorter than --step ");
        s.append(int_to_text(step).as_str());
        s.append("s — windows leave gaps, and summing the points undercounts");
    }
    Some(s)
}

/// A warning comes exactly where a query has a range and the range is not the step.
pub proof fn only_a_mismatch_is_warned_about(query: Seq<char>, step: i64)
    ensures
        tiling_warning(query, step) is Some <==> (range_secs(query) is Some && range_secs(query) != Some(step)),
{
}

} // verus!
