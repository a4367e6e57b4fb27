//! Laws of the times that bound a window, and of the warning about its steps.

use super::numbers::a_plus_sign_changes_nothing;
use super::texts::{a_whole_holds_its_middle, cutting_stops_at_the_first_other, trimmed_text_stays};
use crate::live::duration::{compound_secs, lemma_decimal_is_digits, secs_in, secs_of};
use crate::live::window::{fitting_ns, instant_ns, range_secs, tiling_warning};
use crate::number::{all_digits, decimal, int_text, is_digit};
use crate::text::{begins, cut_front, holds, is_space, lemma_place_of, place_of, quoted, trimmed, CharSet};
use vstd::prelude::*;

verus! {

/// A number of seconds, minutes, hours, days or weeks, with a hyphen in front of it or without,
/// is that long before now.
pub proof fn a_relative_time_is_that_long_ago(n: nat, unit: char, now: i64)
    requires
        secs_of(unit) is Some,
        n <= 0x7fff_ffff_ffff_ffff,
        now >= 0,
        n * secs_of(unit)->0 * 1_000_000_000 <= now,
    ensures
        instant_ns(decimal(n) + seq![unit], now) == Ok::<i64, Seq<char>>(
            (now - n * secs_of(unit)->0 * 1_000_000_000) as i64,
        ),
        instant_ns(seq!['-'] + decimal(n) + seq![unit], now) == Ok::<i64, Seq<char>>(
            (now - n * secs_of(unit)->0 * 1_000_000_000) as i64,
        ),
{
    reveal_strlit("now");
    let d = decimal(n);
    lemma_decimal_is_digits(n);
    a_plus_sign_changes_nothing(n);
    assert(is_digit(d[0]));
    let t = d + seq![unit];
    assert(t.last() == unit && t[0] == d[0]);
    assert(!is_space(unit) && !is_space(t[0]));
    trimmed_text_stays(t);
    assert(t.drop_last() =~= d);
    cutting_stops_at_the_first_other(d, CharSet::Only('-'));
    assert(t != "now"@) by {
        assert("now"@[0] == 'n');
    }
    let h = seq!['-'] + d;
    let s = h + seq![unit];
    assert(s.last() == unit && s[0] == '-');
    trimmed_text_stays(s);
    assert(s.drop_last() =~= h);
    assert(h[0] == '-' && h.skip(1) =~= d);
    assert(cut_front(h, CharSet::Only('-')) == d) by {
        assert(cut_front(h, CharSet::Only('-')) == cut_front(h.skip(1), CharSet::Only('-')));
    }
    assert(s != "now"@) by {
        assert("now"@[0] == 'n');
    }
}

/// Now is now, and so is nothing.
pub proof fn the_instant_now_is_now(now: i64)
    ensures
        instant_ns("now"@, now) == Ok::<i64, Seq<char>>(now),
        instant_ns(""@, now) == Ok::<i64, Seq<char>>(now),
{
    reveal_strlit("now");
    reveal_strlit("");
    assert(trimmed("now"@) == "now"@) by {
        trimmed_text_stays("now"@);
    }
    assert(trimmed(""@).len() == 0);
}

/// A number is seconds since the epoch, and one of eighteen digits or more nanoseconds.
pub proof fn a_number_is_seconds_or_nanoseconds(n: nat, now: i64)
    requires
        n <= 0x7fff_ffff_ffff_ffff,
        decimal(n).len() < 18 ==> n * 1_000_000_000 <= i64::MAX,
    ensures
        decimal(n).len() < 18 ==> instant_ns(decimal(n), now) == Ok::<i64, Seq<char>>((n * 1_000_000_000) as i64),
        decimal(n).len() >= 18 ==> instant_ns(decimal(n), now) == Ok::<i64, Seq<char>>(n as i64),
{
    reveal_strlit("now");
    let t = decimal(n);
    lemma_decimal_is_digits(n);
    a_plus_sign_changes_nothing(n);
    assert(is_digit(t[0]) && is_digit(t[t.len() - 1]));
    assert(!is_space(t[0]) && !is_space(t.last()));
    trimmed_text_stays(t);
    assert(secs_of(t.last()) is None);
    assert(t != "now"@) by {
        assert("now"@[0] == 'n');
    }
}

/// A time that is written out is the instant that it reads as: with its offset where it has one,
/// and else in UTC to the second; what reads as neither is refused by name.
pub proof fn a_time_that_is_written_out_is_its_instant(
    t: Seq<char>,
    now: i64,
    zoned: Option<(i64, u32)>,
    bare: Option<(i64, u32)>,
)
    requires
        t.len() > 0,
        t != "now"@,
        secs_of(t.last()) is None,
        !all_digits(t),
    ensures
        zoned matches Some(p) ==> i64::MIN <= p.0 * 1_000_000_000 + p.1 <= i64::MAX ==> fitting_ns(t, now, zoned, bare)
            == Ok::<i64, Seq<char>>((p.0 * 1_000_000_000 + p.1) as i64),
        zoned is None ==> (bare matches Some(p) ==> i64::MIN <= p.0 * 1_000_000_000 <= i64::MAX ==> fitting_ns(
            t,
            now,
            zoned,
            bare,
        ) == Ok::<i64, Seq<char>>((p.0 * 1_000_000_000) as i64)),
        zoned is None && bare is None ==> (fitting_ns(t, now, zoned, bare) matches Err(e) && holds(e, quoted(t))),
{
    if zoned is None && bare is None {
        let e = fitting_ns(t, now, zoned, bare)->Err_0;
        a_whole_holds_its_middle("cannot parse time "@, quoted(t), Seq::<char>::empty());
        assert(e =~= "cannot parse time "@ + quoted(t) + Seq::<char>::empty());
    }
}

/// A metric query is warned about exactly where the range in its brackets is not the step: that
/// its windows overlap where the range is longer, and that they leave gaps where it is shorter.
pub proof fn windows_must_tile(front: Seq<char>, range: Seq<char>, rest: Seq<char>, secs: i64, step: i64)
    requires
        !front.contains('['),
        !range.contains(']'),
        compound_secs(range) == Some(secs),
    ensures
        range_secs(front + "["@ + range + "]"@ + rest) == Some(secs),
        secs == step ==> tiling_warning(front + "["@ + range + "]"@ + rest, step) is None,
        secs > step ==> (tiling_warning(front + "["@ + range + "]"@ + rest, step) matches Some(w) && begins(
            w,
            "warning: range "@ + int_text(secs as int) + "s is longer than --step "@ + int_text(step as int),
        )),
        secs < step ==> (tiling_warning(front + "["@ + range + "]"@ + rest, step) matches Some(w) && begins(
            w,
            "warning: range "@ + int_text(secs as int) + "s is shorter than --step "@ + int_text(step as int),
        )),
{
    reveal_strlit("[");
    reveal_strlit("]");
    let q = front + "["@ + range + "]"@ + rest;
    let i = front.len() as int;
    lemma_place_of(q, '[');
    assert(q[i] == '[');
    assert forall|j: int| 0 <= j < i implies q[j] != '[' by {
        assert(q[j] == front[j]);
        assert(front.contains(front[j]));
    }
    assert(place_of(q, '[') == Some(i));
    let after = q.skip(i + 1);
    assert(after =~= range + "]"@ + rest);
    let k = range.len() as int;
    lemma_place_of(after, ']');
    assert(after[k] == ']');
    assert forall|j: int| 0 <= j < k implies after[j] != ']' by {
        assert(after[j] == range[j]);
        assert(range.contains(range[j]));
    }
    assert(place_of(after, ']') == Some(k));
    assert(after.take(k) =~= range);
    assert(range_secs(q) == Some(secs));
    if secs != step {
        let w = tiling_warning(q, step)->0;
        let mid = if secs > step {
            "s is longer than --step "@
        } else {
            "s is shorter than --step "@
        };
        let head = "warning: range "@ + int_text(secs as int) + mid + int_text(step as int);
        let tail = if secs > step {
            "s — windows overlap, and summing the points over-counts"@
        } else {
            "s — windows leave gaps, and summing the points undercounts"@
        };
        a_whole_holds_its_middle(head, tail, Seq::<char>::empty());
        assert(w =~= head + tail + Seq::<char>::empty());
    }
}

/// A duration with a letter that is no unit is in hours, and a blank one is none.
pub proof fn a_duration_without_a_unit_is_in_hours(n: nat, letter: char)
    requires
        secs_of(letter) is None,
        !is_digit(letter),
        !is_space(letter),
        n * 3600 <= i64::MAX,
    ensures
        secs_in(decimal(n) + seq![letter]) == Some((n * 3600) as i64),
{
    let d = decimal(n);
    let s = d + seq![letter];
    lemma_decimal_is_digits(n);
    a_plus_sign_changes_nothing(n);
    assert(is_digit(d[0]) && s[0] == d[0] && s.last() == letter);
    trimmed_text_stays(s);
    assert(s.drop_last() =~= d);
    assert forall|i: int| 0 <= i < d.len() implies is_digit(#[trigger] s[i]) by {
        assert(is_digit(d[i]));
    }
    crate::live::duration::lemma_digit_run(s, d.len() as int);
    assert(s[d.len() as int] == letter);
}

} // verus!
