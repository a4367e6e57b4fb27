//! Durations as they are written: `30m`, `2h30m`.

use crate::number::{decimal, digits_value, int_value, is_digit, parse_digits, parse_int};
use crate::text::{chars_of, text_between, trim, trimmed};
use vstd::prelude::*;

verus! {

/// The seconds of a unit of time.
pub open spec fn secs_of(u: char) -> Option<i64> {
    if u == 's' {
        Some(1)
    } else if u == 'm' {
        Some(60)
    } else if u == 'h' {
        Some(3600)
    } else if u == 'd' {
        Some(86400)
    } else if u == 'w' {
        Some(604800)
    } else {
        None
    }
}

/// Gives the seconds of a unit of time.
pub fn unit_secs(u: char) -> (r: Option<i64>)
    ensures
        r == secs_of(u),
{
    match u {
        's' => Some(1),
        'm' => Some(60),
        'h' => Some(3600),
        'd' => Some(86400),
        'w' => Some(604800),
        _ => None,
    }
}

/// How many digits a text begins with.
pub open spec fn digit_run(s: Seq<char>) -> nat
    decreases s.len(),
{
    if s.len() == 0 || !is_digit(s[0]) {
        0
    } else {
        1 + digit_run(s.skip(1))
    }
}

/// The seconds of the terms of a duration, each a number and a unit, on top of `sum`.
pub open spec fn terms(s: Seq<char>, sum: int) -> Option<int>
    decreases s.len(),
{
    let n = digit_run(s) as int;
    if s.len() == 0 {
        Some(sum)
    } else if n == 0 || n >= s.len() {
        None
    } else {
        match (digits_value(s.take(n)), secs_of(s[n])) {
            (Some(v), Some(u)) => terms(s.skip(n + 1), sum + v * u),
            _ => None,
        }
    }
}

/// The seconds of a duration of one or more terms, where they fit.
pub open spec fn compound_secs(s: Seq<char>) -> Option<i64> {
    if trimmed(s).len() == 0 {
        None
    } else {
        match terms(trimmed(s), 0) {
            Some(v) if v <= i64::MAX => Some(v as i64),
            _ => None,
        }
    }
}

pub proof fn lemma_terms_grow(s: Seq<char>, sum: int)
    requires
        sum >= 0,
    ensures
        terms(s, sum) matches Some(v) ==> v >= sum,
    decreases s.len(),
{
    let n = digit_run(s) as int;
    if s.len() > 0 && 0 < n < s.len() {
        if let (Some(v), Some(u)) = (digits_value(s.take(n)), secs_of(s[n])) {
            assert(v * u >= 0) by (nonlinear_arith)
                requires
                    v >= 0,
                    u >= 0,
            ;
            lemma_terms_grow(s.skip(n + 1), sum + v * u);
        }
    }
}

/// How many digits a text begins with: as many as are followed by something else.
pub proof fn lemma_digit_run(s: Seq<char>, n: int)
    requires
        0 <= n <= s.len(),
        forall|i: int| 0 <= i < n ==> is_digit(#[trigger] s[i]),
        n < s.len() ==> !is_digit(s[n]),
    ensures
        digit_run(s) == n,
    decreases n,
{
    if n > 0 {
        assert forall|i: int| 0 <= i < n - 1 implies is_digit(#[trigger] s.skip(1)[i]) by {
            assert(is_digit(s[i + 1]));
        }
        lemma_digit_run(s.skip(1), n - 1);
    }
}

/// Reads a duration of one or more terms, in seconds.
pub fn parse_compound_secs(s: &str) -> (r: Option<i64>)
    ensures
        r == compound_secs(s@),
{
    let t = trim(s);
    let v = chars_of(t.as_str());
    let len: usize = v.len();
    if len == 0 {
        return None;
    }
    let ghost whole = t@;
    let mut sum: i64 = 0;
    let mut pos: usize = 0;
    assert(whole.skip(0) =~= whole);
    while pos < len
        invariant
            v@ == whole,
            len == whole.len(),
            len > 0,
            pos <= len,
            sum >= 0,
            whole == trimmed(s@),
            terms(whole, 0) == terms(whole.skip(pos as int), sum as int),
        decreases len - pos,
    {
        let ghost rest = whole.skip(pos as int);
        let mut end: usize = pos;
        while end < len && v[end] >= '0' && v[end] <= '9'
            invariant
                v@ == whole,
                len == whole.len(),
                pos <= end <= len,
                forall|i: int| pos <= i < end ==> is_digit(#[trigger] whole[i]),
            decreases len - end,
        {
            end = end + 1;
        }
        proof {
            assert forall|i: int| 0 <= i < end - pos implies is_digit(#[trigger] rest[i]) by {
                assert(is_digit(whole[pos + i]));
            }
            lemma_digit_run(rest, end - pos);
            assert(whole.subrange(pos as int, end as int) =~= rest.take(end - pos));
        }
        if end == pos || end == len {
            return None;
        }
        let u: i64 = match unit_secs(v[end]) {
            Some(u) => u,
            None => {
                return None;
            },
        };
        let n: u64 = match parse_digits(&v, pos, end, i64::MAX as u64) {
            Some(n) => n,
            None => {
                proof {
                    if let Some(value) = digits_value(rest.take(end - pos)) {
                        let next = sum + value * u;
                        assert(value * u >= value) by (nonlinear_arith)
                            requires
                                value >= 0,
                                u >= 1,
                        ;
                        lemma_terms_grow(rest.skip(end - pos + 1), next);
                    }
                }
                return None;
            },
        };
        let ghost next = sum + n * u;
        proof {
            assert(digits_value(rest.take(end - pos)) == Some(n as nat));
            assert(n * u >= 0) by (nonlinear_arith)
                requires
                    n >= 0,
                    u >= 0,
            ;
            lemma_terms_grow(rest.skip(end - pos + 1), next);
            assert(rest.skip(end - pos + 1) =~= whole.skip(end as int + 1));
        }
        let term: i64 = match (n as i64).checked_mul(u) {
            Some(t) => t,
            None => {
                return None;
            },
        };
        sum = match sum.checked_add(term) {
            Some(t) => t,
            None => {
                return None;
            },
        };
        pos = end + 1;
    }
    assert(whole.skip(pos as int).len() == 0);
    Some(sum)
}

/// The seconds of a duration of one term: a number and a unit, where a number that cannot be
/// read is zero and a unit that is none is the hour. A blank text and a duration that is too
/// long have none.
pub open spec fn single_secs(s: Seq<char>) -> Option<i64> {
    let t = trimmed(s);
    if t.len() == 0 {
        None
    } else {
        let n = match int_value(t.drop_last()) {
            Some(n) => n as int,
            None => 0,
        };
        let u = match secs_of(t.last()) {
            Some(u) => u as int,
            None => 3600,
        };
        if i64::MIN <= n * u <= i64::MAX {
            Some((n * u) as i64)
        } else {
            None
        }
    }
}

/// The seconds of a duration.
pub open spec fn secs_in(s: Seq<char>) -> Option<i64> {
    match compound_secs(s) {
        Some(v) => Some(v),
        None => single_secs(s),
    }
}

/// Reads a duration in seconds; there are none in a blank text, and none where they do not fit.
pub fn try_duration_secs(s: &str) -> (r: Option<i64>)
    ensures
        r == secs_in(s@),
{
    if let Some(v) = parse_compound_secs(s) {
        return Some(v);
    }
    let t = trim(s);
    let v = chars_of(t.as_str());
    if v.len() == 0 {
        return None;
    }
    let head = text_between(&v, 0, v.len() - 1);
    assert(head@ =~= t@.drop_last());
    let n: i64 = match parse_int(head.as_str()) {
        Some(n) => n,
        None => 0,
    };
    let u: i64 = match unit_secs(v[v.len() - 1]) {
        Some(u) => u,
        None => 3600,
    };
    n.checked_mul(u)
}

/// Reads a duration in seconds.
pub fn duration_secs(s: &str) -> (r: i64)
    requires
        secs_in(s@) is Some,
    ensures
        secs_in(s@) == Some(r),
{
    match try_duration_secs(s) {
        Some(v) => v,
        None => 0,
    }
}

proof fn lemma_digit_run_is_digits(s: Seq<char>)
    ensures
        digit_run(s) <= s.len(),
        forall|i: int| 0 <= i < digit_run(s) ==> is_digit(#[trigger] s[i]),
        digit_run(s) < s.len() ==> !is_digit(s[digit_run(s) as int]),
    decreases s.len(),
{
    if s.len() > 0 && is_digit(s[0]) {
        let rest = s.skip(1);
        lemma_digit_run_is_digits(rest);
        assert forall|i: int| 0 <= i < digit_run(s) implies is_digit(#[trigger] s[i]) by {
            if i > 0 {
                assert(is_digit(rest[i - 1]));
            }
        }
        if digit_run(s) < s.len() {
            assert(rest[digit_run(rest) as int] == s[digit_run(s) as int]);
        }
    }
}

/// Durations add up: the terms of one that is followed by another count on top of each other.
pub proof fn durations_add_up(a: Seq<char>, b: Seq<char>, sum: int)
    ensures
        terms(a, sum) matches Some(v) ==> terms(a + b, sum) == terms(b, v),
    decreases a.len(),
{
    if a.len() == 0 {
        assert(a + b =~= b);
    } else {
        let n = digit_run(a) as int;
        lemma_digit_run_is_digits(a);
        if 0 < n < a.len() {
            let whole = a + b;
            assert forall|i: int| 0 <= i < n implies is_digit(#[trigger] whole[i]) by {
                assert(is_digit(a[i]));
            }
            assert(whole[n] == a[n]);
            lemma_digit_run(whole, n);
            assert(whole.take(n) =~= a.take(n));
            assert(whole.skip(n + 1) =~= a.skip(n + 1) + b);
            if let (Some(v), Some(u)) = (digits_value(a.take(n)), secs_of(a[n])) {
                durations_add_up(a.skip(n + 1), b, sum + v * u);
            }
        }
    }
}

/// A number is written in digits.
pub proof fn lemma_decimal_is_digits(n: nat)
    ensures
        decimal(n).len() > 0,
        forall|i: int| 0 <= i < decimal(n).len() ==> is_digit(#[trigger] decimal(n)[i]),
    decreases n,
{
    if n >= 10 {
        lemma_decimal_is_digits(n / 10);
        let front = decimal(n / 10);
        assert forall|i: int| 0 <= i < decimal(n).len() implies is_digit(#[trigger] decimal(n)[i]) by {
            if i < front.len() {
                assert(is_digit(front[i]));
            }
        }
    }
}

/// A number of seconds that is written as a duration reads back as that number.
pub proof fn seconds_read_back(n: i64)
    requires
        n >= 0,
    ensures
        compound_secs(decimal(n as nat) + "s"@) == Some(n),
{
    reveal_strlit("s");
    let d = decimal(n as nat);
    let s = d + "s"@;
    lemma_decimal_is_digits(n as nat);
    crate::number::decimal_reads_back(n as nat);
    assert(is_digit(d[0]) && s[0] == d[0]);
    assert(s.last() == 's');
    assert(!crate::text::is_space(s[0]) && !crate::text::is_space(s.last()));
    assert(trimmed(s) == s);
    assert forall|i: int| 0 <= i < d.len() implies is_digit(#[trigger] s[i]) by {
        assert(is_digit(d[i]));
    }
    lemma_digit_run(s, d.len() as int);
    assert(s.take(d.len() as int) =~= d);
    assert(s.skip(d.len() as int + 1) =~= Seq::<char>::empty());
    assert(secs_of(s[d.len() as int]) == Some(1i64));
    assert((n as nat) * 1i64 == n);
    assert(terms(Seq::<char>::empty(), n as int) == Some(n as int));
    assert(terms(s, 0) == Some(n as int));
}

} // verus!
