//! Laws of numbers as text, of the order of texts, and of the ends of texts.

use crate::live::duration::lemma_decimal_is_digits;
use crate::number::{
    all_digits, decimal, decimal_reads_back, digits_value, int_value, is_digit, right_set, run_of, three_wide,
    unsigned_part,
};
use crate::order::text_before;
use crate::patterns::woven;
use crate::text::{ascii_lower, ascii_lowered, begins, ends, first_chars, joined, last_chars, past_prefix};
use vstd::prelude::*;

verus! {

/// A text is set right in a field: it stands at the end, nothing but spaces stands before it, and
/// the field is as wide as is asked for unless the text is wider.
pub proof fn setting_right_fills_with_spaces(s: Seq<char>, width: int)
    ensures
        right_set(s, width).len() == if s.len() < width {
            width
        } else {
            s.len() as int
        },
        ends(right_set(s, width), s),
        forall|i: int| 0 <= i < width - s.len() ==> #[trigger] right_set(s, width)[i] == ' ',
{
    let r = right_set(s, width);
    assert(r.subrange(r.len() - s.len(), r.len() as int) =~= s);
}

/// A run is as long as is asked for and has one character all along.
pub proof fn a_run_has_one_character(c: char, n: nat)
    ensures
        run_of(c, n as int).len() == n,
        forall|i: int| 0 <= i < n ==> #[trigger] run_of(c, n as int)[i] == c,
{
}

proof fn lemma_zeros(n: int, s: Seq<char>)
    requires
        n >= 0,
    ensures
        digits_value(run_of('0', n) + s) == digits_value(s),
    decreases n + s.len(),
{
    let whole = run_of('0', n) + s;
    if s.len() > 0 {
        assert(whole.drop_last() =~= run_of('0', n) + s.drop_last());
        assert(whole.last() == s.last());
        lemma_zeros(n, s.drop_last());
    } else if n > 0 {
        assert(whole.drop_last() =~= run_of('0', n - 1) + s);
        assert(whole.last() == '0');
        lemma_zeros(n - 1, s);
        assert(digits_value(s) == Some(0nat));
    } else {
        assert(whole =~= s);
    }
}

proof fn lemma_narrow(n: nat)
    requires
        n < 1000,
    ensures
        1 <= decimal(n).len() <= 3,
{
    if n >= 10 {
        if n >= 100 {
            assert(n / 100 < 10);
            assert(decimal(n / 100).len() == 1);
            assert((n / 10) / 10 == n / 100);
            assert(decimal(n / 10).len() == 2);
        } else {
            assert(decimal(n / 10).len() == 1);
        }
    }
}

/// A number below a thousand is written three digits wide, and reads back.
pub proof fn three_digits_read_back(n: nat)
    requires
        n < 1000,
    ensures
        three_wide(n as int).len() == 3,
        digits_value(three_wide(n as int)) == Some(n),
{
    lemma_narrow(n);
    decimal_reads_back(n);
    lemma_zeros(3 - decimal(n).len(), decimal(n));
}

proof fn lemma_digits(s: Seq<char>)
    ensures
        digits_value(s) is Some <==> all_digits(s),
    decreases s.len(),
{
    if s.len() > 0 {
        let front = s.drop_last();
        lemma_digits(front);
        if all_digits(s) {
            assert forall|i: int| 0 <= i < front.len() implies is_digit(#[trigger] front[i]) by {
                assert(is_digit(s[i]));
            }
            assert(is_digit(s[s.len() - 1]));
        }
        if digits_value(s) is Some {
            assert forall|i: int| 0 <= i < s.len() implies is_digit(#[trigger] s[i]) by {
                if i < front.len() {
                    assert(is_digit(front[i]));
                }
            }
        }
    }
}

/// What reads as a number is digits and at most a sign in front of them.
pub proof fn a_number_is_digits(s: Seq<char>)
    ensures
        int_value(s) is Some ==> (all_digits(s) && s.len() > 0) || (s.len() > 1 && (s[0] == '-' || s[0] == '+')
            && all_digits(s.skip(1))),
{
    lemma_digits(unsigned_part(s));
}

/// A number with a plus sign is that number.
pub proof fn a_plus_sign_changes_nothing(n: nat)
    requires
        n <= 0x7fff_ffff_ffff_ffff,
    ensures
        int_value(seq!['+'] + decimal(n)) == Some(n as i64),
        int_value(decimal(n)) == Some(n as i64),
        int_value(seq!['-'] + decimal(n)) == Some((-n) as i64),
{
    decimal_reads_back(n);
    lemma_decimal_is_digits(n);
    assert((seq!['+'] + decimal(n)).skip(1) =~= decimal(n));
    assert((seq!['-'] + decimal(n)).skip(1) =~= decimal(n));
    assert(is_digit(decimal(n)[0]));
}

/// Two texts are ordered by the first characters in which they differ, and a text comes before
/// every longer one that begins with it.
pub proof fn the_first_difference_decides(front: Seq<char>, a: char, x: Seq<char>, b: char, y: Seq<char>)
    ensures
        a < b ==> text_before(front.push(a) + x, front.push(b) + y) && !text_before(front.push(b) + y, front.push(a) + x),
        text_before(front, front.push(a) + x),
        !text_before(front.push(a) + x, front),
    decreases front.len(),
{
    let p = front.push(a) + x;
    let q = front.push(b) + y;
    if front.len() > 0 {
        let rest = front.skip(1);
        the_first_difference_decides(rest, a, x, b, y);
        assert(p.skip(1) =~= rest.push(a) + x);
        assert(q.skip(1) =~= rest.push(b) + y);
        assert(p[0] == front[0] && q[0] == front[0]);
    } else {
        assert(p[0] == a && q[0] == b);
    }
}

/// The first characters of a text and the rest of it make the text, and so do its last ones and
/// what stands before them.
pub proof fn the_ends_of_a_text_are_its_own(s: Seq<char>, n: int)
    requires
        0 <= n,
    ensures
        begins(s, first_chars(s, n)),
        ends(s, last_chars(s, n)),
        first_chars(s, n).len() == if s.len() < n {
            s.len() as int
        } else {
            n
        },
        last_chars(s, n).len() == first_chars(s, n).len(),
{
    let a = first_chars(s, n);
    let b = last_chars(s, n);
    assert(s.subrange(0, a.len() as int) =~= a);
    assert(s.subrange(s.len() - b.len(), s.len() as int) =~= b);
}

/// What follows a prefix is the rest of the text, and nothing follows one that is not there.
pub proof fn a_prefix_is_cut_off(prefix: Seq<char>, s: Seq<char>)
    ensures
        past_prefix(prefix + s, prefix) == Some(s),
        past_prefix(s, prefix) matches Some(rest) ==> s == prefix + rest,
{
    let whole = prefix + s;
    assert(whole.subrange(0, prefix.len() as int) =~= prefix);
    assert(whole.skip(prefix.len() as int) =~= s);
    if let Some(rest) = past_prefix(s, prefix) {
        assert(s.subrange(0, prefix.len() as int) == prefix);
        assert(s =~= s.subrange(0, prefix.len() as int) + rest);
    }
}

/// In lower case a text has no capital of the alphabet, and everything else in it stays.
pub proof fn lower_case_has_no_capitals(s: Seq<char>)
    ensures
        ascii_lowered(s).len() == s.len(),
        forall|i: int|
            0 <= i < s.len() ==> !('A' <= #[trigger] ascii_lowered(s)[i] <= 'Z') && (!('A' <= s[i] <= 'Z')
                ==> ascii_lowered(s)[i] == s[i]) && ('A' <= s[i] <= 'Z' ==> ascii_lowered(s)[i] as u32 == s[i] as u32 + 32),
        ascii_lowered(ascii_lowered(s)) == ascii_lowered(s),
{
    assert forall|i: int| 0 <= i < s.len() implies !('A' <= #[trigger] ascii_lowered(s)[i] <= 'Z') && (!('A' <= s[i]
        <= 'Z') ==> ascii_lowered(s)[i] == s[i]) && ('A' <= s[i] <= 'Z' ==> ascii_lowered(s)[i] as u32 == s[i] as u32
        + 32) by {
        let c = s[i];
        assert(ascii_lowered(s)[i] == ascii_lower(c));
        if 'A' <= c <= 'Z' {
            let n = (c as u8 + 32) as char;
            assert(n as u32 == c as u32 + 32);
        }
    }
    assert(ascii_lowered(ascii_lowered(s)) =~= ascii_lowered(s));
}

/// Pieces with one and the same filling between them are the pieces joined by it.
pub proof fn one_filling_joins_the_pieces(parts: Seq<Seq<char>>, f: Seq<char>)
    requires
        parts.len() > 0,
    ensures
        woven(parts, Seq::new((parts.len() - 1) as nat, |i: int| f)) == joined(parts, f),
    decreases parts.len(),
{
    let fillings = Seq::new((parts.len() - 1) as nat, |i: int| f);
    if parts.len() > 1 {
        one_filling_joins_the_pieces(parts.drop_last(), f);
        assert(fillings.drop_last() =~= Seq::new((parts.drop_last().len() - 1) as nat, |i: int| f));
        assert(fillings.last() == f);
    } else {
        assert(joined(parts, f) =~= parts[0]);
    }
}

} // verus!
