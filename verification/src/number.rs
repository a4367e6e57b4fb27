//! Whole numbers as text: decimal digits, padding, and reading them back.

use vstd::prelude::*;

verus! {

/// The character of a decimal digit.
pub open spec fn digit(d: int) -> char {
    ('0' as u32 + d) as char
}

/// Whether a character is an ASCII digit.
pub open spec fn is_digit(c: char) -> bool {
    '0' <= c <= '9'
}

/// The decimal digits of a number, without leading zeros.
pub open spec fn decimal(n: nat) -> Seq<char>
    decreases n,
{
    if n < 10 {
        seq![digit(n as int)]
    } else {
        decimal(n / 10).push(digit((n % 10) as int))
    }
}

/// The decimal form of an integer, with a sign where it is negative.
pub open spec fn int_text(n: int) -> Seq<char> {
    if n < 0 {
        seq!['-'] + decimal((-n) as nat)
    } else {
        decimal(n as nat)
    }
}

fn digit_char(d: u64) -> (r: char)
    requires
        d < 10,
    ensures
        r == digit(d as int),
{
    (48u8 + d as u8) as char
}

fn push_decimal(s: &mut String, n: u64)
    ensures
        final(s)@ == old(s)@ + decimal(n as nat),
    decreases n,
{
    if n >= 10 {
        push_decimal(s, n / 10);
        s.push(digit_char(n % 10));
        assert(s@ =~= old(s)@ + decimal(n as nat));
    } else {
        s.push(digit_char(n));
        assert(s@ =~= old(s)@ + decimal(n as nat));
    }
}

/// The decimal form of a natural number.
pub fn nat_to_text(n: u64) -> (r: String)
    ensures
        r@ == decimal(n as nat),
{
    let mut s = String::new();
    push_decimal(&mut s, n);
    assert(s@ =~= decimal(n as nat));
    s
}

/// The decimal form of a size.
pub fn size_to_text(n: usize) -> (r: String)
    ensures
        r@ == decimal(n as nat),
{
    nat_to_text(n as u64)
}

/// The decimal form of an integer.
pub fn int_to_text(n: i64) -> (r: String)
    ensures
        r@ == int_text(n as int),
{
    let mut s = String::new();
    if n < 0 {
        let m: u64 = (-(n as i128)) as u64;
        s.push('-');
        push_decimal(&mut s, m);
        assert(s@ =~= seq!['-'] + decimal(m as nat));
    } else {
        push_decimal(&mut s, n as u64);
        assert(s@ =~= decimal(n as nat));
    }
    s
}

/// A run of one character.
pub open spec fn run_of(c: char, n: int) -> Seq<char> {
    Seq::new(
        if n > 0 {
            n as nat
        } else {
            0
        },
        |i: int| c,
    )
}

/// Makes a run of one character.
pub fn repeat_char(c: char, n: usize) -> (r: String)
    ensures
        r@ == run_of(c, n as int),
{
    let mut s = String::new();
    for i in 0..n
        invariant
            s@ == run_of(c, i as int),
    {
        s.push(c);
        assert(s@ =~= run_of(c, i as int + 1));
    }
    s
}

/// A text set right in a field of a given width.
pub open spec fn right_set(s: Seq<char>, width: int) -> Seq<char> {
    run_of(' ', width - s.len()) + s
}

/// Sets a text right in a field.
pub fn pad_left(s: &str, width: usize) -> (r: String)
    ensures
        r@ == right_set(s@, width as int),
{
    let n: usize = crate::text::char_count(s);
    let mut out = if n < width {
        repeat_char(' ', width - n)
    } else {
        repeat_char(' ', 0)
    };
    assert(out@ =~= run_of(' ', width - s@.len()));
    out.append(s);
    out
}

/// An integer with leading zeros up to three characters, its sign counted.
pub open spec fn three_wide(n: int) -> Seq<char> {
    if n < 0 {
        let d = decimal((-n) as nat);
        seq!['-'] + run_of('0', 2 - d.len()) + d
    } else {
        let d = decimal(n as nat);
        run_of('0', 3 - d.len()) + d
    }
}

/// Writes an integer with leading zeros up to three characters.
pub fn to_three_wide(n: i64) -> (r: String)
    ensures
        r@ == three_wide(n as int),
{
    let mut out = String::new();
    let (d, room): (String, usize) = if n < 0 {
        out.push('-');
        (nat_to_text((-(n as i128)) as u64), 2)
    } else {
        (nat_to_text(n as u64), 3)
    };
    let have: usize = crate::text::char_count(d.as_str());
    let zeros = if have < room {
        repeat_char('0', room - have)
    } else {
        repeat_char('0', 0)
    };
    assert(zeros@ =~= run_of('0', room - have));
    out.append(zeros.as_str());
    out.append(d.as_str());
    assert(out@ =~= three_wide(n as int));
    out
}

/// The number that a run of ASCII digits stands for, where every character is one.
pub open spec fn digits_value(s: Seq<char>) -> Option<nat>
    decreases s.len(),
{
    if s.len() == 0 {
        Some(0)
    } else {
        match digits_value(s.drop_last()) {
            Some(v) if is_digit(s.last()) => Some(v * 10 + (s.last() as u32 - '0' as u32) as nat),
            _ => None,
        }
    }
}

/// Reads digits as a number: `Some` where they are all ASCII digits, there is at least one,
/// and the number is not above `limit`.
pub open spec fn bounded_value(s: Seq<char>, limit: nat) -> Option<nat> {
    match digits_value(s) {
        Some(v) if s.len() > 0 && v <= limit => Some(v),
        _ => None,
    }
}

/// Reads the digits in a range of characters.
pub fn parse_digits(v: &Vec<char>, from: usize, to: usize, limit: u64) -> (r: Option<u64>)
    requires
        from <= to <= v@.len(),
    ensures
        match r {
            Some(n) => bounded_value(v@.subrange(from as int, to as int), limit as nat) == Some(
                n as nat,
            ),
            None => bounded_value(v@.subrange(from as int, to as int), limit as nat) is None,
        },
{
    let ghost s = v@.subrange(from as int, to as int);
    if from == to {
        return None;
    }
    let mut acc: u64 = 0;
    let mut over: bool = false;
    for i in from..to
        invariant
            from <= to <= v@.len(),
            s == v@.subrange(from as int, to as int),
            match digits_value(s.take(i - from)) {
                Some(n) => if over {
                    n > limit
                } else {
                    n == acc && n <= limit
                },
                None => false,
            },
    {
        let c = v[i];
        assert(s.take(i - from + 1).drop_last() =~= s.take(i - from));
        assert(s.take(i - from + 1).last() == c);
        if c < '0' || c > '9' {
            proof {
                lemma_not_digits(s, i - from);
            }
            return None;
        }
        let d: u64 = (c as u32 - 48) as u64;
        if !over {
            let next: u128 = (acc as u128) * 10 + d as u128;
            if next > limit as u128 {
                over = true;
            } else {
                acc = next as u64;
            }
        }
    }
    assert(s.take(to - from) =~= s);
    if over {
        None
    } else {
        Some(acc)
    }
}

proof fn lemma_not_digits(s: Seq<char>, at: int)
    requires
        0 <= at < s.len(),
        !is_digit(s[at]),
    ensures
        digits_value(s) is None,
    decreases s.len(),
{
    if at < s.len() - 1 {
        lemma_not_digits(s.drop_last(), at);
    }
}

/// The digits of a text that may begin with a sign.
pub open spec fn unsigned_part(s: Seq<char>) -> Seq<char> {
    if s.len() > 0 && (s[0] == '-' || s[0] == '+') {
        s.skip(1)
    } else {
        s
    }
}

/// A decimal integer with an optional sign, where it fits 64 bits.
pub open spec fn int_value(s: Seq<char>) -> Option<i64> {
    let negative = s.len() > 0 && s[0] == '-';
    let limit: nat = if negative {
        0x8000_0000_0000_0000
    } else {
        0x7fff_ffff_ffff_ffff
    };
    match bounded_value(unsigned_part(s), limit) {
        Some(v) => Some(
            if negative {
                (-(v as int)) as i64
            } else {
                v as i64
            },
        ),
        None => None,
    }
}

/// Reads a decimal integer with an optional sign.
pub fn parse_int(s: &str) -> (r: Option<i64>)
    ensures
        r == int_value(s@),
{
    let v = crate::text::chars_of(s);
    let signed: bool = v.len() > 0 && (v[0] == '-' || v[0] == '+');
    let negative: bool = v.len() > 0 && v[0] == '-';
    let from: usize = if signed {
        1
    } else {
        0
    };
    assert(unsigned_part(s@) =~= v@.subrange(from as int, v@.len() as int));
    let limit: u64 = if negative {
        0x8000_0000_0000_0000
    } else {
        0x7fff_ffff_ffff_ffff
    };
    match parse_digits(&v, from, v.len(), limit) {
        Some(n) => Some(
            if negative {
                (-(n as i128)) as i64
            } else {
                n as i64
            },
        ),
        None => None,
    }
}

/// Whether a text is made of ASCII digits alone.
pub open spec fn all_digits(s: Seq<char>) -> bool {
    forall|i: int| 0 <= i < s.len() ==> is_digit(#[trigger] s[i])
}

/// Tests for a text of ASCII digits.
pub fn only_digits(s: &str) -> (r: bool)
    ensures
        r == all_digits(s@),
{
    let v = crate::text::chars_of(s);
    for i in 0..v.len()
        invariant
            v@ == s@,
            forall|j: int| 0 <= j < i ==> is_digit(#[trigger] s@[j]),
    {
        if v[i] < '0' || v[i] > '9' {
            assert(!is_digit(s@[i as int]));
            return false;
        }
    }
    true
}

/// Writing a number and reading the digits back gives the number.
pub proof fn decimal_reads_back(n: nat)
    ensures
        digits_value(decimal(n)) == Some(n),
        decimal(n).len() > 0,
    decreases n,
{
    if n < 10 {
        reveal_with_fuel(digits_value, 2);
        assert(seq![digit(n as int)].drop_last() =~= Seq::<char>::empty());
    } else {
        decimal_reads_back(n / 10);
        assert(decimal(n).drop_last() =~= decimal(n / 10));
    }
}

/// The decimal form of a 64-bit integer reads back as that integer.
pub proof fn int_text_reads_back(n: i64)
    ensures
        int_value(int_text(n as int)) == Some(n),
{
    if n < 0 {
        let m = (-(n as int)) as nat;
        decimal_reads_back(m);
        assert(unsigned_part(int_text(n as int)) =~= decimal(m));
    } else {
        decimal_reads_back(n as nat);
        lemma_first_digit(n as nat);
        assert(unsigned_part(int_text(n as int)) == decimal(n as nat));
    }
}

proof fn lemma_first_digit(n: nat)
    ensures
        decimal(n).len() > 0,
        is_digit(decimal(n)[0]),
    decreases n,
{
    if n >= 10 {
        lemma_first_digit(n / 10);
    }
}

} // verus!
