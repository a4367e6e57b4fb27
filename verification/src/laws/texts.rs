//! Laws of texts: cutting, splitting, joining and replacing.

use crate::text::{
    begins, cut_back, cut_front, ends, found_at, head_part, holds, is_space, joined, lemma_cut_back,
    lemma_cut_front, lemma_split_nonempty, split_at, tail_part, trimmed, with_replaced, CharSet,
};
use vstd::prelude::*;

verus! {

/// A text holds each part of what it is put together from.
pub proof fn a_whole_holds_its_middle(a: Seq<char>, b: Seq<char>, c: Seq<char>)
    ensures
        holds(a + b + c, b),
        begins(a + b + c, a),
        ends(a + b + c, c),
{
    let s = a + b + c;
    assert(s.subrange(a.len() as int, (a.len() + b.len()) as int) =~= b);
    assert(found_at(s, b, a.len() as int));
    assert(s.subrange(0, a.len() as int) =~= a);
    assert(s.subrange(s.len() - c.len(), s.len() as int) =~= c);
}

/// What a part of a text holds, the text holds.
pub proof fn holding_is_handed_on(s: Seq<char>, part: Seq<char>, what: Seq<char>)
    requires
        holds(s, part),
        holds(part, what),
    ensures
        holds(s, what),
{
    let i = choose|i: int| found_at(s, part, i);
    let j = choose|j: int| found_at(part, what, j);
    let inner = s.subrange(i, i + part.len());
    assert(s.subrange(i + j, i + j + what.len()) =~= inner.subrange(j, j + what.len()));
    assert(found_at(s, what, i + j));
}

/// A text without white space at its ends is what trimming leaves.
pub proof fn trimmed_text_stays(s: Seq<char>)
    requires
        s.len() > 0 ==> !is_space(s[0]) && !is_space(s.last()),
    ensures
        trimmed(s) == s,
{
    assert(s.skip(0) =~= s);
    assert(s.take(s.len() as int) =~= s);
    lemma_cut_front(s, CharSet::Space, 0);
    lemma_cut_back(s, CharSet::Space, s.len() as int);
}

/// Trimming leaves a stretch of the text that has no white space at its ends, and nothing but
/// white space around it.
pub proof fn trimming_takes_off_white_space_alone(s: Seq<char>)
    ensures
        exists|i: int, j: int|
            0 <= i <= j <= s.len() && trimmed(s) == #[trigger] s.subrange(i, j) && (forall|k: int|
                0 <= k < i || j <= k < s.len() ==> is_space(#[trigger] s[k])),
        trimmed(s).len() > 0 ==> !is_space(trimmed(s)[0]) && !is_space(trimmed(s).last()),
{
    let i = lemma_front_end(s, CharSet::Space);
    let t = s.skip(i);
    let j = lemma_back_end(t, CharSet::Space);
    lemma_cut_front(s, CharSet::Space, i);
    lemma_cut_back(t, CharSet::Space, j);
    assert(trimmed(s) =~= s.subrange(i, i + j));
    assert forall|k: int| 0 <= k < i || i + j <= k < s.len() implies is_space(#[trigger] s[k]) by {
        if k >= i + j {
            assert(CharSet::Space.spec_has(t[k - i]));
        } else {
            assert(CharSet::Space.spec_has(s[k]));
        }
    }
    if j > 0 {
        assert(t[0] == s[i]);
        assert(!CharSet::Space.spec_has(s[i]));
        assert(!CharSet::Space.spec_has(t[j - 1]));
    }
}

proof fn lemma_front_end(s: Seq<char>, set: CharSet) -> (n: int)
    ensures
        0 <= n <= s.len(),
        forall|i: int| 0 <= i < n ==> set.spec_has(s[i]),
        n < s.len() ==> !set.spec_has(s[n]),
    decreases s.len(),
{
    if s.len() == 0 || !set.spec_has(s[0]) {
        0
    } else {
        let m = lemma_front_end(s.skip(1), set);
        assert forall|i: int| 0 <= i < m + 1 implies set.spec_has(s[i]) by {
            if i > 0 {
                assert(s.skip(1)[i - 1] == s[i]);
                assert(set.spec_has(s.skip(1)[i - 1]));
            }
        }
        m + 1
    }
}

proof fn lemma_back_end(s: Seq<char>, set: CharSet) -> (n: int)
    ensures
        0 <= n <= s.len(),
        forall|i: int| n <= i < s.len() ==> set.spec_has(s[i]),
        n > 0 ==> !set.spec_has(s[n - 1]),
    decreases s.len(),
{
    if s.len() == 0 || !set.spec_has(s.last()) {
        s.len() as int
    } else {
        let n = lemma_back_end(s.drop_last(), set);
        assert forall|i: int| n <= i < s.len() implies set.spec_has(s[i]) by {
            if i < s.len() - 1 {
                assert(s.drop_last()[i] == s[i]);
                assert(set.spec_has(s.drop_last()[i]));
            }
        }
        n
    }
}

/// Joining undoes splitting.
pub proof fn joining_undoes_splitting(s: Seq<char>, sep: char)
    ensures
        joined(split_at(s, sep), seq![sep]) == s,
        forall|i: int| 0 <= i < split_at(s, sep).len() ==> !(#[trigger] split_at(s, sep)[i]).contains(sep),
    decreases s.len(),
{
    if s.len() == 0 {
        assert(joined(split_at(s, sep), seq![sep]) =~= s);
    } else {
        let front = s.drop_last();
        let before = split_at(front, sep);
        let parts = split_at(s, sep);
        lemma_split_nonempty(front, sep);
        joining_undoes_splitting(front, sep);
        if s.last() == sep {
            assert(parts.drop_last() =~= before);
            assert(joined(parts, seq![sep]) =~= front.push(sep));
        } else {
            assert(parts.drop_last() =~= before.drop_last());
            if before.len() == 1 {
                assert(joined(parts, seq![sep]) =~= before[0].push(s.last()));
            } else {
                assert(joined(parts, seq![sep]) =~= joined(before, seq![sep]).push(s.last()));
            }
            assert forall|i: int| 0 <= i < parts.len() implies !(#[trigger] parts[i]).contains(sep) by {
                if i < parts.len() - 1 {
                    assert(parts[i] == before[i]);
                } else {
                    assert(!before[before.len() - 1].contains(sep));
                    assert forall|k: int| 0 <= k < parts[i].len() implies parts[i][k] != sep by {
                        if k < parts[i].len() - 1 {
                            assert(before.last()[k] == parts[i][k]);
                            assert(before.last().contains(before.last()[k]));
                        }
                    }
                }
            }
        }
        assert(front.push(s.last()) =~= s);
    }
}

/// A text without the separator is its own only part.
pub proof fn unsplit_text_is_one_part(s: Seq<char>, sep: char)
    requires
        !s.contains(sep),
    ensures
        split_at(s, sep) == seq![s],
        head_part(s, sep) == s,
        tail_part(s, sep) == s,
    decreases s.len(),
{
    if s.len() > 0 {
        let front = s.drop_last();
        assert forall|k: int| 0 <= k < front.len() implies front[k] != sep by {
            assert(s.contains(s[k]));
        }
        unsplit_text_is_one_part(front, sep);
        assert(s.contains(s.last())) by {
            assert(s[s.len() - 1] == s.last());
        }
        assert(front.push(s.last()) =~= s);
        assert(split_at(s, sep) =~= seq![s]);
    } else {
        assert(s =~= Seq::<char>::empty());
        assert(split_at(s, sep) =~= seq![s]);
    }
}

/// The parts of a text are those before a separator followed by those after it.
pub proof fn parts_stand_on_both_sides(a: Seq<char>, b: Seq<char>, sep: char)
    ensures
        split_at(a.push(sep) + b, sep) == split_at(a, sep) + split_at(b, sep),
    decreases b.len(),
{
    let s = a.push(sep) + b;
    if b.len() == 0 {
        assert(s.drop_last() =~= a);
        assert(s.last() == sep);
        assert(split_at(s, sep) =~= split_at(a, sep) + split_at(b, sep));
    } else {
        assert(s.drop_last() =~= a.push(sep) + b.drop_last());
        assert(s.last() == b.last());
        parts_stand_on_both_sides(a, b.drop_last(), sep);
        lemma_split_nonempty(b.drop_last(), sep);
        assert(split_at(s, sep) =~= split_at(a, sep) + split_at(b, sep));
    }
}

/// Before the first separator stands the head, and after the last one the tail.
pub proof fn head_and_tail(a: Seq<char>, b: Seq<char>, sep: char)
    ensures
        !a.contains(sep) ==> head_part(a.push(sep) + b, sep) == a,
        !b.contains(sep) ==> tail_part(a.push(sep) + b, sep) == b,
{
    parts_stand_on_both_sides(a, b, sep);
    lemma_split_nonempty(a, sep);
    lemma_split_nonempty(b, sep);
    if !a.contains(sep) {
        unsplit_text_is_one_part(a, sep);
    }
    if !b.contains(sep) {
        unsplit_text_is_one_part(b, sep);
    }
}

/// A joined text holds every one of its parts.
pub proof fn joined_text_holds_its_parts(parts: Seq<Seq<char>>, sep: Seq<char>, i: int)
    requires
        0 <= i < parts.len(),
    ensures
        holds(joined(parts, sep), parts[i]),
    decreases parts.len(),
{
    let whole = joined(parts, sep);
    let none = Seq::<char>::empty();
    if parts.len() == 1 {
        a_whole_holds_its_middle(none, whole, none);
        assert(none + whole + none =~= whole);
    } else {
        let front = joined(parts.drop_last(), sep);
        if i < parts.len() - 1 {
            joined_text_holds_its_parts(parts.drop_last(), sep, i);
            a_whole_holds_its_middle(none, front, sep + parts.last());
            assert(none + front + (sep + parts.last()) =~= whole);
            holding_is_handed_on(whole, front, parts[i]);
        } else {
            a_whole_holds_its_middle(front + sep, parts.last(), none);
            assert(front + sep + parts.last() + none =~= whole);
        }
    }
}

/// Splitting undoes joining, where no part has the separator.
pub proof fn splitting_undoes_joining(parts: Seq<Seq<char>>, sep: char)
    requires
        parts.len() > 0,
        forall|i: int| 0 <= i < parts.len() ==> !(#[trigger] parts[i]).contains(sep),
    ensures
        split_at(joined(parts, seq![sep]), sep) == parts,
    decreases parts.len(),
{
    if parts.len() == 1 {
        unsplit_text_is_one_part(parts[0], sep);
        assert(seq![parts[0]] =~= parts);
    } else {
        let front = parts.drop_last();
        assert forall|i: int| 0 <= i < front.len() implies !(#[trigger] front[i]).contains(sep) by {
            assert(front[i] == parts[i]);
        }
        splitting_undoes_joining(front, sep);
        assert(!parts[parts.len() - 1].contains(sep));
        unsplit_text_is_one_part(parts.last(), sep);
        parts_stand_on_both_sides(joined(front, seq![sep]), parts.last(), sep);
        assert(joined(parts, seq![sep]) =~= joined(front, seq![sep]).push(sep) + parts.last());
        assert(front + seq![parts.last()] =~= parts);
    }
}

/// Replacing a character leaves none of it, and leaves a text without it as it is.
pub proof fn replacing_leaves_none(s: Seq<char>, c: char, by: Seq<char>)
    ensures
        !by.contains(c) ==> !with_replaced(s, c, by).contains(c),
        !s.contains(c) ==> with_replaced(s, c, by) == s,
        forall|d: char| d != c && !by.contains(d) && !s.contains(d) ==> !with_replaced(s, c, by).contains(d),
    decreases s.len(),
{
    if s.len() > 0 {
        let front = s.drop_last();
        let before = with_replaced(front, c, by);
        let whole = with_replaced(s, c, by);
        replacing_leaves_none(front, c, by);
        assert(s.contains(s.last())) by {
            assert(s[s.len() - 1] == s.last());
        }
        assert forall|d: char| front.contains(d) implies s.contains(d) by {
            let k = choose|k: int| 0 <= k < front.len() && front[k] == d;
            assert(s[k] == d);
        }
        assert forall|d: char| whole.contains(d) implies before.contains(d) || by.contains(d) || d == s.last() && d != c by {
            let k = choose|k: int| 0 <= k < whole.len() && whole[k] == d;
            if k < before.len() {
                assert(before[k] == d);
            } else if s.last() == c {
                assert(by[k - before.len()] == d);
            }
        }
        if !s.contains(c) {
            assert(front.push(s.last()) =~= s);
        }
    }
}

/// Replacing characters in two texts one after the other is replacing them in the whole.
pub proof fn replacing_goes_part_by_part(a: Seq<char>, b: Seq<char>, c: char, by: Seq<char>)
    ensures
        with_replaced(a + b, c, by) == with_replaced(a, c, by) + with_replaced(b, c, by),
        with_replaced(seq![c], c, by) == by,
    decreases b.len(),
{
    assert(seq![c].drop_last() =~= Seq::<char>::empty());
    assert(with_replaced(seq![c], c, by) =~= by) by {
        reveal_with_fuel(with_replaced, 2);
    }
    if b.len() == 0 {
        assert(a + b =~= a);
        assert(with_replaced(a, c, by) + with_replaced(b, c, by) =~= with_replaced(a, c, by));
    } else {
        assert((a + b).drop_last() =~= a + b.drop_last());
        replacing_goes_part_by_part(a, b.drop_last(), c, by);
        assert(with_replaced(a + b, c, by) =~= with_replaced(a, c, by) + with_replaced(b, c, by));
    }
}

/// Cutting a set of characters off the ends of a text takes nothing else: a text that neither
/// begins nor ends with one of them stays.
pub proof fn cutting_stops_at_the_first_other(s: Seq<char>, set: CharSet)
    ensures
        s.len() > 0 && !set.spec_has(s[0]) ==> cut_front(s, set) == s,
        s.len() > 0 && !set.spec_has(s.last()) ==> cut_back(s, set) == s,
        cut_back(s, set).len() > 0 ==> !set.spec_has(cut_back(s, set).last()),
        cut_front(s, set).len() > 0 ==> !set.spec_has(cut_front(s, set)[0]),
{
    let i = lemma_front_end(s, set);
    let j = lemma_back_end(s, set);
    lemma_cut_front(s, set, i);
    lemma_cut_back(s, set, j);
    assert(s.take(s.len() as int) =~= s);
    assert(s.skip(0) =~= s);
}

} // verus!
