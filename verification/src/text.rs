//! Text as sequences of characters: the small string operations that the rest of the
//! library is written with, each with its meaning over `Seq<char>`.

use vstd::prelude::*;

verus! {

/// `String::push` adds one character at the end.
pub assume_specification[ String::push ](s: &mut String, c: char)
    ensures
        final(s)@ == old(s)@.push(c),
;

/// `==` on string slices holds when they have the same characters.
pub assume_specification[ <str as PartialEq>::eq ](a: &str, b: &str) -> (r: bool)
    ensures
        r == (a@ == b@),
;

/// `str::to_lowercase`: the Unicode lower case of a text.
pub uninterp spec fn lowercase(s: Seq<char>) -> Seq<char>;

/// Calls `str::to_lowercase`, whose result depends on the text alone.
#[verifier::external_body]
pub(crate) fn to_lowercase(s: &str) -> (r: String)
    ensures
        r@ == lowercase(s@),
{
    s.to_lowercase()
}

/// `str::to_uppercase`: the Unicode upper case of a text.
pub uninterp spec fn uppercase(s: Seq<char>) -> Seq<char>;

/// Calls `str::to_uppercase`, whose result depends on the text alone; each character gives one
/// or more, so a text that is not empty does not become empty.
#[verifier::external_body]
pub(crate) fn to_uppercase(s: &str) -> (r: String)
    ensures
        r@ == uppercase(s@),
        s@.len() > 0 ==> r@.len() > 0,
{
    s.to_uppercase()
}

/// The `Debug` form of a text: in double quotes, with escapes.
pub uninterp spec fn quoted(s: Seq<char>) -> Seq<char>;

/// Formats a text with `{:?}`, whose result depends on the text alone.
#[verifier::external_body]
pub(crate) fn quote(s: &str) -> (r: String)
    ensures
        r@ == quoted(s@),
{
    format!("{:?}", s)
}

/// The views of a list of strings.
pub open spec fn texts(v: Seq<String>) -> Seq<Seq<char>> {
    v.map_values(|s: String| s@)
}

/// The view of an optional string slice.
pub open spec fn opt_str(o: Option<&str>) -> Option<Seq<char>> {
    match o {
        Some(s) => Some(s@),
        None => None,
    }
}

/// The view of an optional string.
pub open spec fn opt_text(o: Option<String>) -> Option<Seq<char>> {
    match o {
        Some(s) => Some(s@),
        None => None,
    }
}

/// The characters of a text.
pub fn chars_of(s: &str) -> (r: Vec<char>)
    ensures
        r@ == s@,
{
    let mut v: Vec<char> = Vec::new();
    for c in it: s.chars()
        invariant
            v@ == s@.take(it.index() as int),
            it.seq() == s@,
    {
        v.push(c);
    }
    v
}

/// The text that a range of characters makes.
pub fn text_between(v: &Vec<char>, from: usize, to: usize) -> (r: String)
    requires
        from <= to <= v@.len(),
    ensures
        r@ == v@.subrange(from as int, to as int),
{
    let mut s = String::new();
    for i in from..to
        invariant
            from <= to <= v@.len(),
            s@ == v@.subrange(from as int, i as int),
    {
        s.push(v[i]);
    }
    s
}

/// An owned copy of a text.
pub fn owned(s: &str) -> (r: String)
    ensures
        r@ == s@,
{
    s.to_owned()
}

/// Adds a line to a list of lines.
pub fn push_text(lines: &mut Vec<String>, line: String)
    ensures
        texts(final(lines)@) == texts(old(lines)@).push(line@),
        final(lines)@ == old(lines)@.push(line),
{
    lines.push(line);
    assert(texts(lines@) =~= texts(old(lines)@).push(line@));
}

/// Adds lines to a list of lines.
pub fn append_texts(lines: &mut Vec<String>, more: Vec<String>)
    ensures
        texts(final(lines)@) == texts(old(lines)@) + texts(more@),
{
    let mut more = more;
    let ghost added = texts(more@);
    lines.append(&mut more);
    assert(texts(lines@) =~= texts(old(lines)@) + added);
}

/// A copy of a list of texts.
pub fn copy_texts(v: &Vec<String>) -> (r: Vec<String>)
    ensures
        texts(r@) == texts(v@),
{
    let mut out: Vec<String> = Vec::new();
    for i in 0..v.len()
        invariant
            texts(out@) == texts(v@).take(i as int),
    {
        push_text(&mut out, owned(v[i].as_str()));
        assert(texts(v@).take(i as int + 1) =~= texts(v@).take(i as int).push(v@[i as int]@));
    }
    assert(texts(v@).take(v@.len() as int) =~= texts(v@));
    out
}

/// A copy of an optional text.
pub fn copy_opt(o: &Option<String>) -> (r: Option<String>)
    ensures
        opt_text(r) == opt_text(*o),
{
    match o {
        Some(s) => Some(owned(s.as_str())),
        None => None,
    }
}

/// Whether a list of texts has a given one.
pub open spec fn has_text(v: Seq<Seq<char>>, s: Seq<char>) -> bool {
    v.contains(s)
}

/// Looks for a text in a list.
pub fn contains_text(v: &Vec<String>, s: &str) -> (r: bool)
    ensures
        r == has_text(texts(v@), s@),
{
    for i in 0..v.len()
        invariant
            forall|j: int| 0 <= j < i ==> texts(v@)[j] != s@,
    {
        if *v[i].as_str() == *s {
            assert(texts(v@)[i as int] == s@);
            return true;
        }
        assert(texts(v@)[i as int] == v@[i as int]@);
    }
    false
}

/// Whether a character has the Unicode property White_Space.
pub open spec fn is_space(c: char) -> bool {
    let n = c as u32;
    ||| 0x9 <= n <= 0xd
    ||| n == 0x20
    ||| n == 0x85
    ||| n == 0xa0
    ||| n == 0x1680
    ||| 0x2000 <= n <= 0x200a
    ||| n == 0x2028
    ||| n == 0x2029
    ||| n == 0x202f
    ||| n == 0x205f
    ||| n == 0x3000
}

/// Tests for White_Space.
pub fn space(c: char) -> (r: bool)
    ensures
        r == is_space(c),
{
    let n: u32 = c as u32;
    (0x9 <= n && n <= 0xd) || n == 0x20 || n == 0x85 || n == 0xa0 || n == 0x1680 || (0x2000 <= n && n
        <= 0x200a) || n == 0x2028 || n == 0x2029 || n == 0x202f || n == 0x205f || n == 0x3000
}

/// A set of characters to cut off at the ends of a text.
#[derive(Clone, Copy)]
pub enum CharSet {
    /// white space
    Space,
    /// the single and the double quote
    Quote,
    /// one character
    Only(char),
}

impl CharSet {
    pub open spec fn spec_has(self, c: char) -> bool {
        match self {
            CharSet::Space => is_space(c),
            CharSet::Quote => c == '\'' || c == '"',
            CharSet::Only(d) => c == d,
        }
    }

    pub fn has(self, c: char) -> (r: bool)
        ensures
            r == self.spec_has(c),
    {
        match self {
            CharSet::Space => space(c),
            CharSet::Quote => c == '\'' || c == '"',
            CharSet::Only(d) => c == d,
        }
    }
}

/// The text without the leading characters of a set.
pub open spec fn cut_front(s: Seq<char>, set: CharSet) -> Seq<char>
    decreases s.len(),
{
    if s.len() > 0 && set.spec_has(s[0]) {
        cut_front(s.skip(1), set)
    } else {
        s
    }
}

/// The text without the trailing characters of a set.
pub open spec fn cut_back(s: Seq<char>, set: CharSet) -> Seq<char>
    decreases s.len(),
{
    if s.len() > 0 && set.spec_has(s.last()) {
        cut_back(s.drop_last(), set)
    } else {
        s
    }
}

/// The text without white space at either end.
pub open spec fn trimmed(s: Seq<char>) -> Seq<char> {
    cut_back(cut_front(s, CharSet::Space), CharSet::Space)
}

/// Cutting off the front takes off what is in the set, and no more.
pub proof fn lemma_cut_front(s: Seq<char>, set: CharSet, n: int)
    requires
        0 <= n <= s.len(),
        forall|i: int| 0 <= i < n ==> set.spec_has(s[i]),
        n < s.len() ==> !set.spec_has(s[n]),
    ensures
        cut_front(s, set) == s.skip(n),
    decreases n,
{
    if n == 0 {
        assert(s.skip(0) =~= s);
    } else {
        lemma_cut_front(s.skip(1), set, n - 1);
        assert(s.skip(1).skip(n - 1) =~= s.skip(n));
    }
}

/// Cutting off the back takes off what is in the set, and no more.
pub proof fn lemma_cut_back(s: Seq<char>, set: CharSet, n: int)
    requires
        0 <= n <= s.len(),
        forall|i: int| n <= i < s.len() ==> set.spec_has(s[i]),
        n > 0 ==> !set.spec_has(s[n - 1]),
    ensures
        cut_back(s, set) == s.take(n),
    decreases s.len() - n,
{
    if n == s.len() {
        assert(s.take(n) =~= s);
    } else {
        lemma_cut_back(s.drop_last(), set, n);
        assert(s.drop_last().take(n) =~= s.take(n));
    }
}

/// Cuts the leading characters of a set.
pub fn trim_front(s: &str, set: CharSet) -> (r: String)
    ensures
        r@ == cut_front(s@, set),
{
    let v = chars_of(s);
    let mut i: usize = 0;
    while i < v.len() && set.has(v[i])
        invariant
            i <= v@.len(),
            v@ == s@,
            forall|j: int| 0 <= j < i ==> set.spec_has(v@[j]),
        decreases v@.len() - i,
    {
        i = i + 1;
    }
    proof {
        lemma_cut_front(s@, set, i as int);
    }
    assert(s@.skip(i as int) =~= v@.subrange(i as int, v@.len() as int));
    text_between(&v, i, v.len())
}

/// Cuts the trailing characters of a set.
pub fn trim_back(s: &str, set: CharSet) -> (r: String)
    ensures
        r@ == cut_back(s@, set),
{
    let v = chars_of(s);
    let mut n: usize = v.len();
    while n > 0 && set.has(v[n - 1])
        invariant
            n <= v@.len(),
            v@ == s@,
            forall|j: int| n <= j < v@.len() ==> set.spec_has(v@[j]),
        decreases n,
    {
        n = n - 1;
    }
    proof {
        lemma_cut_back(s@, set, n as int);
    }
    assert(s@.take(n as int) =~= v@.subrange(0, n as int));
    text_between(&v, 0, n)
}

/// Cuts white space at both ends.
pub fn trim(s: &str) -> (r: String)
    ensures
        r@ == trimmed(s@),
{
    let f = trim_front(s, CharSet::Space);
    trim_back(f.as_str(), CharSet::Space)
}

/// Cuts the characters of a set at both ends.
pub fn trim_both(s: &str, set: CharSet) -> (r: String)
    ensures
        r@ == cut_back(cut_front(s@, set), set),
{
    let f = trim_front(s, set);
    trim_back(f.as_str(), set)
}

/// The parts of a text between the occurrences of a separator; always at least one.
pub open spec fn split_at(s: Seq<char>, sep: char) -> Seq<Seq<char>>
    decreases s.len(),
{
    if s.len() == 0 {
        seq![Seq::<char>::empty()]
    } else {
        let before = split_at(s.drop_last(), sep);
        if s.last() == sep {
            before.push(Seq::<char>::empty())
        } else {
            before.drop_last().push(before.last().push(s.last()))
        }
    }
}

/// A text has at least one part.
pub proof fn lemma_split_nonempty(s: Seq<char>, sep: char)
    ensures
        split_at(s, sep).len() > 0,
    decreases s.len(),
{
    if s.len() > 0 {
        lemma_split_nonempty(s.drop_last(), sep);
    }
}

/// Splits a text at a separator.
pub fn split(s: &str, sep: char) -> (r: Vec<String>)
    ensures
        texts(r@) == split_at(s@, sep),
        r@.len() > 0,
{
    let v = chars_of(s);
    let mut parts: Vec<String> = Vec::new();
    let mut cur = String::new();
    assert(texts(parts@).push(cur@) =~= split_at(s@.take(0), sep)) by {
        assert(s@.take(0).len() == 0);
    }
    for i in 0..v.len()
        invariant
            v@ == s@,
            texts(parts@).push(cur@) == split_at(s@.take(i as int), sep),
    {
        let ghost whole = split_at(s@.take(i as int), sep);
        let ghost parts0 = texts(parts@);
        let ghost cur0 = cur@;
        assert(s@.take(i as int + 1).drop_last() =~= s@.take(i as int));
        assert(whole.drop_last() =~= parts0);
        if v[i] == sep {
            push_text(&mut parts, cur);
            cur = String::new();
            assert(texts(parts@).push(cur@) =~= whole.push(Seq::<char>::empty()));
        } else {
            cur.push(v[i]);
        }
    }
    assert(s@.take(s@.len() as int) =~= s@);
    push_text(&mut parts, cur);
    parts
}

/// The part of a text before the first separator: all of it where there is none.
pub open spec fn head_part(s: Seq<char>, sep: char) -> Seq<char> {
    split_at(s, sep)[0]
}

/// The part of a text after the last separator: all of it where there is none.
pub open spec fn tail_part(s: Seq<char>, sep: char) -> Seq<char> {
    split_at(s, sep).last()
}

/// The part before the first separator.
pub fn head_of(s: &str, sep: char) -> (r: String)
    ensures
        r@ == head_part(s@, sep),
{
    let parts = split(s, sep);
    assert(texts(parts@)[0] == parts@[0]@);
    owned(parts[0].as_str())
}

/// The part after the last separator.
pub fn tail_of(s: &str, sep: char) -> (r: String)
    ensures
        r@ == tail_part(s@, sep),
{
    let parts = split(s, sep);
    assert(texts(parts@).last() == parts@.last()@);
    owned(parts[parts.len() - 1].as_str())
}

/// Texts joined by a separator.
pub open spec fn joined(parts: Seq<Seq<char>>, sep: Seq<char>) -> Seq<char>
    decreases parts.len(),
{
    if parts.len() == 0 {
        Seq::<char>::empty()
    } else if parts.len() == 1 {
        parts[0]
    } else {
        joined(parts.drop_last(), sep) + sep + parts.last()
    }
}

/// Joins texts by a separator.
pub fn join(parts: &Vec<String>, sep: &str) -> (r: String)
    ensures
        r@ == joined(texts(parts@), sep@),
{
    let mut out = String::new();
    for i in 0..parts.len()
        invariant
            out@ == joined(texts(parts@).take(i as int), sep@),
    {
        let ghost t = texts(parts@);
        assert(t.take(i as int + 1).drop_last() =~= t.take(i as int));
        if i == 0 {
            out = owned(parts[i].as_str());
        } else {
            out.append(sep);
            out.append(parts[i].as_str());
        }
    }
    assert(texts(parts@).take(parts@.len() as int) =~= texts(parts@));
    out
}

/// A text with every occurrence of a character replaced.
pub open spec fn with_replaced(s: Seq<char>, c: char, by: Seq<char>) -> Seq<char>
    decreases s.len(),
{
    if s.len() == 0 {
        s
    } else if s.last() == c {
        with_replaced(s.drop_last(), c, by) + by
    } else {
        with_replaced(s.drop_last(), c, by).push(s.last())
    }
}

/// Replaces every occurrence of a character.
pub fn replace_char(s: &str, c: char, by: &str) -> (r: String)
    ensures
        r@ == with_replaced(s@, c, by@),
{
    let v = chars_of(s);
    let mut out = String::new();
    for i in 0..v.len()
        invariant
            v@ == s@,
            out@ == with_replaced(s@.take(i as int), c, by@),
    {
        assert(s@.take(i as int + 1).drop_last() =~= s@.take(i as int));
        if v[i] == c {
            out.append(by);
        } else {
            out.push(v[i]);
        }
    }
    assert(s@.take(s@.len() as int) =~= s@);
    out
}

/// The first `n` characters, or all where there are fewer.
pub open spec fn first_chars(s: Seq<char>, n: int) -> Seq<char> {
    if s.len() <= n {
        s
    } else {
        s.take(n)
    }
}

/// Takes the first `n` characters.
pub fn take_chars(s: &str, n: usize) -> (r: String)
    ensures
        r@ == first_chars(s@, n as int),
{
    let v = chars_of(s);
    if v.len() <= n {
        owned(s)
    } else {
        text_between(&v, 0, n)
    }
}

/// The last `n` characters, or all where there are fewer.
pub open spec fn last_chars(s: Seq<char>, n: int) -> Seq<char> {
    if s.len() <= n {
        s
    } else {
        s.skip(s.len() - n)
    }
}

/// Takes the last `n` characters.
pub fn take_last_chars(s: &str, n: usize) -> (r: String)
    ensures
        r@ == last_chars(s@, n as int),
{
    let v = chars_of(s);
    if v.len() <= n {
        owned(s)
    } else {
        assert(s@.skip(s@.len() - n) =~= v@.subrange(v@.len() - n, v@.len() as int));
        text_between(&v, v.len() - n, v.len())
    }
}

/// The number of characters.
pub fn char_count(s: &str) -> (r: usize)
    ensures
        r == s@.len(),
{
    chars_of(s).len()
}

/// Whether a text has another one at a place.
pub open spec fn found_at(s: Seq<char>, what: Seq<char>, at: int) -> bool {
    0 <= at && at + what.len() <= s.len() && s.subrange(at, at + what.len()) == what
}

/// Whether a text holds another one.
pub open spec fn holds(s: Seq<char>, what: Seq<char>) -> bool {
    exists|at: int| found_at(s, what, at)
}

/// Whether a text begins with another one.
pub open spec fn begins(s: Seq<char>, what: Seq<char>) -> bool {
    found_at(s, what, 0)
}

/// Whether a text ends with another one.
pub open spec fn ends(s: Seq<char>, what: Seq<char>) -> bool {
    found_at(s, what, s.len() - what.len())
}

fn matches_at(s: &Vec<char>, what: &Vec<char>, at: usize) -> (r: bool)
    requires
        at + what@.len() <= s@.len(),
    ensures
        r == found_at(s@, what@, at as int),
{
    let n: usize = s.len();
    for i in 0..what.len()
        invariant
            at + what@.len() <= s@.len(),
            n == s@.len(),
            forall|j: int| 0 <= j < i ==> s@[at + j] == what@[j],
    {
        if s[at + i] != what[i] {
            assert(s@.subrange(at as int, at + what@.len())[i as int] != what@[i as int]);
            return false;
        }
    }
    assert(s@.subrange(at as int, at + what@.len()) =~= what@);
    true
}

/// Looks for a text in another one.
pub fn contains(s: &str, what: &str) -> (r: bool)
    ensures
        r == holds(s@, what@),
{
    let a = chars_of(s);
    let b = chars_of(what);
    let mut at: usize = 0;
    while at <= a.len() && b.len() <= a.len() - at
        invariant
            a@ == s@,
            b@ == what@,
            at <= a@.len() + 1,
            forall|j: int| 0 <= j < at ==> !found_at(s@, what@, j),
        decreases a@.len() + 1 - at,
    {
        if matches_at(&a, &b, at) {
            return true;
        }
        if at == a.len() {
            return false;
        }
        at = at + 1;
    }
    assert forall|j: int| !found_at(s@, what@, j) by {}
    false
}

/// Tests for a prefix.
pub fn starts_with(s: &str, what: &str) -> (r: bool)
    ensures
        r == begins(s@, what@),
{
    let a = chars_of(s);
    let b = chars_of(what);
    b.len() <= a.len() && matches_at(&a, &b, 0)
}

/// Tests for a suffix.
pub fn ends_with(s: &str, what: &str) -> (r: bool)
    ensures
        r == ends(s@, what@),
{
    let a = chars_of(s);
    let b = chars_of(what);
    b.len() <= a.len() && matches_at(&a, &b, a.len() - b.len())
}

/// What follows a prefix, where the text begins with it.
pub open spec fn past_prefix(s: Seq<char>, what: Seq<char>) -> Option<Seq<char>> {
    if begins(s, what) {
        Some(s.skip(what.len() as int))
    } else {
        None
    }
}

/// Cuts a prefix off.
pub fn strip_prefix(s: &str, what: &str) -> (r: Option<String>)
    ensures
        opt_text(r) == past_prefix(s@, what@),
{
    let a = chars_of(s);
    let b = chars_of(what);
    if b.len() <= a.len() && matches_at(&a, &b, 0) {
        assert(s@.skip(what@.len() as int) =~= a@.subrange(b@.len() as int, a@.len() as int));
        Some(text_between(&a, b.len(), a.len()))
    } else {
        None
    }
}

/// Where a character first stands.
pub open spec fn place_of(s: Seq<char>, c: char) -> Option<int>
    decreases s.len(),
{
    if s.len() == 0 {
        None
    } else {
        match place_of(s.drop_last(), c) {
            Some(i) => Some(i),
            None => if s.last() == c {
                Some(s.len() - 1)
            } else {
                None
            },
        }
    }
}

/// The first place of a character has it, and no earlier place does.
pub proof fn lemma_place_of(s: Seq<char>, c: char)
    ensures
        match place_of(s, c) {
            Some(i) => 0 <= i < s.len() && s[i] == c && forall|j: int| 0 <= j < i ==> s[j] != c,
            None => forall|j: int| 0 <= j < s.len() ==> s[j] != c,
        },
    decreases s.len(),
{
    if s.len() > 0 {
        lemma_place_of(s.drop_last(), c);
        assert forall|j: int| 0 <= j < s.len() - 1 implies s[j] == s.drop_last()[j] by {}
    }
}

/// Finds the first place of a character.
pub fn find_char(v: &Vec<char>, c: char) -> (r: Option<usize>)
    ensures
        match r {
            Some(i) => place_of(v@, c) == Some(i as int) && i < v@.len(),
            None => place_of(v@, c) is None,
        },
{
    let mut found: Option<usize> = None;
    for i in 0..v.len()
        invariant
            match found {
                Some(k) => place_of(v@.take(i as int), c) == Some(k as int) && k < i,
                None => place_of(v@.take(i as int), c) is None,
            },
    {
        assert(v@.take(i as int + 1).drop_last() =~= v@.take(i as int));
        if found.is_none() && v[i] == c {
            found = Some(i);
        }
    }
    assert(v@.take(v@.len() as int) =~= v@);
    found
}

/// Whether a character stands in a text.
pub fn contains_char(s: &str, c: char) -> (r: bool)
    ensures
        r == s@.contains(c),
{
    let v = chars_of(s);
    proof {
        lemma_place_of(s@, c);
    }
    match find_char(&v, c) {
        Some(i) => {
            assert(s@[i as int] == c);
            true
        },
        None => false,
    }
}

/// The lower case of an ASCII letter, and any other character itself.
pub open spec fn ascii_lower(c: char) -> char {
    if 'A' <= c <= 'Z' {
        ((c as u8) + 32) as char
    } else {
        c
    }
}

/// A text with its ASCII letters in lower case.
pub open spec fn ascii_lowered(s: Seq<char>) -> Seq<char> {
    s.map_values(|c: char| ascii_lower(c))
}

/// Puts ASCII letters into lower case.
pub fn to_ascii_lower(s: &str) -> (r: String)
    ensures
        r@ == ascii_lowered(s@),
{
    let v = chars_of(s);
    let mut out = String::new();
    for i in 0..v.len()
        invariant
            v@ == s@,
            out@ == ascii_lowered(s@).take(i as int),
    {
        let c = v[i];
        let d = if 'A' <= c && c <= 'Z' {
            ((c as u8) + 32) as char
        } else {
            c
        };
        out.push(d);
        assert(ascii_lowered(s@).take(i as int + 1) =~= ascii_lowered(s@).take(i as int).push(d));
    }
    assert(ascii_lowered(s@).take(s@.len() as int) =~= ascii_lowered(s@));
    out
}

/// The views of pairs of texts.
pub open spec fn pairs(v: Seq<(String, String)>) -> Seq<(Seq<char>, Seq<char>)> {
    v.map_values(|p: (String, String)| (p.0@, p.1@))
}

/// Adds a pair of texts to a list.
pub fn push_pair(v: &mut Vec<(String, String)>, a: &str, b: &str)
    ensures
        pairs(final(v)@) == pairs(old(v)@).push((a@, b@)),
{
    v.push((owned(a), owned(b)));
    assert(pairs(v@) =~= pairs(old(v)@).push((a@, b@)));
}

} // verus!
