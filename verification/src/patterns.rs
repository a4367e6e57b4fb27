//! Regular expressions, as the regex crate gives them.

use crate::text::{is_space, joined, opt_text, owned, texts};
use vstd::prelude::*;

verus! {

/// A run of white space.
pub const SPACES: &'static str = r"\s+";

/// A run of decimal digits.
pub const DIGITS: &'static str = r"\d+";

/// Eight or more lower case hexadecimal digits.
pub const HEX_RUN: &'static str = r"[0-9a-f]{8,}";

/// The session cookie and its value.
pub const SESSION_COOKIE: &'static str = r"grafana_session=([^;\s]+)";

/// A variable with a format, as in `${name:format}`.
pub const FORMATTED_VARIABLE: &'static str = r"\$\{([A-Za-z_][A-Za-z0-9_]*):[^}]+\}";

/// A variable, as in `${name}` or `$name`.
pub const VARIABLE: &'static str = r"\$\{([A-Za-z_][A-Za-z0-9_]*)\}|\$([A-Za-z_][A-Za-z0-9_]*)";

/// A label in a legend, as in `{{ name }}`.
pub const LEGEND_LABEL: &'static str = r"\{\{\s*([^{} ]+)\s*\}\}";

/// Whether a text is one of the library's own patterns.
pub open spec fn built_in(pattern: Seq<char>) -> bool {
    ||| pattern == SPACES@
    ||| pattern == DIGITS@
    ||| pattern == HEX_RUN@
    ||| pattern == SESSION_COOKIE@
    ||| pattern == FORMATTED_VARIABLE@
    ||| pattern == VARIABLE@
    ||| pattern == LEGEND_LABEL@
}

/// Declares `regex::Regex`, of which nothing is said: it is held, and asked by the functions below.
#[verifier::external_type_specification]
#[verifier::external_body]
pub struct ExRegex(regex::Regex);

/// A compiled regular expression beside the text it was compiled from. `compile` is the one
/// place that makes one.
pub struct Pattern {
    rx: regex::Regex,
    text: String,
    any_case: bool,
}

impl Pattern {
    /// The text it was compiled from.
    pub closed spec fn source(&self) -> Seq<char> {
        self.text@
    }

    /// Whether it ignores case.
    pub closed spec fn ignores_case(&self) -> bool {
        self.any_case
    }
}

/// The message of the error that compiling a pattern gives, if it gives one.
pub uninterp spec fn regex_fault(pattern: Seq<char>, any_case: bool) -> Option<Seq<char>>;

/// The non-overlapping matches of a pattern in a text, from left to right: of each the text of
/// the whole match and of every group, `None` for a group that took no part.
pub uninterp spec fn regex_matches(pattern: Seq<char>, any_case: bool, text: Seq<char>) -> Seq<
    Seq<Option<Seq<char>>>,
>;

/// The parts of a text between the matches of a pattern.
pub uninterp spec fn regex_pieces(pattern: Seq<char>, any_case: bool, text: Seq<char>) -> Seq<
    Seq<char>,
>;

/// The views of the groups of matches.
pub open spec fn match_views(v: Seq<Vec<Option<String>>>) -> Seq<Seq<Option<Seq<char>>>> {
    v.map_values(|groups: Vec<Option<String>>| groups@.map_values(|g: Option<String>| opt_text(g)))
}

/// Calls `regex::RegexBuilder::build`. Whether it fails, and with which message, depends on
/// the pattern and the case option alone; the built-in patterns keep to the crate's
/// documented syntax, so they compile.
#[verifier::external_body]
pub(crate) fn compile(pattern: &str, any_case: bool) -> (r: Result<Pattern, String>)
    ensures
        match r {
            Ok(p) => regex_fault(pattern@, any_case) is None && p.source() == pattern@
                && p.ignores_case() == any_case,
            Err(e) => regex_fault(pattern@, any_case) == Some(e@),
        },
        built_in(pattern@) ==> r is Ok,
{
    match regex::RegexBuilder::new(pattern).case_insensitive(any_case).build() {
        Ok(rx) => Ok(Pattern { rx, text: pattern.to_string(), any_case }),
        Err(e) => Err(e.to_string()),
    }
}

impl Pattern {
    /// Calls `regex::Regex::is_match`: whether there is a match anywhere in the text.
    #[verifier::external_body]
    pub(crate) fn is_match(&self, text: &str) -> (r: bool)
        ensures
            r == (regex_matches(self.source(), self.ignores_case(), text@).len() > 0),
    {
        self.rx.is_match(text)
    }

    /// Calls `regex::Regex::captures_iter`: every match with its groups. The groups of a match
    /// begin with the whole match, which is always there.
    #[verifier::external_body]
    pub(crate) fn matches(&self, text: &str) -> (r: Vec<Vec<Option<String>>>)
        ensures
            match_views(r@) == regex_matches(self.source(), self.ignores_case(), text@),
            forall|i: int| 0 <= i < r@.len() ==> (#[trigger] r@[i])@.len() > 0 && r@[i]@[0] is Some,
    {
        self.rx.captures_iter(text).map(
            |c| c.iter().map(|g| g.map(|m| m.as_str().to_string())).collect(),
        ).collect()
    }

    /// Calls `regex::Regex::split`: the parts of the text around the matches, one more than
    /// there are matches. Without a match that is the text itself; a split at runs of white
    /// space leaves no white space in any part.
    #[verifier::external_body]
    pub(crate) fn split(&self, text: &str) -> (r: Vec<String>)
        ensures
            texts(r@) == regex_pieces(self.source(), self.ignores_case(), text@),
            r@.len() == regex_matches(self.source(), self.ignores_case(), text@).len() + 1,
            r@.len() == 1 ==> r@[0]@ == text@,
            self.source() == SPACES@ ==> forall|i: int, j: int|
                0 <= i < r@.len() && 0 <= j < r@[i]@.len() ==> !is_space(#[trigger] r@[i]@[j]),
    {
        self.rx.split(text).map(str::to_string).collect()
    }

    /// Replaces every match by a text.
    pub fn replace(&self, text: &str, by: &str) -> (r: String)
        ensures
            r@ == replaced(self.source(), self.ignores_case(), text@, by@),
    {
        let parts = self.split(text);
        crate::text::join(&parts, by)
    }
}

/// A text with every match of a pattern replaced by a text.
pub open spec fn replaced(
    pattern: Seq<char>,
    any_case: bool,
    text: Seq<char>,
    by: Seq<char>,
) -> Seq<char> {
    joined(regex_pieces(pattern, any_case, text), by)
}

/// One of the library's own patterns, compiled.
pub fn own_pattern(pattern: &str) -> (r: Pattern)
    requires
        built_in(pattern@),
    ensures
        r.source() == pattern@,
        !r.ignores_case(),
{
    compile(pattern, false).unwrap()
}

/// Parts and fillings in turn, beginning and ending with a part.
pub open spec fn woven(parts: Seq<Seq<char>>, fillings: Seq<Seq<char>>) -> Seq<char>
    decreases fillings.len(),
{
    if parts.len() == 0 {
        Seq::<char>::empty()
    } else if fillings.len() == 0 || parts.len() != fillings.len() + 1 {
        parts[0]
    } else {
        woven(parts.drop_last(), fillings.drop_last()) + fillings.last() + parts.last()
    }
}

/// Puts parts and fillings together in turn.
pub fn weave(parts: &Vec<String>, fillings: &Vec<String>) -> (r: String)
    requires
        parts@.len() == fillings@.len() + 1,
    ensures
        r@ == woven(texts(parts@), texts(fillings@)),
{
    let ghost ps = texts(parts@);
    let ghost fs = texts(fillings@);
    let mut out = owned(parts[0].as_str());
    for i in 0..fillings.len()
        invariant
            ps == texts(parts@),
            fs == texts(fillings@),
            parts@.len() == fillings@.len() + 1,
            out@ == woven(ps.take(i as int + 1), fs.take(i as int)),
    {
        assert(ps.take(i as int + 2).drop_last() =~= ps.take(i as int + 1));
        assert(fs.take(i as int + 1).drop_last() =~= fs.take(i as int));
        assert(ps[i as int + 1] == parts@[i as int + 1]@);
        assert(fs[i as int] == fillings@[i as int]@);
        out.append(fillings[i].as_str());
        out.append(parts[i + 1].as_str());
    }
    assert(ps.take(parts@.len() as int) =~= ps);
    assert(fs.take(fillings@.len() as int) =~= fs);
    out
}

/// A group of a match, where the match has it.
pub open spec fn group_of(groups: Seq<Option<Seq<char>>>, n: int) -> Option<Seq<char>> {
    if 0 <= n < groups.len() {
        groups[n]
    } else {
        None
    }
}

/// Reads a group of a match.
pub fn group(groups: &Vec<Option<String>>, n: usize) -> (r: Option<String>)
    ensures
        opt_text(r) == group_of(groups@.map_values(|g: Option<String>| opt_text(g)), n as int),
{
    if n < groups.len() {
        crate::text::copy_opt(&groups[n])
    } else {
        None
    }
}

/// A group of the first match, where there is a match and it has the group.
pub open spec fn first_group(pattern: Seq<char>, text: Seq<char>, n: int) -> Option<Seq<char>> {
    let all = regex_matches(pattern, false, text);
    if all.len() > 0 {
        group_of(all[0], n)
    } else {
        None
    }
}

/// Reads a group of the first match of one of the library's own patterns.
pub fn find_group(pattern: &str, text: &str, n: usize) -> (r: Option<String>)
    requires
        built_in(pattern@),
    ensures
        opt_text(r) == first_group(pattern@, text@, n as int),
{
    let all = own_pattern(pattern).matches(text);
    if all.len() > 0 {
        assert(match_views(all@)[0] == all@[0]@.map_values(|g: Option<String>| opt_text(g)));
        group(&all[0], n)
    } else {
        None
    }
}

} // verus!
