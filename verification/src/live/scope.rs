//! Namespaces: how they get into the stream selector of a query.

use crate::cli::Ns;
use crate::text::{
    begins, chars_of, copy_texts, cut_front, find_char, is_space, join, joined, lemma_place_of, opt_str, opt_text,
    owned, past_prefix, place_of, quote, quoted, space, starts_with, strip_prefix, text_between, texts, trim_front,
    CharSet,
};
use vstd::prelude::*;

verus! {

/// Whether a place in a query is in a string, and in which kind.
#[derive(Clone, Copy, PartialEq, Eq, Structural)]
pub enum Quoting {
    /// in none
    Outside,
    /// in one between double quotes
    Double,
    /// in one between double quotes, after a backslash
    Escaped,
    /// in one between backquotes, where a backslash means nothing
    Raw,
}

/// How a place stands to strings after one more character.
pub open spec fn quoting_after(q: Quoting, c: char) -> Quoting {
    match q {
        Quoting::Outside => if c == '"' {
            Quoting::Double
        } else if c == '`' {
            Quoting::Raw
        } else {
            Quoting::Outside
        },
        Quoting::Double => if c == '\\' {
            Quoting::Escaped
        } else if c == '"' {
            Quoting::Outside
        } else {
            Quoting::Double
        },
        Quoting::Escaped => Quoting::Double,
        Quoting::Raw => if c == '`' {
            Quoting::Outside
        } else {
            Quoting::Raw
        },
    }
}

fn step_quoting(q: Quoting, c: char) -> (r: Quoting)
    ensures
        r == quoting_after(q, c),
{
    match q {
        Quoting::Outside => if c == '"' {
            Quoting::Double
        } else if c == '`' {
            Quoting::Raw
        } else {
            Quoting::Outside
        },
        Quoting::Double => if c == '\\' {
            Quoting::Escaped
        } else if c == '"' {
            Quoting::Outside
        } else {
            Quoting::Double
        },
        Quoting::Escaped => Quoting::Double,
        Quoting::Raw => if c == '`' {
            Quoting::Outside
        } else {
            Quoting::Raw
        },
    }
}

/// How the end of a text stands to the strings in it.
pub open spec fn quoting(s: Seq<char>) -> Quoting
    decreases s.len(),
{
    if s.len() == 0 {
        Quoting::Outside
    } else {
        quoting_after(quoting(s.drop_last()), s.last())
    }
}

/// Whether a closing brace stands at a place, outside strings.
pub open spec fn closes_at(query: Seq<char>, at: int) -> bool {
    0 <= at < query.len() && query[at] == '}' && quoting(query.take(at)) == Quoting::Outside
}

/// Where the first closing brace stands that is outside strings.
pub open spec fn first_close(query: Seq<char>) -> Option<int>
    decreases query.len(),
{
    if query.len() == 0 {
        None
    } else {
        match first_close(query.drop_last()) {
            Some(at) => Some(at),
            None => if query.last() == '}' && quoting(query.drop_last()) == Quoting::Outside {
                Some(query.len() - 1)
            } else {
                None
            },
        }
    }
}

proof fn lemma_first_close_stays(query: Seq<char>, n: int)
    requires
        0 <= n <= query.len(),
        first_close(query.take(n)) is Some,
    ensures
        first_close(query) == first_close(query.take(n)),
    decreases query.len() - n,
{
    if n < query.len() {
        assert(query.take(n + 1).drop_last() =~= query.take(n));
        lemma_first_close_stays(query, n + 1);
    } else {
        assert(query.take(n) =~= query);
    }
}

/// Where the stream selector of a query ends: at the first closing brace outside strings, or at
/// the first one where they are all inside.
pub open spec fn selector_end(query: Seq<char>) -> Option<int> {
    match first_close(query) {
        Some(at) => Some(at),
        None => place_of(query, '}'),
    }
}

fn find_selector_end(v: &Vec<char>) -> (r: Option<usize>)
    ensures
        match r {
            Some(i) => selector_end(v@) == Some(i as int) && i < v@.len(),
            None => selector_end(v@) is None,
        },
{
    let mut q = Quoting::Outside;
    for i in 0..v.len()
        invariant
            q == quoting(v@.take(i as int)),
            first_close(v@.take(i as int)) is None,
    {
        assert(v@.take(i as int + 1).drop_last() =~= v@.take(i as int));
        if v[i] == '}' && q == Quoting::Outside {
            proof {
                lemma_first_close_stays(v@, i as int + 1);
            }
            return Some(i);
        }
        q = step_quoting(q, v[i]);
    }
    assert(v@.take(v@.len() as int) =~= v@);
    find_char(v, '}')
}

/// What stands in the stream selector of a query: between the first opening brace and the end of
/// the selector, where they are in that order.
pub open spec fn selector_of(query: Seq<char>) -> Option<Seq<char>> {
    match (place_of(query, '{'), selector_end(query)) {
        (Some(a), Some(b)) if b > a => Some(query.subrange(a + 1, b)),
        _ => None,
    }
}

/// Whether a text begins with an operator of a matcher: `=`, `=~`, `!=` or `!~`.
pub open spec fn begins_operator(s: Seq<char>) -> bool {
    begins(s, "="@) || begins(s, "!="@) || begins(s, "!~"@)
}

/// Whether a matcher on the namespace stands at a place of a selector: the whole label, outside
/// strings, and an operator.
pub open spec fn namespace_at(selector: Seq<char>, at: int) -> bool {
    &&& 0 <= at < selector.len()
    &&& quoting(selector.take(at)) == Quoting::Outside
    &&& at == 0 || selector[at - 1] == ',' || is_space(selector[at - 1])
    &&& past_prefix(selector.skip(at), "namespace"@) matches Some(rest) && begins_operator(
        cut_front(rest, CharSet::Space),
    )
}

/// Whether a selector has a matcher on the namespace.
pub open spec fn names_namespace(selector: Seq<char>) -> bool {
    exists|at: int| namespace_at(selector, at)
}

/// Whether the stream selector of a query has a matcher on the namespace.
pub open spec fn sets_namespace(query: Seq<char>) -> bool {
    match selector_of(query) {
        Some(selector) => names_namespace(selector),
        None => false,
    }
}

fn matches_namespace(s: &str) -> (r: bool)
    ensures
        r == (past_prefix(s@, "namespace"@) matches Some(rest) && begins_operator(cut_front(rest, CharSet::Space))),
{
    match strip_prefix(s, "namespace") {
        Some(rest) => {
            let rest = trim_front(rest.as_str(), CharSet::Space);
            starts_with(rest.as_str(), "=") || starts_with(rest.as_str(), "!=") || starts_with(rest.as_str(), "!~")
        },
        None => false,
    }
}

fn has_namespace(v: &Vec<char>) -> (r: bool)
    ensures
        r == names_namespace(v@),
{
    let mut q = Quoting::Outside;
    for i in 0..v.len()
        invariant
            q == quoting(v@.take(i as int)),
            forall|at: int| 0 <= at < i ==> !namespace_at(v@, at),
    {
        if q == Quoting::Outside && (i == 0 || v[i - 1] == ',' || space(v[i - 1])) {
            let rest = text_between(v, i, v.len());
            assert(rest@ =~= v@.skip(i as int));
            if matches_namespace(rest.as_str()) {
                assert(namespace_at(v@, i as int));
                return true;
            }
        }
        assert(v@.take(i as int + 1).drop_last() =~= v@.take(i as int));
        q = step_quoting(q, v[i]);
    }
    false
}

/// Tells whether the stream selector of a query has a matcher on the namespace.
pub fn selector_has_namespace(query: &str) -> (r: bool)
    ensures
        r == sets_namespace(query@),
{
    let v = chars_of(query);
    match (find_char(&v, '{'), find_selector_end(&v)) {
        (Some(a), Some(b)) => if b > a {
            let inner = chars_of(text_between(&v, a + 1, b).as_str());
            assert(selector_of(query@) == Some(inner@));
            has_namespace(&inner)
        } else {
            false
        },
        _ => false,
    }
}

/// Whether a character may stand in a namespace.
pub open spec fn namespace_char(c: char) -> bool {
    ||| 'a' <= c <= 'z'
    ||| 'A' <= c <= 'Z'
    ||| '0' <= c <= '9'
    ||| c == '.'
    ||| c == '_'
    ||| c == '*'
    ||| c == '-'
}

/// Whether a text is a namespace.
pub open spec fn is_namespace(ns: Seq<char>) -> bool {
    ns.len() > 0 && forall|i: int| 0 <= i < ns.len() ==> namespace_char(#[trigger] ns[i])
}

/// Tells whether a text is a namespace.
pub fn ns_ok(ns: &str) -> (r: bool)
    ensures
        r == is_namespace(ns@),
{
    let v = chars_of(ns);
    if v.len() == 0 {
        return false;
    }
    for i in 0..v.len()
        invariant
            v@ == ns@,
            forall|k: int| 0 <= k < i ==> namespace_char(#[trigger] v@[k]),
    {
        let c = v[i];
        if !((c >= 'a' && c <= 'z') || (c >= 'A' && c <= 'Z') || (c >= '0' && c <= '9') || c == '.' || c == '_'
            || c == '*' || c == '-') {
            assert(!namespace_char(ns@[i as int]));
            return false;
        }
    }
    true
}

/// The first text that is not a namespace.
pub open spec fn bad_namespace(nss: Seq<Seq<char>>) -> Option<Seq<char>>
    decreases nss.len(),
{
    if nss.len() == 0 {
        None
    } else if !is_namespace(nss[0]) {
        Some(nss[0])
    } else {
        bad_namespace(nss.skip(1))
    }
}

/// The matcher for namespaces, or the complaint about the first text that is none.
pub open spec fn matcher_for(nss: Seq<Seq<char>>) -> Result<Seq<char>, Seq<char>> {
    match bad_namespace(nss) {
        Some(ns) => Err(
            "invalid --namespace "@ + quoted(ns)
                + ": only [A-Za-z0-9._*-] allowed. For a custom matcher, put it in -q directly."@,
        ),
        None => Ok("namespace=~\""@ + joined(nss, "|"@) + "\""@),
    }
}

/// The view of a result of two texts.
pub open spec fn text_outcome(r: Result<String, String>) -> Result<Seq<char>, Seq<char>> {
    match r {
        Ok(s) => Ok(s@),
        Err(e) => Err(e@),
    }
}

/// Makes the matcher for namespaces.
pub fn ns_matcher(nss: &Vec<String>) -> (r: Result<String, String>)
    ensures
        text_outcome(r) == matcher_for(texts(nss@)),
{
    let ghost all = texts(nss@);
    assert(all.skip(0) =~= all);
    for i in 0..nss.len()
        invariant
            all == texts(nss@),
            bad_namespace(all) == bad_namespace(all.skip(i as int)),
    {
        assert(all.skip(i as int)[0] == nss@[i as int]@);
        assert(all.skip(i as int).skip(1) =~= all.skip(i as int + 1));
        if !ns_ok(nss[i].as_str()) {
            let mut e = owned("invalid --namespace ");
            e.append(quote(nss[i].as_str()).as_str());
            e.append(": only [A-Za-z0-9._*-] allowed. For a custom matcher, put it in -q directly.");
            return Err(e);
        }
    }
    assert(all.skip(nss@.len() as int).len() == 0);
    let mut s = owned("namespace=~\"");
    s.append(join(nss, "|").as_str());
    s.append("\"");
    Ok(s)
}

/// A query with a matcher put at the front of its stream selector, or a selector of that
/// matcher alone where the query has none.
pub open spec fn with_matcher(query: Seq<char>, matcher: Seq<char>) -> Seq<char> {
    match place_of(query, '{') {
        Some(at) => {
            let rest = query.skip(at + 1);
            if begins(cut_front(rest, CharSet::Space), "}"@) {
                query.take(at + 1) + matcher + rest
            } else {
                query.take(at + 1) + matcher + ", "@ + rest
            }
        },
        None => "{"@ + matcher + "}"@,
    }
}

/// Puts a matcher at the front of the stream selector of a query.
pub fn inject_ns(query: &str, matcher: &str) -> (r: String)
    ensures
        r@ == with_matcher(query@, matcher@),
{
    let v = chars_of(query);
    match find_char(&v, '{') {
        Some(at) => {
            let rest = text_between(&v, at + 1, v.len());
            assert(rest@ =~= query@.skip(at as int + 1));
            let mut s = text_between(&v, 0, at + 1);
            assert(s@ =~= query@.take(at as int + 1));
            s.append(matcher);
            if !starts_with(trim_front(rest.as_str(), CharSet::Space).as_str(), "}") {
                s.append(", ");
            }
            s.append(rest.as_str());
            s
        },
        None => {
            let mut s = owned("{");
            s.append(matcher);
            s.append("}");
            s
        },
    }
}

/// The namespaces that a query is scoped to: those asked for, unless the query has a matcher of
/// its own.
pub open spec fn scoped_to(query: Seq<char>, ns: Seq<Seq<char>>) -> Option<Seq<Seq<char>>> {
    if sets_namespace(query) || ns.len() == 0 {
        None
    } else {
        Some(ns)
    }
}

/// Finds the namespaces that a query is scoped to.
pub fn resolve_ns(query: &str, ns: &Ns) -> (r: Option<Vec<String>>)
    ensures
        match r {
            Some(v) => scoped_to(query@, texts(ns.namespace@)) == Some(texts(v@)),
            None => scoped_to(query@, texts(ns.namespace@)) is None,
        },
{
    assert(texts(ns.namespace@).len() == ns.namespace@.len());
    if ns.namespace.len() == 0 || selector_has_namespace(query) {
        None
    } else {
        Some(copy_texts(&ns.namespace))
    }
}

/// The note that namespaces which were asked for are ignored.
pub open spec fn ignored_note(query: Seq<char>, ns: Seq<Seq<char>>) -> Option<Seq<char>> {
    if sets_namespace(query) && ns.len() > 0 {
        Some("note: -q already sets a namespace matcher — keeping it, ignoring --namespace"@)
    } else {
        None
    }
}

/// Notes that namespaces which were asked for are ignored.
pub fn ns_note(query: &str, ns: &Ns) -> (r: Option<String>)
    ensures
        opt_text(r) == ignored_note(query@, texts(ns.namespace@)),
{
    assert(texts(ns.namespace@).len() == ns.namespace@.len());
    if ns.namespace.len() > 0 && selector_has_namespace(query) {
        Some(owned("note: -q already sets a namespace matcher — keeping it, ignoring --namespace"))
    } else {
        None
    }
}

/// A query with the matcher for namespaces in its selector, or the complaint about one of them.
pub open spec fn query_within(query: Seq<char>, nss: Seq<Seq<char>>) -> Result<Seq<char>, Seq<char>> {
    match matcher_for(nss) {
        Ok(m) => Ok(with_matcher(query, m)),
        Err(e) => Err(e),
    }
}

/// Puts the matcher for namespaces into the selector of a query.
pub fn scope_within(query: &str, nss: &Vec<String>) -> (r: Result<String, String>)
    ensures
        text_outcome(r) == query_within(query@, texts(nss@)),
{
    match ns_matcher(nss) {
        Ok(m) => Ok(inject_ns(query, m.as_str())),
        Err(e) => Err(e),
    }
}

/// A query scoped to namespaces, or the complaint about one of them.
pub open spec fn scoped_query(query: Seq<char>, ns: Seq<Seq<char>>) -> Result<Seq<char>, Seq<char>> {
    match scoped_to(query, ns) {
        Some(nss) => query_within(query, nss),
        None => Ok(query),
    }
}

/// Scopes a query to namespaces.
pub fn apply_ns(query: &str, ns: &Ns) -> (r: Result<String, String>)
    ensures
        text_outcome(r) == scoped_query(query@, texts(ns.namespace@)),
{
    match resolve_ns(query, ns) {
        Some(nss) => scope_within(query, &nss),
        None => Ok(owned(query)),
    }
}

/// A query that may be missing, scoped to namespaces.
pub open spec fn scoped_option(
    query: Option<Seq<char>>,
    ns: Seq<Seq<char>>,
) -> Result<Option<Seq<char>>, Seq<char>> {
    let q = match query {
        Some(q) => q,
        None => ""@,
    };
    match scoped_to(q, ns) {
        Some(nss) => match query_within(q, nss) {
            Ok(scoped) => Ok(Some(scoped)),
            Err(e) => Err(e),
        },
        None => Ok(query),
    }
}

/// Scopes a query that may be missing to namespaces.
pub fn apply_ns_opt(query: Option<&str>, ns: &Ns) -> (r: Result<Option<String>, String>)
    ensures
        match r {
            Ok(q) => scoped_option(opt_str(query), texts(ns.namespace@)) == Ok::<Option<Seq<char>>, Seq<char>>(
                opt_text(q),
            ),
            Err(e) => scoped_option(opt_str(query), texts(ns.namespace@)) == Err::<
                Option<Seq<char>>,
                Seq<char>,
            >(e@),
        },
{
    let q: &str = match query {
        Some(q) => q,
        None => "",
    };
    match resolve_ns(q, ns) {
        Some(nss) => match scope_within(q, &nss) {
            Ok(scoped) => Ok(Some(scoped)),
            Err(e) => Err(e),
        },
        None => match query {
            Some(q) => Ok(Some(owned(q))),
            None => Ok(None),
        },
    }
}

/// A namespace matcher that a query has of its own always wins: the query stays as it is.
pub proof fn explicit_namespace_wins(query: Seq<char>, ns: Seq<Seq<char>>)
    requires
        sets_namespace(query),
    ensures
        scoped_query(query, ns) == Ok::<Seq<char>, Seq<char>>(query),
        scoped_option(Some(query), ns) == Ok::<Option<Seq<char>>, Seq<char>>(Some(query)),
{
}

/// A query stays as it is where no namespace is asked for.
pub proof fn no_namespace_changes_nothing(query: Seq<char>)
    ensures
        scoped_query(query, Seq::<Seq<char>>::empty()) == Ok::<Seq<char>, Seq<char>>(query),
        scoped_option(None, Seq::<Seq<char>>::empty()) == Ok::<Option<Seq<char>>, Seq<char>>(None),
{
}

/// The first closing brace outside strings is one, and none before it is.
pub proof fn lemma_first_close(query: Seq<char>)
    ensures
        match first_close(query) {
            Some(b) => closes_at(query, b) && forall|j: int| 0 <= j < b ==> !closes_at(query, j),
            None => forall|j: int| !closes_at(query, j),
        },
    decreases query.len(),
{
    if query.len() > 0 {
        let front = query.drop_last();
        lemma_first_close(front);
        assert forall|j: int| 0 <= j < front.len() implies closes_at(query, j) == closes_at(front, j) by {
            assert(query.take(j) =~= front.take(j));
        }
        assert(query.take(front.len() as int) =~= front);
    }
}

proof fn lemma_joined_chars(nss: Seq<Seq<char>>)
    requires
        forall|i: int| 0 <= i < nss.len() ==> is_namespace(#[trigger] nss[i]),
    ensures
        forall|k: int|
            0 <= k < joined(nss, "|"@).len() ==> namespace_char(#[trigger] joined(nss, "|"@)[k]) || joined(
                nss,
                "|"@,
            )[k] == '|',
    decreases nss.len(),
{
    reveal_strlit("|");
    if nss.len() == 1 {
        assert(is_namespace(nss[0]));
        assert(joined(nss, "|"@) =~= nss[0]);
    } else if nss.len() > 1 {
        let front = nss.drop_last();
        assert forall|i: int| 0 <= i < front.len() implies is_namespace(#[trigger] front[i]) by {
            assert(front[i] == nss[i]);
        }
        lemma_joined_chars(front);
        assert(is_namespace(nss[nss.len() - 1]));
        let a = joined(front, "|"@);
        let whole = joined(nss, "|"@);
        assert forall|k: int| 0 <= k < whole.len() implies namespace_char(#[trigger] whole[k]) || whole[k] == '|' by {
            if k < a.len() {
                assert(whole[k] == a[k]);
            } else if k > a.len() {
                assert(whole[k] == nss.last()[k - a.len() - 1]);
            }
        }
    }
}

/// Where nothing is found that is no namespace, everything is one.
pub proof fn lemma_no_bad(nss: Seq<Seq<char>>)
    requires
        bad_namespace(nss) is None,
    ensures
        forall|i: int| 0 <= i < nss.len() ==> is_namespace(#[trigger] nss[i]),
    decreases nss.len(),
{
    if nss.len() > 0 {
        lemma_no_bad(nss.skip(1));
        assert forall|i: int| 0 <= i < nss.len() implies is_namespace(#[trigger] nss[i]) by {
            if i > 0 {
                assert(nss.skip(1)[i - 1] == nss[i]);
            }
        }
    }
}

/// The matcher for namespaces cannot break out of its quotes: between them stand characters
/// that a namespace may have, and bars.
pub proof fn matcher_stays_in_its_quotes(nss: Seq<Seq<char>>)
    ensures
        matcher_for(nss) matches Ok(m) ==> exists|inner: Seq<char>|
            m == "namespace=~\""@ + inner + "\""@ && forall|k: int|
                0 <= k < inner.len() ==> namespace_char(#[trigger] inner[k]) || inner[k] == '|',
{
    if let Ok(m) = matcher_for(nss) {
        lemma_no_bad(nss);
        lemma_joined_chars(nss);
        let inner = joined(nss, "|"@);
        assert(m == "namespace=~\""@ + inner + "\""@);
    }
}

/// Whether a character opens or closes no string and no selector.
pub open spec fn is_plain(c: char) -> bool {
    c != '"' && c != '`' && c != '\\' && c != '{' && c != '}'
}

/// Plain text changes nothing about the strings after it.
pub proof fn lemma_plain_keeps_quoting(x: Seq<char>, y: Seq<char>)
    requires
        quoting(x) != Quoting::Escaped,
        forall|k: int| 0 <= k < y.len() ==> is_plain(#[trigger] y[k]),
    ensures
        quoting(x + y) == quoting(x),
    decreases y.len(),
{
    if y.len() == 0 {
        assert(x + y =~= x);
    } else {
        lemma_plain_keeps_quoting(x, y.drop_last());
        assert((x + y).drop_last() =~= x + y.drop_last());
        assert(is_plain(y[y.len() - 1]));
        assert((x + y).last() == y.last());
    }
}

proof fn lemma_equal_quoting(x: Seq<char>, y: Seq<char>, rest: Seq<char>)
    requires
        quoting(x) == quoting(y),
    ensures
        quoting(x + rest) == quoting(y + rest),
    decreases rest.len(),
{
    if rest.len() == 0 {
        assert(x + rest =~= x);
        assert(y + rest =~= y);
    } else {
        lemma_equal_quoting(x, y, rest.drop_last());
        assert((x + rest).drop_last() =~= x + rest.drop_last());
        assert((y + rest).drop_last() =~= y + rest.drop_last());
    }
}

/// A matcher in a query changes nothing about the strings after it.
proof fn lemma_matcher_keeps_quoting(x: Seq<char>, inner: Seq<char>)
    requires
        quoting(x) != Quoting::Escaped,
        forall|k: int| 0 <= k < inner.len() ==> is_plain(#[trigger] inner[k]),
    ensures
        quoting(x + ("namespace=~\""@ + inner + "\""@)) == quoting(x),
{
    reveal_strlit("namespace=~\"");
    reveal_strlit("\"");
    let whole = "namespace=~\""@;
    let label = whole.drop_last();
    lemma_plain_keeps_quoting(x, label);
    let open = x + whole;
    assert(open.drop_last() =~= x + label);
    assert(open.last() == '"');
    lemma_plain_keeps_quoting(open, inner);
    let shut = x + (whole + inner + "\""@);
    assert(shut.drop_last() =~= open + inner);
    assert(shut.last() == '"');
}

/// A matcher on the namespace at the front of a selector is found there.
proof fn lemma_matcher_found(selector: Seq<char>, m: Seq<char>)
    requires
        m.len() >= 11,
        m.take(11) == "namespace=~"@,
        selector.len() >= m.len(),
        forall|k: int| 0 <= k < m.len() ==> selector[k] == m[k],
    ensures
        namespace_at(selector, 0),
{
    reveal_strlit("namespace=~");
    reveal_strlit("namespace");
    reveal_strlit("=");
    assert(forall|k: int| 0 <= k < 11 ==> selector[k] == m.take(11)[k]);
    assert(selector.take(0) =~= Seq::<char>::empty());
    assert(selector.skip(0) =~= selector);
    assert(selector.subrange(0, 9) =~= "namespace"@);
    let after = selector.skip(9);
    assert(after[0] == '=');
    assert(!is_space('='));
    assert(cut_front(after, CharSet::Space) == after);
    assert(after.subrange(0, 1) =~= "="@);
}

/// A closing brace outside strings stays outside them where plain text, or a string as a whole,
/// is put in before it.
proof fn lemma_close_moves(query: Seq<char>, at: int, put: Seq<char>, j: int)
    requires
        0 <= at < j < query.len(),
        quoting(query.take(at + 1) + put) == quoting(query.take(at + 1)),
    ensures
        closes_at(query.take(at + 1) + put + query.skip(at + 1), j + put.len()) == closes_at(query, j),
{
    let x = query.take(at + 1);
    let q = x + put + query.skip(at + 1);
    let part = query.subrange(at + 1, j);
    lemma_equal_quoting(x, x + put, part);
    assert(query.take(j) =~= x + part);
    assert(q.take(j + put.len()) =~= x + put + part);
    assert(q[j + put.len()] == query[j]);
}

/// The selector of a query still ends after what is put at its front.
proof fn lemma_end_moves(query: Seq<char>, at: int, put: Seq<char>)
    requires
        place_of(query, '{') == Some(at),
        selector_of(query) is Some,
        quoting(query.take(at + 1) + put) == quoting(query.take(at + 1)),
        forall|k: int| 0 <= k < put.len() ==> put[k] != '{' && put[k] != '}',
    ensures
        ({
            let q = query.take(at + 1) + put + query.skip(at + 1);
            &&& place_of(q, '{') == Some(at)
            &&& selector_end(q) matches Some(end) && at + put.len() < end < q.len()
        }),
{
    let x = query.take(at + 1);
    let q = x + put + query.skip(at + 1);
    lemma_place_of(query, '{');
    lemma_place_of(query, '}');
    lemma_place_of(q, '{');
    lemma_place_of(q, '}');
    lemma_first_close(query);
    lemma_first_close(q);
    assert(forall|j: int| 0 <= j <= at ==> q[j] == query[j]);
    assert(q[at] == '{');
    assert forall|j: int| 0 <= j <= at implies closes_at(q, j) == closes_at(query, j) by {
        assert(q.take(j) =~= query.take(j));
    }
    let b = selector_end(query)->0;
    assert(at < b < query.len() && query[b] == '}');
    assert(q[b + put.len()] == '}');
    if first_close(query) is Some {
        lemma_close_moves(query, at, put, b);
        assert(closes_at(q, b + put.len()));
    }
    let end = selector_end(q)->0;
    assert(selector_end(q) is Some);
    assert(q[end] == '}');
    assert(end > at) by {
        if end <= at {
            assert(query[end] == '}');
            if first_close(q) is Some {
                assert(closes_at(query, end));
            }
        }
    }
    assert(end > at + put.len()) by {
        if end <= at + put.len() {
            assert(q[end] == put[end - at - 1]);
        }
    }
}

/// A matcher for namespaces that is put into a query stands at the front of its selector.
pub proof fn lemma_scoped_sets_namespace(query: Seq<char>, nss: Seq<Seq<char>>)
    requires
        bad_namespace(nss) is None,
        place_of(query, '{') is None || selector_of(query) is Some,
    ensures
        sets_namespace(with_matcher(query, "namespace=~\""@ + joined(nss, "|"@) + "\""@)),
        selector_of(with_matcher(query, "namespace=~\""@ + joined(nss, "|"@) + "\""@)) matches Some(selector)
            && begins(selector, "namespace=~\""@ + joined(nss, "|"@) + "\""@),
{
    reveal_strlit("namespace=~\"");
    reveal_strlit("namespace=~");
    reveal_strlit("\"");
    lemma_no_bad(nss);
    lemma_joined_chars(nss);
    let inner = joined(nss, "|"@);
    let m = "namespace=~\""@ + inner + "\""@;
    assert(m.take(11) =~= "namespace=~"@);
    assert(forall|k: int| 0 <= k < m.len() ==> m[k] != '{' && m[k] != '}');
    let q = with_matcher(query, m);
    lemma_place_of(query, '{');
    match place_of(query, '{') {
        None => {
            reveal_strlit("{");
            reveal_strlit("}");
            lemma_place_of(q, '{');
            lemma_place_of(q, '}');
            lemma_first_close(q);
            assert(q[0] == '{' && q[q.len() - 1] == '}');
            assert(forall|j: int| 0 < j < q.len() - 1 ==> q[j] == m[j - 1]);
            assert(place_of(q, '{') == Some(0int));
            assert(place_of(q, '}') == Some(q.len() - 1));
            assert(selector_end(q) == Some(q.len() - 1));
            let selector = selector_of(q)->0;
            assert(selector =~= m);
            assert(selector.subrange(0, m.len() as int) =~= m);
            lemma_matcher_found(selector, m);
        },
        Some(at) => {
            reveal_strlit(", ");
            let x = query.take(at + 1);
            assert(quoting(x) != Quoting::Escaped) by {
                assert(x.last() == '{');
            }
            lemma_matcher_keeps_quoting(x, inner);
            lemma_plain_keeps_quoting(x + m, ", "@);
            let put = if begins(cut_front(query.skip(at + 1), CharSet::Space), "}"@) {
                m
            } else {
                m + ", "@
            };
            assert(x + (m + ", "@) =~= x + m + ", "@);
            assert(q =~= x + put + query.skip(at + 1));
            assert(forall|k: int| 0 <= k < put.len() ==> put[k] != '{' && put[k] != '}');
            lemma_end_moves(query, at, put);
            let selector = selector_of(q)->0;
            assert(forall|k: int| 0 <= k < m.len() ==> selector[k] == q[at + 1 + k] && q[at + 1 + k] == m[k]);
            assert(selector.subrange(0, m.len() as int) =~= m);
            lemma_matcher_found(selector, m);
        },
    }
}

/// Scoping a query twice is scoping it once, unless a query that is to be scoped has an opening
/// brace and no closed selector.
pub proof fn scoping_twice_is_scoping_once(query: Seq<char>, ns: Seq<Seq<char>>)
    requires
        ns.len() == 0 || place_of(query, '{') is None || selector_of(query) is Some,
    ensures
        scoped_query(query, ns) matches Ok(scoped) ==> scoped_query(scoped, ns) == Ok::<Seq<char>, Seq<char>>(scoped),
{
    if let Some(nss) = scoped_to(query, ns) {
        if bad_namespace(nss) is None {
            lemma_scoped_sets_namespace(query, nss);
        }
    }
}

} // verus!
