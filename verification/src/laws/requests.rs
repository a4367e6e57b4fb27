//! Laws of the requests to Loki: what they ask for, where, and over which time.

use crate::live::duration::{lemma_decimal_is_digits, lemma_digit_run, secs_in, secs_of, terms};
use crate::live::request::{labels_plan, live_plan, metric_plan, values_plan};
use crate::live::scope::{
    bad_namespace, begins_operator, closes_at, first_close, ignored_note, is_namespace, is_plain, lemma_first_close,
    lemma_no_bad, lemma_plain_keeps_quoting, lemma_scoped_sets_namespace, names_namespace, namespace_at, quoting,
    quoting_after, scoped_query, selector_of, sets_namespace, with_matcher, Quoting,
};
use crate::live::window::{instant_ns, tiling_warning, window_bounds, TimeRangeView};
use crate::number::{decimal, int_text, is_digit};
use crate::text::{begins, cut_front, ends, is_space, joined, lemma_place_of, past_prefix, place_of, trimmed, CharSet};
use vstd::prelude::*;

verus! {

/// Whether a request has a parameter with a value, and none of that name with another.
pub open spec fn carries(params: Seq<(Seq<char>, Seq<char>)>, name: Seq<char>, value: Seq<char>) -> bool {
    &&& exists|k: int| 0 <= k < params.len() && #[trigger] params[k] == (name, value)
    &&& forall|k: int| 0 <= k < params.len() && (#[trigger] params[k]).0 == name ==> params[k].1 == value
}

/// Whether a request has no parameter of a name.
pub open spec fn lacks(params: Seq<(Seq<char>, Seq<char>)>, name: Seq<char>) -> bool {
    forall|k: int| 0 <= k < params.len() ==> (#[trigger] params[k]).0 != name
}

/// A parameter is carried where it stands, if no other one has its name.
pub proof fn lemma_carries(params: Seq<(Seq<char>, Seq<char>)>, at: int, name: Seq<char>, value: Seq<char>)
    requires
        0 <= at < params.len(),
        params[at] == (name, value),
        forall|k: int| 0 <= k < at ==> (#[trigger] params[k]).0 != name,
        forall|k: int| at < k < params.len() ==> (#[trigger] params[k]).0 != name,
    ensures
        carries(params, name, value),
{
}

/// The matcher that is true of the namespaces and of no other.
pub open spec fn namespaces(ns: Seq<Seq<char>>) -> Seq<char> {
    "namespace=~\""@ + joined(ns, "|"@) + "\""@
}

/// Whether a query is another one scoped to namespaces: the same where none is asked for or it
/// has a matcher on the namespace already; a selector of the matcher alone where it has no
/// selector; and else the same but for the matcher, which stands right behind the first opening
/// brace, with a comma after it unless it is alone there.
pub open spec fn is_scoped(q: Seq<char>, query: Seq<char>, ns: Seq<Seq<char>>) -> bool {
    if ns.len() == 0 || sets_namespace(query) {
        q == query
    } else if !query.contains('{') {
        q == "{"@ + namespaces(ns) + "}"@
    } else {
        exists|front: Seq<char>, rest: Seq<char>|
            !front.contains('{') && query == #[trigger] (front + "{"@ + rest) && (q == front + "{"@ + namespaces(ns)
                + rest || q == front + "{"@ + namespaces(ns) + ", "@ + rest) && (q == front + "{"@ + namespaces(ns)
                + rest ==> begins(cut_front(rest, CharSet::Space), "}"@))
    }
}

/// Whether the matcher for namespaces stands at the front of the selector of a query.
pub open spec fn selects_namespaces(q: Seq<char>, ns: Seq<Seq<char>>) -> bool {
    selector_of(q) matches Some(selector) && begins(selector, namespaces(ns))
}

proof fn lemma_scoped(query: Seq<char>, ns: Seq<Seq<char>>)
    ensures
        scoped_query(query, ns) matches Ok(q) ==> is_scoped(q, query, ns) && (ns.len() > 0 && !sets_namespace(query) && (
        !query.contains('{') || selector_of(query) is Some) ==> selects_namespaces(q, ns)),
{
    if let Ok(q) = scoped_query(query, ns) {
        if ns.len() > 0 && !sets_namespace(query) {
            let m = namespaces(ns);
            assert(q == with_matcher(query, m));
            lemma_place_of(query, '{');
            match place_of(query, '{') {
                Some(at) => {
                    reveal_strlit("{");
                    reveal_strlit("}");
                    reveal_strlit(", ");
                    reveal_strlit("namespace=~\"");
                    assert(query[at] == '{');
                    let front = query.take(at);
                    let rest = query.skip(at + 1);
                    assert(query =~= front + "{"@ + rest);
                    assert(query.take(at + 1) =~= front + "{"@);
                    let short = front + "{"@ + m + rest;
                    let long = front + "{"@ + m + ", "@ + rest;
                    assert(short.len() != long.len());
                    assert(!front.contains('{'));
                },
                None => {
                    assert(!query.contains('{'));
                },
            }
            if !query.contains('{') || selector_of(query) is Some {
                assert(place_of(query, '{') is None || selector_of(query) is Some);
                lemma_scoped_sets_namespace(query, ns);
            }
        }
    }
}

/// A query is scoped to the namespaces that are asked for unless one of them is none.
pub proof fn scoping_fails_only_on_what_is_no_namespace(query: Seq<char>, ns: Seq<Seq<char>>)
    ensures
        scoped_query(query, ns) is Err <==> ns.len() > 0 && !sets_namespace(query) && exists|i: int|
            0 <= i < ns.len() && !is_namespace(#[trigger] ns[i]),
{
    if bad_namespace(ns) is None {
        lemma_no_bad(ns);
    } else {
        lemma_bad(ns);
    }
}

proof fn lemma_bad(ns: Seq<Seq<char>>)
    requires
        bad_namespace(ns) is Some,
    ensures
        exists|i: int| 0 <= i < ns.len() && !is_namespace(#[trigger] ns[i]),
    decreases ns.len(),
{
    if is_namespace(ns[0]) {
        lemma_bad(ns.skip(1));
        let i = choose|i: int| 0 <= i < ns.skip(1).len() && !is_namespace(#[trigger] ns.skip(1)[i]);
        assert(ns[i + 1] == ns.skip(1)[i]);
    }
}

/// The request for a metric asks for the query that is given, scoped to the namespaces that are
/// asked for: where there are some and the query has no matcher on them, theirs stands in its
/// selector, and everything else of the query stays.
pub proof fn a_metric_is_asked_for_within_its_namespaces(
    id: i64,
    query: Seq<char>,
    ns: Seq<Seq<char>>,
    step: Seq<char>,
    time: TimeRangeView,
    now: i64,
)
    ensures
        metric_plan(id, query, ns, step, time, now) matches Ok(p) ==> (p.plan.query matches Some(q) && carries(
            p.plan.request.params,
            "query"@,
            q,
        ) && is_scoped(q, query, ns) && (ns.len() > 0 && !sets_namespace(query) && (!query.contains('{')
            || selector_of(query) is Some) ==> selects_namespaces(q, ns))),
{
    if let Ok(p) = metric_plan(id, query, ns, step, time, now) {
        lemma_scoped(query, ns);
        let params = p.plan.request.params;
        reveal_strlit("query");
        reveal_strlit("start");
        reveal_strlit("end");
        reveal_strlit("step");
        assert("query"@[0] != "start"@[0]);
        assert(params[0] == ("query"@, p.plan.query->0));
        assert(params[1].0 == "start"@ && params[2].0 == "end"@ && params[3].0 == "step"@);
        assert("query"@.len() == 5 && "end"@.len() == 3 && "step"@.len() == 4);
        lemma_carries(params, 0, "query"@, p.plan.query->0);
    }
}

/// The request for a metric asks for the window, from its start to its end, at the step that is
/// given, which is a second at least, of the datasource that is given.
pub proof fn a_metric_is_asked_for_over_its_window(
    id: i64,
    query: Seq<char>,
    ns: Seq<Seq<char>>,
    step: Seq<char>,
    time: TimeRangeView,
    now: i64,
)
    ensures
        metric_plan(id, query, ns, step, time, now) matches Ok(p) ==> (window_bounds(time, now) matches Ok((start, end))
            && carries(p.plan.request.params, "start"@, int_text(start as int)) && carries(
            p.plan.request.params,
            "end"@,
            int_text(end as int),
        ) && carries(p.plan.request.params, "step"@, int_text(p.step as int) + "s"@) && p.step >= 1 && (secs_in(
            step,
        ) matches Some(v) && (v >= 1 ==> p.step == v)) && p.plan.request.path == "/api/datasources/proxy/"@ + int_text(
            id as int,
        ) + "/loki/api/v1/query_range"@),
{
    if let Ok(p) = metric_plan(id, query, ns, step, time, now) {
        let (start, end) = window_bounds(time, now)->Ok_0;
        let params = p.plan.request.params;
        reveal_strlit("query");
        reveal_strlit("start");
        reveal_strlit("end");
        reveal_strlit("step");
        assert("query"@[0] != "start"@[0]);
        assert(params[0].0 == "query"@);
        assert(params[1] == ("start"@, int_text(start as int)));
        assert(params[2] == ("end"@, int_text(end as int)));
        assert(params[3] == ("step"@, int_text(p.step as int) + "s"@));
        assert("start"@.len() == 5 && "end"@.len() == 3 && "step"@.len() == 4);
        lemma_carries(params, 1, "start"@, int_text(start as int));
        lemma_carries(params, 2, "end"@, int_text(end as int));
        lemma_carries(params, 3, "step"@, int_text(p.step as int) + "s"@);
    }
}

/// The request for log lines asks for the query that is given, scoped to the namespaces that are
/// asked for, and for as many lines as wanted, the newest first.
pub proof fn lines_are_asked_for_within_their_namespaces(
    id: i64,
    query: Seq<char>,
    ns: Seq<Seq<char>>,
    limit: nat,
    time: TimeRangeView,
    now: i64,
)
    ensures
        live_plan(id, query, ns, limit, time, now) matches Ok(p) ==> (p.query matches Some(q) && carries(
            p.request.params,
            "query"@,
            q,
        ) && is_scoped(q, query, ns) && (ns.len() > 0 && !sets_namespace(query) && (!query.contains('{')
            || selector_of(query) is Some) ==> selects_namespaces(q, ns)) && carries(
            p.request.params,
            "limit"@,
            decimal(limit),
        ) && carries(p.request.params, "direction"@, "backward"@)),
{
    if let Ok(p) = live_plan(id, query, ns, limit, time, now) {
        lemma_scoped(query, ns);
        let params = p.request.params;
        reveal_strlit("query");
        reveal_strlit("start");
        reveal_strlit("end");
        reveal_strlit("limit");
        reveal_strlit("direction");
        assert("query"@[0] != "start"@[0]);
        assert("query"@[0] != "limit"@[0]);
        assert("start"@[0] != "limit"@[0]);
        assert(params[0] == ("query"@, p.query->0));
        assert(params[1].0 == "start"@ && params[2].0 == "end"@);
        assert(params[3] == ("limit"@, decimal(limit)));
        assert(params[4] == ("direction"@, "backward"@));
        assert("query"@.len() == 5 && "start"@.len() == 5 && "end"@.len() == 3 && "limit"@.len() == 5 && "direction"@.len()
            == 9);
        lemma_carries(params, 0, "query"@, p.query->0);
        lemma_carries(params, 3, "limit"@, decimal(limit));
        lemma_carries(params, 4, "direction"@, "backward"@);
    }
}

/// The request for log lines asks for the window, from its start to its end, of the datasource
/// that is given.
pub proof fn lines_are_asked_for_over_their_window(
    id: i64,
    query: Seq<char>,
    ns: Seq<Seq<char>>,
    limit: nat,
    time: TimeRangeView,
    now: i64,
)
    ensures
        live_plan(id, query, ns, limit, time, now) matches Ok(p) ==> (window_bounds(time, now) matches Ok((start, end))
            && carries(p.request.params, "start"@, int_text(start as int)) && carries(
            p.request.params,
            "end"@,
            int_text(end as int),
        ) && p.request.path == "/api/datasources/proxy/"@ + int_text(id as int) + "/loki/api/v1/query_range"@),
{
    if let Ok(p) = live_plan(id, query, ns, limit, time, now) {
        let (start, end) = window_bounds(time, now)->Ok_0;
        let params = p.request.params;
        reveal_strlit("query");
        reveal_strlit("start");
        reveal_strlit("end");
        reveal_strlit("limit");
        reveal_strlit("direction");
        assert("query"@[0] != "start"@[0]);
        assert("query"@[0] != "limit"@[0]);
        assert("start"@[0] != "limit"@[0]);
        assert(params[0].0 == "query"@);
        assert(params[1] == ("start"@, int_text(start as int)));
        assert(params[2] == ("end"@, int_text(end as int)));
        assert(params[3].0 == "limit"@ && params[4].0 == "direction"@);
        assert("query"@.len() == 5 && "start"@.len() == 5 && "end"@.len() == 3 && "limit"@.len() == 5 && "direction"@.len()
            == 9);
        lemma_carries(params, 1, "start"@, int_text(start as int));
        lemma_carries(params, 2, "end"@, int_text(end as int));
    }
}

/// The request for the names of labels asks for those of the namespaces alone, where there are
/// any, over the window.
pub proof fn labels_are_asked_for_within_their_namespaces(id: i64, ns: Seq<Seq<char>>, time: TimeRangeView, now: i64)
    ensures
        labels_plan(id, ns, time, now) matches Ok(p) ==> (window_bounds(time, now) matches Ok((start, end)) && carries(
            p.request.params,
            "start"@,
            int_text(start as int),
        ) && carries(p.request.params, "end"@, int_text(end as int)) && p.request.path == "/api/datasources/proxy/"@
            + int_text(id as int) + "/loki/api/v1/labels"@ && (if ns.len() == 0 {
            lacks(p.request.params, "query"@) && p.query is None
        } else {
            carries(p.request.params, "query"@, "{"@ + namespaces(ns) + "}"@) && p.query == Some(
                "{"@ + namespaces(ns) + "}"@,
            )
        })),
{
    if let Ok(p) = labels_plan(id, ns, time, now) {
        let (start, end) = window_bounds(time, now)->Ok_0;
        let params = p.request.params;
        reveal_strlit("query");
        reveal_strlit("start");
        reveal_strlit("end");
        assert("query"@[0] != "start"@[0]);
        reveal_strlit("");
        assert(!sets_namespace(""@)) by {
            lemma_place_of(""@, '{');
        }
        assert(params[0] == ("start"@, int_text(start as int)));
        assert(params[1] == ("end"@, int_text(end as int)));
        assert("query"@.len() == 5 && "start"@.len() == 5 && "end"@.len() == 3);
        if ns.len() > 0 {
            assert(params[2] == ("query"@, "{"@ + namespaces(ns) + "}"@));
            lemma_carries(params, 2, "query"@, "{"@ + namespaces(ns) + "}"@);
        }
        lemma_carries(params, 0, "start"@, int_text(start as int));
        lemma_carries(params, 1, "end"@, int_text(end as int));
    }
}

/// The request for the values of a label names the label and asks for the query that is given,
/// scoped to the namespaces; without a query and without namespaces it asks for all of them.
pub proof fn values_are_asked_for_within_their_namespaces(
    id: i64,
    label: Seq<char>,
    query: Option<Seq<char>>,
    ns: Seq<Seq<char>>,
    time: TimeRangeView,
    now: i64,
)
    ensures
        values_plan(id, label, query, ns, time, now) matches Ok(p) ==> (window_bounds(time, now) matches Ok((start, end))
            && carries(p.request.params, "start"@, int_text(start as int)) && carries(
            p.request.params,
            "end"@,
            int_text(end as int),
        ) && p.request.path == "/api/datasources/proxy/"@ + int_text(id as int) + "/loki/api/v1/label/"@ + label
            + "/values"@ && match query {
            Some(given) => p.query matches Some(q) && carries(p.request.params, "query"@, q) && is_scoped(q, given, ns),
            None => if ns.len() == 0 {
                p.query is None && lacks(p.request.params, "query"@)
            } else {
                p.query == Some("{"@ + namespaces(ns) + "}"@) && carries(
                    p.request.params,
                    "query"@,
                    "{"@ + namespaces(ns) + "}"@,
                )
            },
        }),
{
    if let Ok(p) = values_plan(id, label, query, ns, time, now) {
        let (start, end) = window_bounds(time, now)->Ok_0;
        let params = p.request.params;
        reveal_strlit("query");
        reveal_strlit("start");
        reveal_strlit("end");
        assert("query"@[0] != "start"@[0]);
        reveal_strlit("");
        assert(!sets_namespace(""@)) by {
            lemma_place_of(""@, '{');
        }
        let given = match query {
            Some(q) => q,
            None => ""@,
        };
        lemma_scoped(given, ns);
        assert(!""@.contains('{'));
        assert(params[0] == ("start"@, int_text(start as int)));
        assert(params[1] == ("end"@, int_text(end as int)));
        let path = "/api/datasources/proxy/"@ + int_text(id as int);
        assert(path + ("/loki/api/v1/label/"@ + label + "/values"@) =~= path + "/loki/api/v1/label/"@ + label + "/values"@);
        assert("query"@.len() == 5 && "start"@.len() == 5 && "end"@.len() == 3);
        if let Some(q) = p.query {
            assert(params[2] == ("query"@, q));
            lemma_carries(params, 2, "query"@, q);
        }
        lemma_carries(params, 0, "start"@, int_text(start as int));
        lemma_carries(params, 1, "end"@, int_text(end as int));
    }
}

/// A matcher on the namespace in the selector of a query is seen, whichever operator it has and
/// whatever stands before and after it.
pub proof fn a_matcher_on_the_namespace_is_seen(
    front: Seq<char>,
    before: Seq<char>,
    operator: Seq<char>,
    value: Seq<char>,
    after: Seq<char>,
    back: Seq<char>,
)
    requires
        forall|k: int| 0 <= k < front.len() ==> is_plain(#[trigger] front[k]),
        forall|k: int| 0 <= k < before.len() ==> is_plain(#[trigger] before[k]),
        forall|k: int| 0 <= k < value.len() ==> is_plain(#[trigger] value[k]),
        forall|k: int| 0 <= k < after.len() ==> is_plain(#[trigger] after[k]),
        before.len() == 0 || before.last() == ',' || is_space(before.last()),
        operator == "="@ || operator == "=~"@ || operator == "!="@ || operator == "!~"@,
    ensures
        sets_namespace(
            front + "{"@ + before + "namespace"@ + operator + "\""@ + value + "\""@ + after + "}"@ + back,
        ),
{
    let named = before + "namespace"@ + operator;
    let selector = named + "\""@ + value + "\""@ + after;
    lemma_operator(operator);
    reveal_strlit("namespace");
    assert(forall|k: int| 0 <= k < named.len() ==> is_plain(#[trigger] named[k]));
    lemma_selector_is_found(front, named, value, after, back);
    let query = front + "{"@ + before + "namespace"@ + operator + "\""@ + value + "\""@ + after + "}"@ + back;
    assert(query =~= front + "{"@ + named + "\""@ + value + "\""@ + after + "}"@ + back);
    let tail = operator + "\""@ + value + "\""@ + after;
    assert(selector =~= before + "namespace"@ + tail);
    assert(tail =~= operator + ("\""@ + value + "\""@ + after));
    lemma_matcher_is_found(before, tail);
    assert(names_namespace(selector));
}

proof fn lemma_operator(operator: Seq<char>)
    requires
        operator == "="@ || operator == "=~"@ || operator == "!="@ || operator == "!~"@,
    ensures
        forall|k: int| 0 <= k < operator.len() ==> is_plain(#[trigger] operator[k]),
        operator.len() > 0,
        !is_space(operator[0]),
        forall|rest: Seq<char>| begins_operator(#[trigger] (operator + rest)),
{
    reveal_strlit("=");
    reveal_strlit("=~");
    reveal_strlit("!=");
    reveal_strlit("!~");
    assert forall|rest: Seq<char>| begins_operator(#[trigger] (operator + rest)) by {
        let s = operator + rest;
        if operator == "="@ || operator == "=~"@ {
            assert(s.subrange(0, 1) =~= "="@);
        } else {
            assert(s.subrange(0, 2) =~= operator);
        }
    }
}

proof fn lemma_matcher_is_found(before: Seq<char>, tail: Seq<char>)
    requires
        forall|k: int| 0 <= k < before.len() ==> is_plain(#[trigger] before[k]),
        before.len() == 0 || before.last() == ',' || is_space(before.last()),
        begins_operator(tail),
        tail.len() > 0,
        !is_space(tail[0]),
    ensures
        namespace_at(before + "namespace"@ + tail, before.len() as int),
{
    reveal_strlit("namespace");
    let selector = before + "namespace"@ + tail;
    let at = before.len() as int;
    assert(selector.take(at) =~= before);
    lemma_plain_keeps_quoting(Seq::<char>::empty(), before);
    assert(Seq::<char>::empty() + before =~= before);
    let rest = selector.skip(at);
    assert(rest.subrange(0, 9) =~= "namespace"@);
    assert(rest.skip(9) =~= tail);
    assert(past_prefix(rest, "namespace"@) == Some(tail));
    assert(cut_front(tail, CharSet::Space) == tail);
    assert(at == 0 || selector[at - 1] == before.last());
}

proof fn lemma_one_more(s: Seq<char>, c: char)
    ensures
        quoting(s + seq![c]) == quoting_after(quoting(s), c),
{
    assert((s + seq![c]).drop_last() =~= s);
}

proof fn lemma_outside_at_the_end(front: Seq<char>, named: Seq<char>, value: Seq<char>, after: Seq<char>)
    requires
        forall|k: int| 0 <= k < front.len() ==> is_plain(#[trigger] front[k]),
        forall|k: int| 0 <= k < named.len() ==> is_plain(#[trigger] named[k]),
        forall|k: int| 0 <= k < value.len() ==> is_plain(#[trigger] value[k]),
        forall|k: int| 0 <= k < after.len() ==> is_plain(#[trigger] after[k]),
    ensures
        quoting(front + seq!['{'] + named + seq!['"'] + value + seq!['"'] + after) == Quoting::Outside,
{
    lemma_plain_keeps_quoting(Seq::<char>::empty(), front);
    assert(Seq::<char>::empty() + front =~= front);
    lemma_one_more(front, '{');
    let x = front + seq!['{'];
    lemma_plain_keeps_quoting(x, named);
    lemma_one_more(x + named, '"');
    lemma_plain_keeps_quoting(x + named + seq!['"'], value);
    lemma_one_more(x + named + seq!['"'] + value, '"');
    lemma_plain_keeps_quoting(x + named + seq!['"'] + value + seq!['"'], after);
}

proof fn lemma_selector_is_found(front: Seq<char>, named: Seq<char>, value: Seq<char>, after: Seq<char>, back: Seq<char>)
    requires
        forall|k: int| 0 <= k < front.len() ==> is_plain(#[trigger] front[k]),
        forall|k: int| 0 <= k < named.len() ==> is_plain(#[trigger] named[k]),
        forall|k: int| 0 <= k < value.len() ==> is_plain(#[trigger] value[k]),
        forall|k: int| 0 <= k < after.len() ==> is_plain(#[trigger] after[k]),
    ensures
        selector_of(front + "{"@ + named + "\""@ + value + "\""@ + after + "}"@ + back) == Some(
            named + "\""@ + value + "\""@ + after,
        ),
{
    reveal_strlit("{");
    reveal_strlit("}");
    reveal_strlit("\"");
    assert("{"@ =~= seq!['{'] && "\""@ =~= seq!['"'] && "}"@ =~= seq!['}']);
    let selector = named + "\""@ + value + "\""@ + after;
    let x = front + "{"@;
    let query = x + named + "\""@ + value + "\""@ + after + "}"@ + back;
    let until = x + named + "\""@ + value + "\""@ + after;
    lemma_outside_at_the_end(front, named, value, after);
    assert(until =~= x + selector);
    let end = until.len() as int;
    assert(query.take(end) =~= until);
    assert(query[end] == '}');
    assert(closes_at(query, end));
    let opened = (named.len() + 1 + value.len()) as int;
    assert forall|j: int| 0 <= j < end implies query[j] != '}' && (j != front.len() ==> query[j] != '{') by {
        assert(query[j] == until[j]);
        if j < front.len() {
            assert(until[j] == front[j]);
        } else if j > front.len() {
            let k = j - x.len();
            if k < named.len() {
                assert(until[j] == named[k]);
            } else if named.len() < k < opened {
                assert(until[j] == value[k - named.len() - 1]);
            } else if k > opened {
                assert(until[j] == after[k - opened - 1]);
            }
        }
    }
    assert(query[front.len() as int] == '{');
    lemma_first_close(query);
    assert(first_close(query) == Some(end));
    lemma_place_of(query, '{');
    assert(place_of(query, '{') == Some(front.len() as int));
    assert(query.subrange(front.len() as int + 1, end) =~= selector);
}

/// A selector has no matcher on the namespace where every place at which the word stands is
/// inside another label.
pub proof fn another_label_is_not_the_namespace(selector: Seq<char>)
    requires
        forall|at: int|
            0 <= at < selector.len() && begins(#[trigger] selector.skip(at), "namespace"@) ==> at > 0 && selector[at - 1]
                != ',' && !is_space(selector[at - 1]),
    ensures
        !names_namespace(selector),
{
    if names_namespace(selector) {
        let at = choose|at: int| namespace_at(selector, at);
        assert(begins(selector.skip(at), "namespace"@));
    }
}

proof fn lemma_one_term(n: nat, u: char)
    requires
        secs_of(u) is Some,
        n * secs_of(u)->0 <= i64::MAX,
    ensures
        secs_in(decimal(n) + seq![u]) == Some((n * secs_of(u)->0) as i64),
{
    let d = decimal(n);
    let s = d + seq![u];
    lemma_decimal_is_digits(n);
    crate::number::decimal_reads_back(n);
    assert(is_digit(d[0]) && s[0] == d[0]);
    assert(s.last() == u);
    assert(!is_space(s[0]) && !is_space(s.last()));
    assert(trimmed(s) == s);
    assert forall|i: int| 0 <= i < d.len() implies is_digit(#[trigger] s[i]) by {
        assert(is_digit(d[i]));
    }
    lemma_digit_run(s, d.len() as int);
    assert(s.take(d.len() as int) =~= d);
    assert(s.skip(d.len() as int + 1) =~= Seq::<char>::empty());
    let total = n * secs_of(u)->0;
    assert(terms(Seq::<char>::empty(), 0 + total) == Some(0 + total));
    assert(terms(s, 0) == Some(total as int));
}

/// A duration of so many seconds, minutes, hours, days or weeks is as long as it says.
pub proof fn durations_are_as_long_as_they_say(n: nat)
    requires
        n * 604800 <= i64::MAX,
    ensures
        secs_in(decimal(n) + "s"@) == Some(n as i64),
        secs_in(decimal(n) + "m"@) == Some((n * 60) as i64),
        secs_in(decimal(n) + "h"@) == Some((n * 3600) as i64),
        secs_in(decimal(n) + "d"@) == Some((n * 86400) as i64),
        secs_in(decimal(n) + "w"@) == Some((n * 604800) as i64),
{
    reveal_strlit("s");
    reveal_strlit("m");
    reveal_strlit("h");
    reveal_strlit("d");
    reveal_strlit("w");
    assert("s"@ =~= seq!['s'] && "m"@ =~= seq!['m'] && "h"@ =~= seq!['h'] && "d"@ =~= seq!['d'] && "w"@ =~= seq!['w']);
    lemma_one_term(n, 's');
    lemma_one_term(n, 'm');
    lemma_one_term(n, 'h');
    lemma_one_term(n, 'd');
    lemma_one_term(n, 'w');
}

/// A window without a start reaches back from its end as far as is asked for, and one that ends
/// now ends now.
pub proof fn a_window_reaches_back_from_its_end(time: TimeRangeView, now: i64)
    ensures
        window_bounds(time, now) matches Ok((start, end)) ==> instant_ns(time.end, now) == Ok::<i64, Seq<char>>(end) && (
        time.start is None ==> (secs_in(time.since) matches Some(d) && end - start == d * 1_000_000_000)) && (
        time.start matches Some(s) ==> instant_ns(s, now) == Ok::<i64, Seq<char>>(start)) && (trimmed(time.end) == "now"@
            ==> end == now),
{
}

/// The last so many seconds, minutes, hours, days or weeks end now and are as long as they say.
pub proof fn the_last_hours_end_now(n: nat, unit: char, now: i64)
    requires
        secs_of(unit) is Some,
        now >= 0,
        n * secs_of(unit)->0 * 1_000_000_000 <= now,
        n * secs_of(unit)->0 <= i64::MAX,
    ensures
        window_bounds(
            (TimeRangeView { since: decimal(n) + seq![unit], start: None, end: "now"@ }),
            now,
        ) == Ok::<(i64, i64), Seq<char>>(((now - n * secs_of(unit)->0 * 1_000_000_000) as i64, now)),
{
    lemma_one_term(n, unit);
    reveal_strlit("now");
    assert(trimmed("now"@) == "now"@) by {
        assert(!is_space("now"@[0]) && !is_space("now"@.last()));
    }
}

/// A plan for a metric is labelled with the window as it was asked for, and warns about its range
/// and its step where these do not tile.
pub proof fn a_plan_is_labelled_with_its_window(
    id: i64,
    query: Seq<char>,
    ns: Seq<Seq<char>>,
    step: Seq<char>,
    limit: nat,
    time: TimeRangeView,
    now: i64,
)
    ensures
        metric_plan(id, query, ns, step, time, now) matches Ok(p) ==> (p.plan.query matches Some(q) && p.warning
            == tiling_warning(q, p.step)) && (match time.start {
            Some(s) => p.plan.label == s + ".."@ + time.end,
            None => p.plan.label == time.since + ".."@ + time.end,
        }),
        live_plan(id, query, ns, limit, time, now) matches Ok(p) ==> (match time.start {
            Some(s) => p.label == s + ".."@ + time.end,
            None => p.label == time.since + ".."@ + time.end,
        }),
{
}

/// A note says that namespaces are ignored exactly where some are asked for and the query has a
/// matcher of its own, that is, exactly where the query stays as it is although some are asked for.
pub proof fn ignored_namespaces_are_noted(query: Seq<char>, ns: Seq<Seq<char>>)
    ensures
        ignored_note(query, ns) is Some <==> ns.len() > 0 && sets_namespace(query),
        ignored_note(query, ns) is Some ==> scoped_query(query, ns) == Ok::<Seq<char>, Seq<char>>(query),
{
}

/// A namespace has letters, digits, points, underscores, stars and hyphens, and nothing else.
pub proof fn a_namespace_has_plain_characters(ns: Seq<char>, k: int)
    requires
        is_namespace(ns),
        0 <= k < ns.len(),
    ensures
        ns[k] != '"' && ns[k] != '`' && ns[k] != '\\' && ns[k] != '{' && ns[k] != '}' && ns[k] != '|' && ns[k] != ','
            && !is_space(ns[k]),
{
    assert(crate::live::scope::namespace_char(ns[k]));
}

} // verus!
