//! Laws of the views that list records: what is found is listed, once and in its order, and every
//! entry tells of its own record.

use super::groups::{every_index_is_ordered_once, sorting_keeps_every_text};
use super::texts::a_whole_holds_its_middle;
use crate::json::{first_field_counts, json_int, member, str_at, JsonView};
use crate::number::{decimal, right_set};
use crate::order::{sorted_texts, text_before, text_order};
use crate::patterns::{regex_fault, regex_matches};
use crate::record::{one_line, short_time, RecordView};
use crate::text::{begins, cut_back, has_text, opt_text, split_at, tail_part, trimmed, uppercase, CharSet};
use crate::views::listing::{
    entries, entry, field_lines, full_record, headline, record_values, trace_entries, trace_entry,
    trace_is_in_order, trace_places, Listing,
};
use crate::views::{
    accepts, error_levels, picks, picks_are_the_wanted, record_fields, record_value, view_output, OutputView,
    WantView,
};
use vstd::prelude::*;

verus! {

/// Whether a JSON value tells of a record: every field under its own name.
pub open spec fn tells_of(j: JsonView, r: RecordView) -> bool {
    &&& str_at(j, "ts"@) == Some(r.ts)
    &&& str_at(j, "level"@) == Some(r.level)
    &&& str_at(j, "service"@) == Some(r.service)
    &&& str_at(j, "pod"@) == Some(r.pod)
    &&& str_at(j, "namespace"@) == Some(r.namespace)
    &&& str_at(j, "logger"@) == Some(r.logger)
    &&& str_at(j, "thread"@) == Some(r.thread)
    &&& str_at(j, "trace"@) == Some(r.trace)
    &&& str_at(j, "msg"@) == Some(r.msg)
    &&& str_at(j, "stack"@) == Some(r.stack)
}

/// The JSON of a record tells of it, and of its index where it has one.
pub proof fn the_json_of_a_record_tells_of_it(index: Option<usize>, r: RecordView)
    ensures
        tells_of(record_value(index, r), r),
        member(record_value(index, r), "index"@) == match index {
            Some(i) => Some(json_int(i as int)),
            None => None,
        },
{
    let o = match index {
        Some(i) => record_fields(r).push(("index"@, json_int(i as int))),
        None => record_fields(r),
    };
    reveal_strlit("ts");
    reveal_strlit("level");
    reveal_strlit("service");
    reveal_strlit("pod");
    reveal_strlit("namespace");
    reveal_strlit("logger");
    reveal_strlit("thread");
    reveal_strlit("trace");
    reveal_strlit("msg");
    reveal_strlit("stack");
    assert("logger"@[0] != "thread"@[0]);
    assert("level"@[0] != "trace"@[0]);
    assert("pod"@[0] != "msg"@[0]);
    assert("level"@[0] != "stack"@[0]);
    assert("trace"@[0] != "stack"@[0]);
    assert(o[0].0 == "ts"@ && o[1].0 == "level"@ && o[2].0 == "service"@ && o[3].0 == "pod"@ && o[4].0 == "namespace"@ && o[5].0 == "logger"@ && o[6].0 == "thread"@ && o[7].0 == "trace"@ && o[8].0 == "msg"@ && o[9].0 == "stack"@);
    first_field_counts(o, "ts"@, 0);
    first_field_counts(o, "level"@, 1);
    first_field_counts(o, "service"@, 2);
    first_field_counts(o, "pod"@, 3);
    first_field_counts(o, "namespace"@, 4);
    first_field_counts(o, "logger"@, 5);
    first_field_counts(o, "thread"@, 6);
    first_field_counts(o, "trace"@, 7);
    first_field_counts(o, "msg"@, 8);
    first_field_counts(o, "stack"@, 9);
    reveal_strlit("index");
    assert("level"@[0] != "index"@[0] && "trace"@[0] != "index"@[0] && "stack"@[0] != "index"@[0]);
    first_field_counts(o, "index"@, 10);
}

/// Whether a list of JSON values tells of the records at some places, one by one, each with its
/// place where places are shown.
pub open spec fn tells_of_each(a: Seq<JsonView>, recs: Seq<RecordView>, places: Seq<int>, placed: bool) -> bool {
    &&& a.len() == places.len()
    &&& forall|k: int|
        0 <= k < places.len() ==> tells_of(#[trigger] a[k], recs[places[k]]) && member(a[k], "index"@) == if placed {
            Some(json_int(places[k]))
        } else {
            None
        }
}

/// The entry at every position of a JSON list of records is the record at that one of the places
/// that were found.
pub proof fn every_entry_is_the_record_at_its_place(recs: Seq<RecordView>, places: Seq<int>, placed: bool)
    requires
        recs.len() <= usize::MAX,
        forall|k: int| 0 <= k < places.len() ==> 0 <= #[trigger] places[k] < recs.len(),
    ensures
        record_values(recs, places, placed) matches JsonView::Array(a) && tells_of_each(a, recs, places, placed),
{
    let a = record_values(recs, places, placed)->Array_0;
    assert forall|k: int| 0 <= k < places.len() implies tells_of(#[trigger] a[k], recs[places[k]]) && member(
        a[k],
        "index"@,
    ) == if placed {
        Some(json_int(places[k]))
    } else {
        None
    } by {
        let i = places[k];
        the_json_of_a_record_tells_of_it(
            if placed {
                Some(i as usize)
            } else {
                None
            },
            recs[i],
        );
    }
}

/// Whether places are those of the records that are wanted: all of them, in their order.
pub open spec fn are_all(places: Seq<int>, recs: Seq<RecordView>, wanted: spec_fn(RecordView) -> bool) -> bool {
    &&& forall|k: int| 0 <= k < places.len() ==> 0 <= #[trigger] places[k] < recs.len() && wanted(recs[places[k]])
    &&& forall|k: int, l: int| 0 <= k < l < places.len() ==> #[trigger] places[k] < #[trigger] places[l]
    &&& forall|i: int| 0 <= i < recs.len() && wanted(#[trigger] recs[i]) ==> places.contains(i)
}

proof fn lemma_picks_are_all(recs: Seq<RecordView>, w: WantView, wanted: spec_fn(RecordView) -> bool)
    requires
        forall|r: RecordView| #[trigger] accepts(w, r) == wanted(r),
    ensures
        are_all(picks(recs, w), recs, wanted),
{
    picks_are_the_wanted(recs, w);
    let places = picks(recs, w);
    assert forall|i: int| 0 <= i < recs.len() && wanted(#[trigger] recs[i]) implies places.contains(i) by {
        assert(accepts(w, recs[i]));
    }
}

/// Whether the errors view wants a record: at one of the levels that are given, in any case and
/// with white space around them, or else at ERROR or FATAL, and at WARN where warnings count.
pub open spec fn at_error_level(warn: bool, level: Option<Seq<char>>) -> spec_fn(RecordView) -> bool {
    |r: RecordView|
        match level {
            Some(list) => exists|i: int|
                0 <= i < split_at(list, ',').len() && r.level == uppercase(trimmed(#[trigger] split_at(list, ',')[i])),
            None => r.level == "ERROR"@ || r.level == "FATAL"@ || (warn && r.level == "WARN"@),
        }
}

proof fn lemma_error_levels(warn: bool, level: Option<Seq<char>>, r: RecordView)
    ensures
        has_text(sorted_texts(error_levels(warn, level)), r.level) == at_error_level(warn, level)(r),
{
    broadcast use vstd::seq_lib::group_to_multiset_ensures;

    let v = error_levels(warn, level);
    sorting_keeps_every_text(v);
    sorted_texts(v).to_multiset_ensures();
    v.to_multiset_ensures();
    assert(sorted_texts(v).to_multiset().count(r.level) == v.to_multiset().count(r.level));
    assert(sorted_texts(v).contains(r.level) <==> v.contains(r.level));
    match level {
        Some(list) => {
            let parts = split_at(list, ',');
            if v.contains(r.level) {
                let i = choose|i: int| 0 <= i < v.len() && v[i] == r.level;
                assert(uppercase(trimmed(parts[i])) == r.level);
            }
            if at_error_level(warn, level)(r) {
                let i = choose|i: int|
                    0 <= i < parts.len() && r.level == uppercase(trimmed(#[trigger] parts[i]));
                assert(v[i] == r.level);
            }
        },
        None => {
            if warn {
                assert(v[0] == "ERROR"@ && v[1] == "FATAL"@ && v[2] == "WARN"@);
            } else {
                assert(v[0] == "ERROR"@ && v[1] == "FATAL"@);
            }
        },
    }
}

/// As JSON the errors view lists the records at its levels: all of them, in their order, each with
/// its index, and it says how many they are.
pub proof fn errors_lists_the_records_at_its_levels(
    recs: Seq<RecordView>,
    warn: bool,
    level: Option<String>,
    full: bool,
)
    requires
        recs.len() <= usize::MAX,
    ensures
        view_output(recs, crate::cli::View::Errors { warn, level }, true, full) matches OutputView::Value(j) && (member(
            j,
            "records"@,
        ) matches Some(JsonView::Array(a)) && member(j, "count"@) == Some(json_int(a.len() as int)) && exists|
            places: Seq<int>,
        |
            #[trigger] are_all(places, recs, at_error_level(warn, opt_text(level))) && tells_of_each(
                a,
                recs,
                places,
                true,
            )),
{
    let want = opt_text(level);
    let levels = sorted_texts(error_levels(warn, want));
    let w = WantView::Levels(levels);
    let places = picks(recs, w);
    assert forall|r: RecordView| #[trigger] accepts(w, r) == at_error_level(warn, want)(r) by {
        lemma_error_levels(warn, want, r);
    }
    lemma_picks_are_all(recs, w, at_error_level(warn, want));
    every_entry_is_the_record_at_its_place(recs, places, true);
    let o = (view_output(recs, crate::cli::View::Errors { warn, level }, true, full)->Value_0)->Object_0;
    reveal_strlit("levels");
    reveal_strlit("count");
    reveal_strlit("records");
    assert(o[0].0 == "levels"@ && o[1].0 == "count"@ && o[2].0 == "records"@);
    first_field_counts(o, "levels"@, 0);
    first_field_counts(o, "count"@, 1);
    first_field_counts(o, "records"@, 2);
    assert(are_all(places, recs, at_error_level(warn, want)));
}

/// Whether the grep view wants a record: the pattern matches its message and its stack, each on
/// lines of its own.
pub open spec fn matching(pattern: Seq<char>, any_case: bool) -> spec_fn(RecordView) -> bool {
    |r: RecordView| regex_matches(pattern, any_case, r.msg + "\n"@ + r.stack).len() > 0
}

/// As JSON the grep view lists the first records that match, as many as the limit allows and at
/// least one, and says that it stopped where it reached the limit. A pattern that does not compile
/// is named as the failure.
pub proof fn grep_lists_the_first_records_that_match(
    recs: Seq<RecordView>,
    pattern: String,
    ignore_case: bool,
    limit: usize,
    full: bool,
)
    requires
        recs.len() <= usize::MAX,
    ensures
        ({
            let out = view_output(recs, crate::cli::View::Grep { pattern, ignore_case, limit }, true, full);
            let cap = if limit > 1 {
                limit as int
            } else {
                1
            };
            match regex_fault(pattern@, ignore_case) {
                Some(e) => out == OutputView::Failure("bad regex: "@ + e),
                None => out matches OutputView::Value(j) && (member(j, "records"@) matches Some(JsonView::Array(a))
                    && str_at(j, "pattern"@) == Some(pattern@) && member(j, "count"@) == Some(json_int(a.len() as int))
                    && member(j, "truncated"@) == Some(JsonView::Bool(a.len() >= cap)) && a.len() <= cap && exists|
                    all: Seq<int>,
                |
                    #[trigger] are_all(all, recs, matching(pattern@, ignore_case)) && a.len() == (if all.len() < cap {
                        all.len() as int
                    } else {
                        cap
                    }) && tells_of_each(a, recs, all.take(a.len() as int), true)),
            }
        }),
{
    let w = WantView::Match { pattern: pattern@, any_case: ignore_case };
    let all = picks(recs, w);
    let cap = crate::views::listing::match_cap(limit as int);
    let places = crate::views::first_places(all, cap);
    lemma_picks_are_all(recs, w, matching(pattern@, ignore_case));
    assert forall|k: int| 0 <= k < places.len() implies 0 <= #[trigger] places[k] < recs.len() by {
        assert(all[k] == places[k]);
    }
    every_entry_is_the_record_at_its_place(recs, places, true);
    if regex_fault(pattern@, ignore_case) is None {
        let o = (view_output(recs, crate::cli::View::Grep { pattern, ignore_case, limit }, true, full)->Value_0)->Object_0;
        reveal_strlit("pattern");
        reveal_strlit("count");
        reveal_strlit("truncated");
        reveal_strlit("records");
        assert("pattern"@[0] != "records"@[0]);
        assert(o[0].0 == "pattern"@ && o[1].0 == "count"@ && o[2].0 == "truncated"@ && o[3].0 == "records"@);
        first_field_counts(o, "pattern"@, 0);
        first_field_counts(o, "count"@, 1);
        first_field_counts(o, "truncated"@, 2);
        first_field_counts(o, "records"@, 3);
        assert(are_all(all, recs, matching(pattern@, ignore_case)));
    }
}

/// Whether the trace view wants a record: it has a trace, and that begins so.
pub open spec fn in_trace(trace_id: Seq<char>) -> spec_fn(RecordView) -> bool {
    |r: RecordView| r.trace.len() > 0 && begins(r.trace, trace_id)
}

/// Whether places are those of the records that are wanted, all of them and each once, by time.
pub open spec fn are_all_by_time(places: Seq<int>, recs: Seq<RecordView>, wanted: spec_fn(RecordView) -> bool) -> bool {
    &&& places.no_duplicates()
    &&& forall|k: int| 0 <= k < places.len() ==> 0 <= #[trigger] places[k] < recs.len() && wanted(recs[places[k]])
    &&& forall|i: int| 0 <= i < recs.len() && wanted(#[trigger] recs[i]) ==> places.contains(i)
    &&& forall|k: int, l: int|
        0 <= k < l < places.len() ==> !text_before(recs[#[trigger] places[l]].ts, recs[#[trigger] places[k]].ts)
}

proof fn lemma_trace_places(recs: Seq<RecordView>, trace_id: Seq<char>)
    ensures
        are_all_by_time(trace_places(recs, trace_id), recs, in_trace(trace_id)),
{
    let w = WantView::Trace(trace_id);
    let found = picks(recs, w);
    let times = found.map_values(|i: int| recs[i].ts);
    let order = crate::order::stable_order(found.len(), text_order(times));
    let places = trace_places(recs, trace_id);
    lemma_picks_are_all(recs, w, in_trace(trace_id));
    every_index_is_ordered_once(found.len(), text_order(times));
    trace_is_in_order(recs, trace_id);
    assert forall|k: int| 0 <= k < places.len() implies 0 <= order[k] < found.len() && #[trigger] places[k]
        == found[order[k]] by {
        assert(order.contains(order[k]));
    }
    assert forall|k: int, l: int| 0 <= k < places.len() && 0 <= l < places.len() && k != l implies places[k]
        != places[l] by {
        assert(order[k] != order[l]);
        assert(places[k] == found[order[k]] && places[l] == found[order[l]]);
        if order[k] < order[l] {
            assert(found[order[k]] < found[order[l]]);
        } else {
            assert(found[order[l]] < found[order[k]]);
        }
    }
    assert forall|i: int| 0 <= i < recs.len() && in_trace(trace_id)(#[trigger] recs[i]) implies places.contains(i) by {
        assert(found.contains(i));
        let x = choose|x: int| 0 <= x < found.len() && found[x] == i;
        assert(order.contains(x));
        let k = choose|k: int| 0 <= k < order.len() && order[k] == x;
        assert(places[k] == i);
    }
}

/// As JSON the trace view lists the records of a trace, all of them and each once, by time.
pub proof fn trace_lists_the_records_of_a_trace(recs: Seq<RecordView>, trace_id: String, full: bool)
    requires
        recs.len() <= usize::MAX,
    ensures
        view_output(recs, crate::cli::View::Trace { trace_id }, true, full) matches OutputView::Value(j) && (member(
            j,
            "records"@,
        ) matches Some(JsonView::Array(a)) && member(j, "count"@) == Some(json_int(a.len() as int)) && str_at(
            j,
            "trace"@,
        ) == Some(trace_id@) && exists|places: Seq<int>|
            #[trigger] are_all_by_time(places, recs, in_trace(trace_id@)) && tells_of_each(a, recs, places, false)),
{
    let places = trace_places(recs, trace_id@);
    lemma_trace_places(recs, trace_id@);
    every_entry_is_the_record_at_its_place(recs, places, false);
    let o = (view_output(recs, crate::cli::View::Trace { trace_id }, true, full)->Value_0)->Object_0;
    reveal_strlit("trace");
    reveal_strlit("count");
    reveal_strlit("records");
    assert("trace"@[0] != "count"@[0]);
    assert(o[0].0 == "trace"@ && o[1].0 == "count"@ && o[2].0 == "records"@);
    first_field_counts(o, "trace"@, 0);
    first_field_counts(o, "count"@, 1);
    first_field_counts(o, "records"@, 2);
}

/// The show view shows the record at its index, with every field under its own name, and fails
/// exactly where there is none.
pub proof fn show_shows_the_record_at_its_index(recs: Seq<RecordView>, index: usize, full: bool)
    ensures
        index < recs.len() ==> (view_output(recs, crate::cli::View::Show { index }, true, full) matches OutputView::Value(j)
            && tells_of(j, recs[index as int])),
        view_output(recs, crate::cli::View::Show { index }, true, full) is Failure <==> index >= recs.len(),
        view_output(recs, crate::cli::View::Show { index }, false, full) is Failure <==> index >= recs.len(),
{
    if index < recs.len() {
        the_json_of_a_record_tells_of_it(None, recs[index as int]);
    }
}

proof fn lemma_field_lines(before: Seq<Seq<char>>, name: Seq<char>, value: Seq<char>, after: Seq<Seq<char>>)
    ensures
        value.len() > 0 ==> (before + field_lines(name, value) + after).contains(right_set(name, 10) + ": "@ + value),
        forall|x: Seq<char>| before.contains(x) ==> #[trigger] (before + field_lines(name, value)).contains(x),
{
    let line = right_set(name, 10) + ": "@ + value;
    let whole = before + field_lines(name, value) + after;
    if value.len() > 0 {
        assert(whole[before.len() as int] == line);
    }
    assert forall|x: Seq<char>| before.contains(x) implies #[trigger] (before + field_lines(name, value)).contains(x) by {
        let i = choose|i: int| 0 <= i < before.len() && before[i] == x;
        assert((before + field_lines(name, value))[i] == x);
    }
}

/// As text the show view has a line for every field that is not empty, under its own name, then
/// the whole message, and the whole stack where there is one.
pub proof fn show_prints_every_field(r: RecordView)
    ensures
        ({
            let v = full_record(r);
            &&& r.ts.len() > 0 ==> v.contains("        ts: "@ + r.ts)
            &&& r.level.len() > 0 ==> v.contains("     level: "@ + r.level)
            &&& r.service.len() > 0 ==> v.contains("   service: "@ + r.service)
            &&& r.pod.len() > 0 ==> v.contains("       pod: "@ + r.pod)
            &&& r.namespace.len() > 0 ==> v.contains(" namespace: "@ + r.namespace)
            &&& r.logger.len() > 0 ==> v.contains("    logger: "@ + r.logger)
            &&& r.thread.len() > 0 ==> v.contains("    thread: "@ + r.thread)
            &&& r.trace.len() > 0 ==> v.contains("     trace: "@ + r.trace)
            &&& v.contains("\nmessage:\n"@ + r.msg)
            &&& r.stack.len() > 0 ==> v.contains("\nstack_trace:\n"@ + r.stack)
        }),
{
    reveal_strlit("ts");
    reveal_strlit("level");
    reveal_strlit("service");
    reveal_strlit("pod");
    reveal_strlit("namespace");
    reveal_strlit("logger");
    reveal_strlit("thread");
    reveal_strlit("trace");
    reveal_strlit(": ");
    reveal_strlit("        ts: ");
    reveal_strlit("     level: ");
    reveal_strlit("   service: ");
    reveal_strlit("       pod: ");
    reveal_strlit(" namespace: ");
    reveal_strlit("    logger: ");
    reveal_strlit("    thread: ");
    reveal_strlit("     trace: ");
    assert(right_set("ts"@, 10) + ": "@ =~= "        ts: "@);
    assert(right_set("level"@, 10) + ": "@ =~= "     level: "@);
    assert(right_set("service"@, 10) + ": "@ =~= "   service: "@);
    assert(right_set("pod"@, 10) + ": "@ =~= "       pod: "@);
    assert(right_set("namespace"@, 10) + ": "@ =~= " namespace: "@);
    assert(right_set("logger"@, 10) + ": "@ =~= "    logger: "@);
    assert(right_set("thread"@, 10) + ": "@ =~= "    thread: "@);
    assert(right_set("trace"@, 10) + ": "@ =~= "     trace: "@);
    let none = Seq::<Seq<char>>::empty();
    let a = field_lines("ts"@, r.ts);
    let b = a + field_lines("level"@, r.level);
    let c = b + field_lines("service"@, r.service);
    let d = c + field_lines("pod"@, r.pod);
    let e = d + field_lines("namespace"@, r.namespace);
    let f = e + field_lines("logger"@, r.logger);
    let g = f + field_lines("thread"@, r.thread);
    let h = g + field_lines("trace"@, r.trace);
    let i = h + seq!["\nmessage:\n"@ + r.msg];
    let v = full_record(r);
    assert(none + a =~= a);
    assert(none + a + none =~= a);
    lemma_field_lines(none, "ts"@, r.ts, none);
    assert(b + none =~= b);
    lemma_field_lines(a, "level"@, r.level, none);
    assert(c + none =~= c);
    lemma_field_lines(b, "service"@, r.service, none);
    assert(d + none =~= d);
    lemma_field_lines(c, "pod"@, r.pod, none);
    assert(e + none =~= e);
    lemma_field_lines(d, "namespace"@, r.namespace, none);
    assert(f + none =~= f);
    lemma_field_lines(e, "logger"@, r.logger, none);
    assert(g + none =~= g);
    lemma_field_lines(f, "thread"@, r.thread, none);
    assert(h + none =~= h);
    lemma_field_lines(g, "trace"@, r.trace, none);
    assert forall|x: Seq<char>| h.contains(x) implies v.contains(x) by {
        let k = choose|k: int| 0 <= k < h.len() && h[k] == x;
        assert(v[k] == x);
    }
    assert(v[h.len() as int] == "\nmessage:\n"@ + r.msg);
    if r.stack.len() > 0 {
        assert(v[h.len() as int + 1] == "\nstack_trace:\n"@ + r.stack);
    }
}

/// What the line of an entry begins with: where its record stands, when it was written, at which
/// level and by which service.
pub open spec fn entry_front(i: int, r: RecordView) -> Seq<char> {
    "["@ + decimal(i as nat) + "] "@ + short_time(r.ts) + " "@ + r.level + " "@ + r.service + " "@
}

/// Whether lines print a record in a list: a line that says where and what it is, its message on
/// one line of at most 160 characters or in full, and its stack where everything is printed.
pub open spec fn prints(lines: Seq<Seq<char>>, i: int, r: RecordView, full: bool) -> bool {
    &&& exists|k: int|
        0 <= k < lines.len() - 1 && begins(#[trigger] lines[k], entry_front(i, r)) && lines[k + 1] == "     "@ + if full {
            cut_back(r.msg, CharSet::Space)
        } else {
            one_line(r.msg, 160)
        }
    &&& full && r.stack.len() > 0 ==> lines.contains("     STACK: "@ + cut_back(r.stack, CharSet::Space))
}

proof fn lemma_entry_prints(before: Seq<Seq<char>>, i: int, r: RecordView, listing: Listing, full: bool)
    ensures
        prints(before + entry(i, r, listing, full), i, r, full),
{
    let lines = before + entry(i, r, listing, full);
    let k = before.len() as int;
    let tail = crate::views::listing::entry_tail(r, listing);
    let none = Seq::<char>::empty();
    a_whole_holds_its_middle(entry_front(i, r), tail, none);
    assert(entry_front(i, r) + tail + none =~= "["@ + decimal(i as nat) + "] "@ + headline(r) + " "@ + tail);
    assert(lines[k] == "["@ + decimal(i as nat) + "] "@ + headline(r) + " "@ + tail);
    assert(begins(lines[k], entry_front(i, r)));
    assert(lines[k + 1] == "     "@ + crate::views::shown(r.msg, full, 160));
    if full && r.stack.len() > 0 {
        assert(lines[k + 2] == "     STACK: "@ + cut_back(r.stack, CharSet::Space));
    }
}

proof fn lemma_prints_longer(lines: Seq<Seq<char>>, more: Seq<Seq<char>>, i: int, r: RecordView, full: bool)
    requires
        prints(lines, i, r, full),
    ensures
        prints(lines + more, i, r, full),
        prints(more + lines, i, r, full),
{
    let whole = lines + more;
    let other = more + lines;
    let text = "     "@ + if full {
        cut_back(r.msg, CharSet::Space)
    } else {
        one_line(r.msg, 160)
    };
    let k = choose|k: int|
        0 <= k < lines.len() - 1 && begins(#[trigger] lines[k], entry_front(i, r)) && lines[k + 1] == text;
    assert(whole[k] == lines[k] && whole[k + 1] == lines[k + 1]);
    let m = more.len() + k;
    assert(other[m] == lines[k] && other[m + 1] == lines[k + 1]);
    if full && r.stack.len() > 0 {
        let s = "     STACK: "@ + cut_back(r.stack, CharSet::Space);
        let at = choose|at: int| 0 <= at < lines.len() && lines[at] == s;
        assert(whole[at] == s);
        assert(other[more.len() + at] == s);
    }
}

proof fn lemma_entries_print(recs: Seq<RecordView>, places: Seq<int>, listing: Listing, full: bool)
    ensures
        forall|k: int|
            0 <= k < places.len() ==> prints(
                entries(recs, places, listing, full),
                #[trigger] places[k],
                recs[places[k]],
                full,
            ),
        !full ==> entries(recs, places, listing, full).len() == 2 * places.len(),
    decreases places.len(),
{
    if places.len() > 0 {
        let front = places.drop_last();
        let before = entries(recs, front, listing, full);
        let last = entry(places.last(), recs[places.last()], listing, full);
        lemma_entries_print(recs, front, listing, full);
        lemma_entry_prints(before, places.last(), recs[places.last()], listing, full);
        assert forall|k: int| 0 <= k < places.len() implies prints(
            entries(recs, places, listing, full),
            #[trigger] places[k],
            recs[places[k]],
            full,
        ) by {
            if k < places.len() - 1 {
                assert(front[k] == places[k]);
                lemma_prints_longer(before, last, places[k], recs[places[k]], full);
            }
        }
    }
}

/// As text the errors view says how many records are at its levels and prints each of them; cut
/// to size that takes two lines each.
pub proof fn errors_prints_the_records_at_its_levels(
    recs: Seq<RecordView>,
    warn: bool,
    level: Option<String>,
    full: bool,
)
    ensures
        view_output(recs, crate::cli::View::Errors { warn, level }, false, full) matches OutputView::Lines(v) && exists|
            places: Seq<int>,
        |
            #[trigger] are_all(places, recs, at_error_level(warn, opt_text(level))) && v.len() > 0 && begins(
                v[0],
                decimal(places.len()) + " record(s) at ["@,
            ) && (forall|k: int| 0 <= k < places.len() ==> prints(v, #[trigger] places[k], recs[places[k]], full)) && (
            !full ==> v.len() == 1 + 2 * places.len()),
{
    let want = opt_text(level);
    let levels = sorted_texts(error_levels(warn, want));
    let w = WantView::Levels(levels);
    let places = picks(recs, w);
    assert forall|r: RecordView| #[trigger] accepts(w, r) == at_error_level(warn, want)(r) by {
        lemma_error_levels(warn, want, r);
    }
    lemma_picks_are_all(recs, w, at_error_level(warn, want));
    lemma_entries_print(recs, places, Listing::Errors, full);
    let v = view_output(recs, crate::cli::View::Errors { warn, level }, false, full)->Lines_0;
    let front = decimal(places.len()) + " record(s) at ["@;
    let rest = v[0].skip(front.len() as int);
    a_whole_holds_its_middle(front, rest, Seq::<char>::empty());
    assert(front + rest + Seq::<char>::empty() =~= v[0]);
    let e = entries(recs, places, Listing::Errors, full);
    assert(v =~= seq![v[0]] + e);
    assert forall|k: int| 0 <= k < places.len() implies prints(v, #[trigger] places[k], recs[places[k]], full) by {
        lemma_prints_longer(e, seq![v[0]], places[k], recs[places[k]], full);
    }
    assert(are_all(places, recs, at_error_level(warn, want)));
}

/// As text the grep view prints the first records that match, says where it stopped at the limit,
/// and says that there is no match where there is none.
pub proof fn grep_prints_the_first_records_that_match(
    recs: Seq<RecordView>,
    pattern: String,
    ignore_case: bool,
    limit: usize,
    full: bool,
)
    requires
        regex_fault(pattern@, ignore_case) is None,
    ensures
        ({
            let cap = if limit > 1 {
                limit as int
            } else {
                1
            };
            view_output(recs, crate::cli::View::Grep { pattern, ignore_case, limit }, false, full) matches OutputView::Lines(v)
                && exists|all: Seq<int>|
                #[trigger] are_all(all, recs, matching(pattern@, ignore_case)) && (all.len() == 0 ==> v == seq![
                    "no match"@,
                ]) && (forall|k: int|
                    0 <= k < all.len() && k < cap ==> prints(v, #[trigger] all[k], recs[all[k]], full)) && (all.len()
                    >= cap ==> v.last() == "... stopped at "@ + decimal(limit as nat) + " (use --limit)"@) && (!full
                    && 0 < all.len() < cap ==> v.len() == 2 * all.len())
        }),
{
    let w = WantView::Match { pattern: pattern@, any_case: ignore_case };
    let all = picks(recs, w);
    let cap = crate::views::listing::match_cap(limit as int);
    let places = crate::views::first_places(all, cap);
    lemma_picks_are_all(recs, w, matching(pattern@, ignore_case));
    lemma_entries_print(recs, places, Listing::Grep, full);
    let v = view_output(recs, crate::cli::View::Grep { pattern, ignore_case, limit }, false, full)->Lines_0;
    let e = entries(recs, places, Listing::Grep, full);
    let none = Seq::<Seq<char>>::empty();
    assert(e + none =~= e);
    assert forall|k: int| 0 <= k < all.len() && k < cap implies prints(v, #[trigger] all[k], recs[all[k]], full) by {
        assert(places[k] == all[k]);
        lemma_prints_longer(e, v.skip(e.len() as int), all[k], recs[all[k]], full);
        assert(e + v.skip(e.len() as int) =~= v);
    }
    assert(are_all(all, recs, matching(pattern@, ignore_case)));
}

/// Whether lines print a record of a trace: when it was written, at which level and by which
/// service, its message, and its stack where it has one.
pub open spec fn prints_in_trace(lines: Seq<Seq<char>>, r: RecordView, full: bool) -> bool {
    &&& exists|k: int|
        0 <= k < lines.len() - 1 && #[trigger] lines[k] == short_time(r.ts) + " "@ + r.level + " "@ + r.service + " "@
            + tail_part(r.logger, '.') && lines[k + 1] == "  "@ + if full {
            cut_back(r.msg, CharSet::Space)
        } else {
            one_line(r.msg, 160)
        }
    &&& r.stack.len() > 0 ==> lines.contains(
        "  STACK: "@ + if full {
            cut_back(r.stack, CharSet::Space)
        } else {
            one_line(r.stack, 200)
        },
    )
}

proof fn lemma_prints_in_trace_longer(lines: Seq<Seq<char>>, more: Seq<Seq<char>>, r: RecordView, full: bool)
    requires
        prints_in_trace(lines, r, full),
    ensures
        prints_in_trace(lines + more, r, full),
        prints_in_trace(more + lines, r, full),
{
    let whole = lines + more;
    let other = more + lines;
    let head = short_time(r.ts) + " "@ + r.level + " "@ + r.service + " "@ + tail_part(r.logger, '.');
    let text = "  "@ + if full {
        cut_back(r.msg, CharSet::Space)
    } else {
        one_line(r.msg, 160)
    };
    let k = choose|k: int| 0 <= k < lines.len() - 1 && #[trigger] lines[k] == head && lines[k + 1] == text;
    assert(whole[k] == lines[k] && whole[k + 1] == lines[k + 1]);
    let m = more.len() + k;
    assert(other[m] == lines[k] && other[m + 1] == lines[k + 1]);
    if r.stack.len() > 0 {
        let s = "  STACK: "@ + if full {
            cut_back(r.stack, CharSet::Space)
        } else {
            one_line(r.stack, 200)
        };
        let at = choose|at: int| 0 <= at < lines.len() && lines[at] == s;
        assert(whole[at] == s);
        assert(other[more.len() + at] == s);
    }
}

proof fn lemma_trace_entry_prints(r: RecordView, full: bool)
    ensures
        prints_in_trace(trace_entry(r, full), r, full),
{
    let last = trace_entry(r, full);
    let head = headline(r) + " "@ + tail_part(r.logger, '.');
    let text = "  "@ + crate::views::shown(r.msg, full, 160);
    let stack = crate::views::listing::trace_stack(r, full);
    assert(last == seq![head, text] + stack);
    assert(last[0] == head);
    assert(last[1] == text);
    if r.stack.len() > 0 {
        assert(stack[0] == "  STACK: "@ + crate::views::shown(r.stack, full, 200));
        assert(last[2] == stack[0]);
    }
}

proof fn lemma_trace_entries_print(recs: Seq<RecordView>, places: Seq<int>, full: bool)
    ensures
        forall|k: int|
            0 <= k < places.len() ==> prints_in_trace(
                trace_entries(recs, places, full),
                recs[#[trigger] places[k]],
                full,
            ),
    decreases places.len(),
{
    if places.len() > 0 {
        let front = places.drop_last();
        let before = trace_entries(recs, front, full);
        let r = recs[places.last()];
        let last = trace_entry(r, full);
        lemma_trace_entries_print(recs, front, full);
        lemma_trace_entry_prints(r, full);
        lemma_prints_in_trace_longer(last, before, r, full);
        assert forall|k: int| 0 <= k < places.len() implies prints_in_trace(
            trace_entries(recs, places, full),
            recs[#[trigger] places[k]],
            full,
        ) by {
            if k < places.len() - 1 {
                assert(front[k] == places[k]);
                lemma_prints_in_trace_longer(before, last, recs[places[k]], full);
            }
        }
    }
}

/// As text the trace view says how many records a trace has, and prints each of them.
pub proof fn trace_prints_the_records_of_a_trace(recs: Seq<RecordView>, trace_id: String, full: bool)
    ensures
        view_output(recs, crate::cli::View::Trace { trace_id }, false, full) matches OutputView::Lines(v) && exists|
            places: Seq<int>,
        |
            #[trigger] are_all_by_time(places, recs, in_trace(trace_id@)) && v.len() > 0 && v[0] == decimal(
                places.len(),
            ) + " record(s) for trace "@ + trace_id@ + "\n"@ && forall|k: int|
                0 <= k < places.len() ==> prints_in_trace(v, recs[#[trigger] places[k]], full),
{
    let places = trace_places(recs, trace_id@);
    lemma_trace_places(recs, trace_id@);
    lemma_trace_entries_print(recs, places, full);
    let v = view_output(recs, crate::cli::View::Trace { trace_id }, false, full)->Lines_0;
    let e = trace_entries(recs, places, full);
    assert(v =~= seq![v[0]] + e);
    assert forall|k: int| 0 <= k < places.len() implies prints_in_trace(v, recs[#[trigger] places[k]], full) by {
        lemma_prints_in_trace_longer(e, seq![v[0]], recs[places[k]], full);
    }
}

} // verus!
