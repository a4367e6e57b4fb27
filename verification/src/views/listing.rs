//! The views that list records: errors, matches, traces, and one record in full.

use super::{
    body_with, error_levels, first_places, level_set, pick, pick_all, picks, record_json, record_value, shown,
    Output, OutputView, Want, WantView,
};
use crate::json::{
    array, fields, items, json_int, json_strings, object, push_field, push_item, size_value, str_items,
    str_value, Json, JsonView,
};
use crate::number::{decimal, pad_left, right_set, size_to_text};
use crate::order::{
    ints, order_by_text, orders_are_strict_weak, sort_texts, sorted_texts, stable_order,
    stable_order_is_permutation, stable_order_is_sorted, text_before, text_order,
};
use crate::patterns::{compile, regex_fault};
use crate::record::{last_segment, records, short_time, short_ts, Record, RecordView, Scrubber};
use crate::text::{
    append_texts, cut_back, first_chars, join, joined, opt_str, owned, push_text, tail_part, take_chars, texts,
    trim_back, CharSet,
};
use vstd::prelude::*;

verus! {

/// The records at some places as JSON, with their places where those are wanted.
pub open spec fn record_values(recs: Seq<RecordView>, places: Seq<int>, placed: bool) -> JsonView {
    JsonView::Array(
        places.map_values(
            |i: int|
                record_value(
                    if placed {
                        Some(i as usize)
                    } else {
                        None
                    },
                    recs[i],
                ),
        ),
    )
}

fn pack_records(recs: &[Record], places: &Vec<usize>, placed: bool) -> (r: Json)
    requires
        forall|k: int| 0 <= k < places@.len() ==> places@[k] < recs@.len(),
    ensures
        r@ == record_values(records(recs@), ints(places@), placed),
{
    let ghost whole = record_values(records(recs@), ints(places@), placed)->Array_0;
    let mut out: Vec<Json> = Vec::new();
    for k in 0..places.len()
        invariant
            whole == record_values(records(recs@), ints(places@), placed)->Array_0,
            forall|k: int| 0 <= k < places@.len() ==> places@[k] < recs@.len(),
            items(out@) == whole.take(k as int),
    {
        let ghost so_far = items(out@);
        let i: usize = places[k];
        assert(ints(places@)[k as int] == i);
        let index: Option<usize> = if placed {
            Some(i)
        } else {
            None
        };
        push_item(&mut out, record_json(index, &recs[i]));
        assert(whole.take(k as int + 1) =~= so_far.push(whole[k as int]));
    }
    assert(whole.take(places@.len() as int) =~= whole);
    array(out)
}

/// The line on a stack that a view prints whole.
pub open spec fn stack_lines(r: RecordView, full: bool) -> Seq<Seq<char>> {
    if full && r.stack.len() > 0 {
        seq!["     STACK: "@ + cut_back(r.stack, CharSet::Space)]
    } else {
        Seq::<Seq<char>>::empty()
    }
}

fn print_stack(r: &Record, full: bool) -> (v: Vec<String>)
    ensures
        texts(v@) == stack_lines(r@, full),
{
    let mut out: Vec<String> = Vec::new();
    assert(texts(out@) =~= Seq::<Seq<char>>::empty());
    if full && !r.stack.as_str().is_empty() {
        let mut s = owned("     STACK: ");
        s.append(trim_back(r.stack.as_str(), CharSet::Space).as_str());
        push_text(&mut out, s);
        assert(texts(out@) =~= stack_lines(r@, full));
    }
    out
}

/// When a record was written, at which level and by which service.
pub open spec fn headline(r: RecordView) -> Seq<char> {
    short_time(r.ts) + " "@ + r.level + " "@ + r.service
}

fn print_headline(r: &Record) -> (s: String)
    ensures
        s@ == headline(r@),
{
    let mut s = short_ts(r.ts.as_str());
    s.append(" ");
    s.append(r.level.as_str());
    s.append(" ");
    s.append(r.service.as_str());
    s
}

/// Which view an entry is printed for.
#[derive(Clone, Copy)]
pub enum Listing {
    Errors,
    Grep,
}

/// What follows the headline of an entry: logger and a mark for a stack, or the trace.
pub open spec fn entry_tail(r: RecordView, listing: Listing) -> Seq<char> {
    match listing {
        Listing::Errors => tail_part(r.logger, '.') + if r.stack.len() == 0 {
            ""@
        } else {
            " +stack"@
        },
        Listing::Grep => "trace="@ + first_chars(r.trace, 16),
    }
}

/// The lines of an entry.
pub open spec fn entry(i: int, r: RecordView, listing: Listing, full: bool) -> Seq<Seq<char>> {
    seq![
        "["@ + decimal(i as nat) + "] "@ + headline(r) + " "@ + entry_tail(r, listing),
        "     "@ + shown(r.msg, full, 160),
    ] + stack_lines(r, full)
}

/// The lines of entries.
pub open spec fn entries(
    recs: Seq<RecordView>,
    places: Seq<int>,
    listing: Listing,
    full: bool,
) -> Seq<Seq<char>>
    decreases places.len(),
{
    if places.len() == 0 {
        Seq::<Seq<char>>::empty()
    } else {
        entries(recs, places.drop_last(), listing, full) + entry(
            places.last(),
            recs[places.last()],
            listing,
            full,
        )
    }
}

fn print_entry(i: usize, r: &Record, listing: Listing, full: bool, scrubber: &Scrubber) -> (v: Vec<String>)
    requires
        scrubber.wf(),
    ensures
        texts(v@) == entry(i as int, r@, listing, full),
{
    let tail = match listing {
        Listing::Errors => {
            let mut t = owned(last_segment(r.logger.as_str()));
            if r.stack.as_str().is_empty() {
                t.append("");
            } else {
                t.append(" +stack");
            }
            t
        },
        Listing::Grep => {
            let mut t = owned("trace=");
            t.append(take_chars(r.trace.as_str(), 16).as_str());
            t
        },
    };
    let mut s = owned("[");
    s.append(size_to_text(i).as_str());
    s.append("] ");
    s.append(print_headline(r).as_str());
    s.append(" ");
    s.append(tail.as_str());
    let mut m = owned("     ");
    m.append(body_with(scrubber, r.msg.as_str(), full, 160).as_str());
    let mut out: Vec<String> = Vec::new();
    let ghost one = s@;
    let ghost two = m@;
    push_text(&mut out, s);
    push_text(&mut out, m);
    assert(texts(out@) =~= seq![one, two]);
    append_texts(&mut out, print_stack(r, full));
    out
}

fn print_entries(recs: &[Record], places: &Vec<usize>, listing: Listing, full: bool) -> (v: Vec<String>)
    requires
        forall|k: int| 0 <= k < places@.len() ==> places@[k] < recs@.len(),
    ensures
        texts(v@) == entries(records(recs@), ints(places@), listing, full),
{
    let scrubber = Scrubber::new();
    let ghost all = records(recs@);
    let ghost at = ints(places@);
    let mut out: Vec<String> = Vec::new();
    assert(texts(out@) =~= entries(all, at.take(0), listing, full));
    for k in 0..places.len()
        invariant
            scrubber.wf(),
            all == records(recs@),
            at == ints(places@),
            forall|k: int| 0 <= k < places@.len() ==> places@[k] < recs@.len(),
            texts(out@) == entries(all, at.take(k as int), listing, full),
    {
        let i: usize = places[k];
        assert(at.take(k as int + 1).drop_last() =~= at.take(k as int));
        assert(at.take(k as int + 1).last() == i);
        append_texts(&mut out, print_entry(i, &recs[i], listing, full, &scrubber));
    }
    assert(at.take(places@.len() as int) =~= at);
    out
}

/// Levels in quotes.
pub open spec fn quoted_levels(levels: Seq<Seq<char>>) -> Seq<Seq<char>> {
    levels.map_values(|l: Seq<char>| "'"@ + l + "'"@)
}

fn quote_levels(levels: &Vec<String>) -> (r: Vec<String>)
    ensures
        texts(r@) == quoted_levels(texts(levels@)),
{
    let ghost whole = quoted_levels(texts(levels@));
    let mut out: Vec<String> = Vec::new();
    for i in 0..levels.len()
        invariant
            whole == quoted_levels(texts(levels@)),
            texts(out@) == whole.take(i as int),
    {
        let ghost so_far = texts(out@);
        let mut s = owned("'");
        s.append(levels[i].as_str());
        s.append("'");
        push_text(&mut out, s);
        assert(whole.take(i as int + 1) =~= so_far.push(whole[i as int]));
    }
    assert(whole.take(levels@.len() as int) =~= whole);
    out
}

/// The records at error levels.
pub open spec fn errors_output(
    recs: Seq<RecordView>,
    warn: bool,
    level: Option<Seq<char>>,
    json_out: bool,
    full: bool,
) -> OutputView {
    let levels = sorted_texts(error_levels(warn, level));
    let places = picks(recs, WantView::Levels(levels));
    if json_out {
        OutputView::Value(
            JsonView::Object(
                seq![
                    ("levels"@, json_strings(levels)),
                    ("count"@, json_int(places.len() as int)),
                    ("records"@, record_values(recs, places, true)),
                ],
            ),
        )
    } else {
        OutputView::Lines(
            seq![
                decimal(places.len()) + " record(s) at ["@ + joined(quoted_levels(levels), ", "@) + "]\n"@,
            ] + entries(recs, places, Listing::Errors, full),
        )
    }
}

/// Lists the records at error levels.
pub fn errors(recs: &[Record], warn: bool, level: Option<&str>, json_out: bool, full: bool) -> (r: Output)
    ensures
        r@ == errors_output(records(recs@), warn, opt_str(level), json_out, full),
{
    let levels = sort_texts(&level_set(warn, level));
    let places = pick_all(recs, &Want::Levels(&levels));
    if json_out {
        let mut o: Vec<(String, Json)> = Vec::new();
        assert(fields(o@) =~= Seq::<(Seq<char>, JsonView)>::empty());
        push_field(&mut o, "levels", str_items(&levels));
        push_field(&mut o, "count", size_value(places.len()));
        push_field(&mut o, "records", pack_records(recs, &places, true));
        let ghost want = errors_output(records(recs@), warn, opt_str(level), json_out, full);
        assert(fields(o@) =~= (want->Value_0)->Object_0);
        return Output::Value(object(o));
    }
    let mut s = size_to_text(places.len());
    s.append(" record(s) at [");
    s.append(join(&quote_levels(&levels), ", ").as_str());
    s.append("]\n");
    let ghost head = s@;
    let mut out: Vec<String> = Vec::new();
    push_text(&mut out, s);
    assert(texts(out@) =~= seq![head]);
    append_texts(&mut out, print_entries(recs, &places, Listing::Errors, full));
    Output::Lines(out)
}

/// How many matches are listed at most: the limit, but at least one.
pub open spec fn match_cap(limit: int) -> int {
    if limit > 1 {
        limit
    } else {
        1
    }
}

/// The records at the places that match a regular expression, of which at most so many are
/// listed.
pub open spec fn found_output(
    recs: Seq<RecordView>,
    pattern: Seq<char>,
    places: Seq<int>,
    limit: int,
    json_out: bool,
    full: bool,
) -> OutputView {
    let truncated = places.len() >= match_cap(limit);
    if json_out {
        OutputView::Value(
            JsonView::Object(
                seq![
                    ("pattern"@, JsonView::Str(pattern)),
                    ("count"@, json_int(places.len() as int)),
                    ("truncated"@, JsonView::Bool(truncated)),
                    ("records"@, record_values(recs, places, true)),
                ],
            ),
        )
    } else if places.len() == 0 {
        OutputView::Lines(seq!["no match"@])
    } else {
        OutputView::Lines(
            entries(recs, places, Listing::Grep, full) + if truncated {
                seq!["... stopped at "@ + decimal(limit as nat) + " (use --limit)"@]
            } else {
                Seq::<Seq<char>>::empty()
            },
        )
    }
}

/// The records that match a regular expression, which compiles: as many as may be listed.
pub open spec fn matches_output(
    recs: Seq<RecordView>,
    pattern: Seq<char>,
    any_case: bool,
    limit: int,
    json_out: bool,
    full: bool,
) -> OutputView {
    let found = picks(recs, WantView::Match { pattern, any_case });
    found_output(recs, pattern, first_places(found, match_cap(limit)), limit, json_out, full)
}

/// The records that match a regular expression, or what is wrong with it.
pub open spec fn grep_output(
    recs: Seq<RecordView>,
    pattern: Seq<char>,
    any_case: bool,
    limit: int,
    json_out: bool,
    full: bool,
) -> OutputView {
    match regex_fault(pattern, any_case) {
        Some(e) => OutputView::Failure("bad regex: "@ + e),
        None => matches_output(recs, pattern, any_case, limit, json_out, full),
    }
}

/// Lists the records that match a regular expression.
pub fn grep(
    recs: &[Record],
    pattern: &str,
    ignore_case: bool,
    limit: usize,
    json_out: bool,
    full: bool,
) -> (r: Output)
    ensures
        r@ == grep_output(records(recs@), pattern@, ignore_case, limit as int, json_out, full),
{
    let rx = match compile(pattern, ignore_case) {
        Ok(rx) => rx,
        Err(e) => {
            let mut s = owned("bad regex: ");
            s.append(e.as_str());
            return Output::Failure(s);
        },
    };
    let cap: usize = if limit > 1 {
        limit
    } else {
        1
    };
    let places = pick(recs, &Want::Match(&rx), cap);
    list_found(recs, pattern, &places, limit, json_out, full)
}

/// Lists the records at the places that match a regular expression.
pub fn list_found(
    recs: &[Record],
    pattern: &str,
    places: &Vec<usize>,
    limit: usize,
    json_out: bool,
    full: bool,
) -> (r: Output)
    requires
        forall|k: int| 0 <= k < places@.len() ==> places@[k] < recs@.len(),
    ensures
        r@ == found_output(records(recs@), pattern@, ints(places@), limit as int, json_out, full),
{
    let cap: usize = if limit > 1 {
        limit
    } else {
        1
    };
    assert(ints(places@).len() == places@.len());
    let truncated = places.len() >= cap;
    if json_out {
        let mut o: Vec<(String, Json)> = Vec::new();
        assert(fields(o@) =~= Seq::<(Seq<char>, JsonView)>::empty());
        push_field(&mut o, "pattern", str_value(pattern));
        push_field(&mut o, "count", size_value(places.len()));
        push_field(&mut o, "truncated", Json::Bool(truncated));
        push_field(&mut o, "records", pack_records(recs, places, true));
        let ghost want = found_output(records(recs@), pattern@, ints(places@), limit as int, json_out, full);
        assert(fields(o@) =~= (want->Value_0)->Object_0);
        return Output::Value(object(o));
    }
    let mut out: Vec<String> = Vec::new();
    assert(texts(out@) =~= Seq::<Seq<char>>::empty());
    if places.len() == 0 {
        push_text(&mut out, owned("no match"));
        assert(texts(out@) =~= seq!["no match"@]);
        return Output::Lines(out);
    }
    append_texts(&mut out, print_entries(recs, places, Listing::Grep, full));
    assert(texts(out@) =~= entries(records(recs@), ints(places@), Listing::Grep, full));
    if truncated {
        let ghost so_far = texts(out@);
        let mut s = owned("... stopped at ");
        s.append(size_to_text(limit).as_str());
        s.append(" (use --limit)");
        let ghost tail = s@;
        push_text(&mut out, s);
        assert(texts(out@) =~= so_far + seq![tail]);
    } else {
        assert(texts(out@) =~= texts(out@) + Seq::<Seq<char>>::empty());
    }
    Output::Lines(out)
}

/// The places of the records of a trace, in the order of their timestamps.
pub open spec fn trace_places(recs: Seq<RecordView>, trace_id: Seq<char>) -> Seq<int> {
    let found = picks(recs, WantView::Trace(trace_id));
    let times = found.map_values(|i: int| recs[i].ts);
    stable_order(found.len(), text_order(times)).map_values(|k: int| found[k])
}

/// The records of a trace stand in the order of their timestamps, and none is lost.
pub proof fn trace_is_in_order(recs: Seq<RecordView>, trace_id: Seq<char>)
    ensures
        trace_places(recs, trace_id).len() == picks(recs, WantView::Trace(trace_id)).len(),
        forall|i: int, j: int|
            0 <= i < j < trace_places(recs, trace_id).len() ==> !text_before(
                recs[#[trigger] trace_places(recs, trace_id)[j]].ts,
                recs[#[trigger] trace_places(recs, trace_id)[i]].ts,
            ),
{
    let found = picks(recs, WantView::Trace(trace_id));
    let times = found.map_values(|i: int| recs[i].ts);
    let before = text_order(times);
    orders_are_strict_weak(times, Seq::empty());
    stable_order_is_permutation(found.len(), before);
    stable_order_is_sorted(found.len(), before);
    let order = stable_order(found.len(), before);
    assert forall|i: int, j: int| 0 <= i < j < trace_places(recs, trace_id).len() implies !text_before(
        recs[#[trigger] trace_places(recs, trace_id)[j]].ts,
        recs[#[trigger] trace_places(recs, trace_id)[i]].ts,
    ) by {
        assert(0 <= order[i] < found.len() && 0 <= order[j] < found.len());
        assert(times[order[i]] == recs[found[order[i]]].ts && times[order[j]] == recs[found[order[j]]].ts);
        if before(order[j], order[i]) {
            assert(before(order[i], order[j]));
            assert(before(order[j], order[j]));
        }
    }
}

fn find_trace(recs: &[Record], trace_id: &str) -> (r: Vec<usize>)
    ensures
        ints(r@) == trace_places(records(recs@), trace_id@),
        forall|k: int| 0 <= k < r@.len() ==> r@[k] < recs@.len(),
{
    let ghost all = records(recs@);
    let found = pick_all(recs, &Want::Trace(trace_id));
    let ghost at = ints(found@);
    let ghost wanted = at.map_values(|i: int| all[i].ts);
    let mut times: Vec<String> = Vec::new();
    for k in 0..found.len()
        invariant
            all == records(recs@),
            at == ints(found@),
            wanted == at.map_values(|i: int| all[i].ts),
            forall|k: int| 0 <= k < found@.len() ==> found@[k] < recs@.len(),
            texts(times@) == wanted.take(k as int),
            times@.len() == k,
    {
        let ghost so_far = texts(times@);
        assert(at[k as int] == found@[k as int]);
        push_text(&mut times, owned(recs[found[k]].ts.as_str()));
        assert(wanted.take(k as int + 1) =~= so_far.push(wanted[k as int]));
    }
    assert(wanted.take(found@.len() as int) =~= wanted);
    let order = order_by_text(&times, false);
    let ghost whole = trace_places(all, trace_id@);
    assert(ints(order@).len() == order@.len());
    let mut out: Vec<usize> = Vec::new();
    for k in 0..order.len()
        invariant
            at == ints(found@),
            whole == ints(order@).map_values(|k: int| at[k]),
            whole.len() == order@.len(),
            forall|k: int| 0 <= k < found@.len() ==> found@[k] < recs@.len(),
            forall|k: int| 0 <= k < order@.len() ==> order@[k] < found@.len(),
            ints(out@) == whole.take(k as int),
            forall|k: int| 0 <= k < out@.len() ==> out@[k] < recs@.len(),
    {
        let ghost so_far = ints(out@);
        let p: usize = found[order[k]];
        assert(ints(order@)[k as int] == order@[k as int]);
        assert(at[order@[k as int] as int] == p);
        out.push(p);
        assert(ints(out@) =~= so_far.push(whole[k as int]));
        assert(whole.take(k as int + 1) =~= so_far.push(whole[k as int]));
    }
    assert(whole.take(order@.len() as int) =~= whole);
    out
}

/// The stack of a record of a trace: whole, or on one line.
pub open spec fn trace_stack(r: RecordView, full: bool) -> Seq<Seq<char>> {
    if r.stack.len() == 0 {
        Seq::<Seq<char>>::empty()
    } else {
        seq!["  STACK: "@ + shown(r.stack, full, 200)]
    }
}

/// The lines of a record of a trace.
pub open spec fn trace_entry(r: RecordView, full: bool) -> Seq<Seq<char>> {
    seq![
        headline(r) + " "@ + tail_part(r.logger, '.'),
        "  "@ + shown(r.msg, full, 160),
    ] + trace_stack(r, full)
}

/// The lines of the records of a trace.
pub open spec fn trace_entries(recs: Seq<RecordView>, places: Seq<int>, full: bool) -> Seq<Seq<char>>
    decreases places.len(),
{
    if places.len() == 0 {
        Seq::<Seq<char>>::empty()
    } else {
        trace_entries(recs, places.drop_last(), full) + trace_entry(recs[places.last()], full)
    }
}

/// The records of a trace.
pub open spec fn trace_output(recs: Seq<RecordView>, trace_id: Seq<char>, json_out: bool, full: bool) -> OutputView {
    let places = trace_places(recs, trace_id);
    if json_out {
        OutputView::Value(
            JsonView::Object(
                seq![
                    ("trace"@, JsonView::Str(trace_id)),
                    ("count"@, json_int(places.len() as int)),
                    ("records"@, record_values(recs, places, false)),
                ],
            ),
        )
    } else {
        OutputView::Lines(
            seq![decimal(places.len()) + " record(s) for trace "@ + trace_id + "\n"@] + trace_entries(
                recs,
                places,
                full,
            ),
        )
    }
}

fn print_trace_entry(r: &Record, full: bool, scrubber: &Scrubber) -> (v: Vec<String>)
    requires
        scrubber.wf(),
    ensures
        texts(v@) == trace_entry(r@, full),
{
    let mut s = print_headline(r);
    s.append(" ");
    s.append(last_segment(r.logger.as_str()));
    let mut m = owned("  ");
    m.append(body_with(scrubber, r.msg.as_str(), full, 160).as_str());
    let ghost one = s@;
    let ghost two = m@;
    let mut out: Vec<String> = Vec::new();
    push_text(&mut out, s);
    push_text(&mut out, m);
    assert(texts(out@) =~= seq![one, two]);
    if !r.stack.as_str().is_empty() {
        let ghost so_far = texts(out@);
        let mut t = owned("  STACK: ");
        t.append(body_with(scrubber, r.stack.as_str(), full, 200).as_str());
        let ghost three = t@;
        push_text(&mut out, t);
        assert(texts(out@) =~= so_far + seq![three]);
    } else {
        assert(texts(out@) =~= texts(out@) + Seq::<Seq<char>>::empty());
    }
    out
}

/// Lists the records of a trace.
pub fn trace(recs: &[Record], trace_id: &str, json_out: bool, full: bool) -> (r: Output)
    ensures
        r@ == trace_output(records(recs@), trace_id@, json_out, full),
{
    let places = find_trace(recs, trace_id);
    let ghost all = records(recs@);
    let ghost at = ints(places@);
    assert(at.len() == places@.len());
    if json_out {
        let mut o: Vec<(String, Json)> = Vec::new();
        assert(fields(o@) =~= Seq::<(Seq<char>, JsonView)>::empty());
        push_field(&mut o, "trace", str_value(trace_id));
        push_field(&mut o, "count", size_value(places.len()));
        push_field(&mut o, "records", pack_records(recs, &places, false));
        let ghost want = trace_output(all, trace_id@, json_out, full);
        assert(fields(o@) =~= (want->Value_0)->Object_0);
        return Output::Value(object(o));
    }
    let scrubber = Scrubber::new();
    let mut s = size_to_text(places.len());
    s.append(" record(s) for trace ");
    s.append(trace_id);
    s.append("\n");
    let ghost head = seq![s@];
    let mut out: Vec<String> = Vec::new();
    push_text(&mut out, s);
    assert(texts(out@) =~= head + trace_entries(all, at.take(0), full));
    for k in 0..places.len()
        invariant
            scrubber.wf(),
            all == records(recs@),
            at == ints(places@),
            forall|k: int| 0 <= k < places@.len() ==> places@[k] < recs@.len(),
            texts(out@) == head + trace_entries(all, at.take(k as int), full),
    {
        let i: usize = places[k];
        assert(at.take(k as int + 1).drop_last() =~= at.take(k as int));
        assert(at.take(k as int + 1).last() == i);
        let more = print_trace_entry(&recs[i], full, &scrubber);
        let ghost so_far = trace_entries(all, at.take(k as int), full);
        assert((head + so_far) + texts(more@) =~= head + (so_far + texts(more@)));
        append_texts(&mut out, more);
    }
    assert(at.take(places@.len() as int) =~= at);
    Output::Lines(out)
}

/// A named field on a line, unless it is empty.
pub open spec fn field_lines(name: Seq<char>, value: Seq<char>) -> Seq<Seq<char>> {
    if value.len() == 0 {
        Seq::<Seq<char>>::empty()
    } else {
        seq![right_set(name, 10) + ": "@ + value]
    }
}

fn print_field(out: &mut Vec<String>, name: &str, value: &str)
    ensures
        texts(final(out)@) == texts(old(out)@) + field_lines(name@, value@),
{
    let ghost was = texts(out@);
    if value.is_empty() {
        assert(texts(out@) =~= was + field_lines(name@, value@));
        return;
    }
    let mut s = pad_left(name, 10);
    s.append(": ");
    s.append(value);
    push_text(out, s);
    assert(texts(out@) =~= was + field_lines(name@, value@));
}

/// The lines of a record in full.
pub open spec fn full_record(r: RecordView) -> Seq<Seq<char>> {
    field_lines("ts"@, r.ts) + field_lines("level"@, r.level) + field_lines("service"@, r.service) + field_lines(
        "pod"@,
        r.pod,
    ) + field_lines("namespace"@, r.namespace) + field_lines("logger"@, r.logger) + field_lines(
        "thread"@,
        r.thread,
    ) + field_lines("trace"@, r.trace) + seq!["\nmessage:\n"@ + r.msg] + if r.stack.len() == 0 {
        Seq::<Seq<char>>::empty()
    } else {
        seq!["\nstack_trace:\n"@ + r.stack]
    }
}

/// One record in full.
pub open spec fn show_output(recs: Seq<RecordView>, index: int, json_out: bool) -> OutputView {
    if index >= recs.len() {
        OutputView::Failure(
            "index "@ + decimal(index as nat) + " out of range (0.."@ + decimal(recs.len()) + ")"@,
        )
    } else if json_out {
        OutputView::Value(record_value(None, recs[index]))
    } else {
        OutputView::Lines(full_record(recs[index]))
    }
}

fn print_record(r: &Record) -> (v: Vec<String>)
    ensures
        texts(v@) == full_record(r@),
{
    let mut out: Vec<String> = Vec::new();
    assert(texts(out@) + field_lines("ts"@, r.ts@) =~= field_lines("ts"@, r.ts@));
    print_field(&mut out, "ts", r.ts.as_str());
    print_field(&mut out, "level", r.level.as_str());
    print_field(&mut out, "service", r.service.as_str());
    print_field(&mut out, "pod", r.pod.as_str());
    print_field(&mut out, "namespace", r.namespace.as_str());
    print_field(&mut out, "logger", r.logger.as_str());
    print_field(&mut out, "thread", r.thread.as_str());
    print_field(&mut out, "trace", r.trace.as_str());
    let ghost a = texts(out@);
    let mut s = owned("\nmessage:\n");
    s.append(r.msg.as_str());
    push_text(&mut out, s);
    assert(texts(out@) =~= a + seq!["\nmessage:\n"@ + r.msg@]);
    let ghost b = texts(out@);
    if !r.stack.as_str().is_empty() {
        let mut s = owned("\nstack_trace:\n");
        s.append(r.stack.as_str());
        push_text(&mut out, s);
        assert(texts(out@) =~= b + seq!["\nstack_trace:\n"@ + r.stack@]);
    } else {
        assert(texts(out@) =~= b + Seq::<Seq<char>>::empty());
    }
    out
}

/// Shows one record in full.
pub fn show(recs: &[Record], index: usize, json_out: bool) -> (r: Output)
    ensures
        r@ == show_output(records(recs@), index as int, json_out),
{
    if index >= recs.len() {
        let mut s = owned("index ");
        s.append(size_to_text(index).as_str());
        s.append(" out of range (0..");
        s.append(size_to_text(recs.len()).as_str());
        s.append(")");
        return Output::Failure(s);
    }
    if json_out {
        Output::Value(record_json(None, &recs[index]))
    } else {
        Output::Lines(print_record(&recs[index]))
    }
}

} // verus!
