//! The summary: counts by level, service and logger, and the top patterns of errors.

use super::{
    body_with, cluster_errors, clusters, count_by, counts, picks, shown, tally, Key, Output, OutputView, WantView,
};
use crate::json::{
    array, fields, items, json_int, object, push_field, push_item, size_value, str_value, Json, JsonView,
};
use crate::number::{decimal, pad_left, right_set, size_to_text};
use crate::order::{group_views, is_before, text_before, Group, GroupView};
use crate::record::{records, short_time, short_ts, Record, RecordView, Scrubber};
use crate::text::{append_texts, owned, push_text, texts};
use vstd::prelude::*;

verus! {

/// The first and the last timestamp of records, if any of them has one.
pub open spec fn time_range(recs: Seq<RecordView>) -> Option<(Seq<char>, Seq<char>)>
    decreases recs.len(),
{
    if recs.len() == 0 {
        None
    } else {
        let ts = recs.last().ts;
        match time_range(recs.drop_last()) {
            _ if ts.len() == 0 => time_range(recs.drop_last()),
            None => Some((ts, ts)),
            Some((a, b)) => Some(
                (
                    if text_before(ts, a) {
                        ts
                    } else {
                        a
                    },
                    if text_before(b, ts) {
                        ts
                    } else {
                        b
                    },
                ),
            ),
        }
    }
}

/// Every timestamp lies between the two ends of the range, and there is a range exactly where
/// there is a timestamp.
pub proof fn time_range_bounds(recs: Seq<RecordView>)
    ensures
        match time_range(recs) {
            Some((a, b)) => forall|i: int|
                0 <= i < recs.len() && (#[trigger] recs[i]).ts.len() > 0 ==> !text_before(recs[i].ts, a)
                    && !text_before(b, recs[i].ts),
            None => forall|i: int| 0 <= i < recs.len() ==> (#[trigger] recs[i]).ts.len() == 0,
        },
    decreases recs.len(),
{
    if recs.len() > 0 {
        let front = recs.drop_last();
        time_range_bounds(front);
        let ts = recs.last().ts;
        crate::order::text_before_irreflexive(ts);
        if let Some((a, b)) = time_range(recs) {
            assert forall|i: int| 0 <= i < recs.len() && (#[trigger] recs[i]).ts.len() > 0 implies !text_before(
                recs[i].ts,
                a,
            ) && !text_before(b, recs[i].ts) by {
                let t = recs[i].ts;
                if i < front.len() {
                    assert(front[i] == recs[i]);
                    if let Some((c, d)) = time_range(front) {
                        if text_before(t, a) && a != c {
                            crate::order::text_before_transitive(t, a, c);
                        }
                        if text_before(b, t) && b != d {
                            crate::order::text_before_transitive(d, b, t);
                        }
                    }
                }
            }
        } else {
            assert forall|i: int| 0 <= i < recs.len() implies (#[trigger] recs[i]).ts.len() == 0 by {
                if i < front.len() {
                    assert(front[i] == recs[i]);
                }
            }
        }
    }
}

fn find_range(recs: &[Record]) -> (r: Option<(String, String)>)
    ensures
        match r {
            Some((a, b)) => time_range(records(recs@)) == Some((a@, b@)),
            None => time_range(records(recs@)) is None,
        },
{
    let ghost all = records(recs@);
    let mut out: Option<(String, String)> = None;
    for i in 0..recs.len()
        invariant
            all == records(recs@),
            match out {
                Some((a, b)) => time_range(all.take(i as int)) == Some((a@, b@)),
                None => time_range(all.take(i as int)) is None,
            },
    {
        assert(all.take(i as int + 1).drop_last() =~= all.take(i as int));
        assert(all.take(i as int + 1).last() == recs@[i as int]@);
        let ts = recs[i].ts.as_str();
        if !ts.is_empty() {
            out = match out {
                None => Some((owned(ts), owned(ts))),
                Some((a, b)) => {
                    let lo = if is_before(ts, a.as_str()) {
                        owned(ts)
                    } else {
                        a
                    };
                    let hi = if is_before(b.as_str(), ts) {
                        owned(ts)
                    } else {
                        b
                    };
                    Some((lo, hi))
                },
            };
        }
    }
    assert(all.take(recs@.len() as int) =~= all);
    out
}

/// The first `n` of a list.
pub open spec fn top<A>(s: Seq<A>, n: int) -> Seq<A> {
    s.take(if s.len() <= n {
        s.len() as int
    } else {
        n
    })
}

/// The counts of values that are not empty.
pub open spec fn named(cs: Seq<(Seq<char>, int)>) -> Seq<(Seq<char>, int)>
    decreases cs.len(),
{
    if cs.len() == 0 {
        cs
    } else if cs.last().0.len() > 0 {
        named(cs.drop_last()).push(cs.last())
    } else {
        named(cs.drop_last())
    }
}

fn only_named(v: Vec<(String, usize)>) -> (r: Vec<(String, usize)>)
    ensures
        counts(r@) == named(counts(v@)),
{
    let ghost all = counts(v@);
    let mut out: Vec<(String, usize)> = Vec::new();
    assert(counts(out@) =~= named(all.take(0)));
    for i in 0..v.len()
        invariant
            all == counts(v@),
            counts(out@) == named(all.take(i as int)),
    {
        let ghost so_far = counts(out@);
        assert(all.take(i as int + 1).drop_last() =~= all.take(i as int));
        assert(all.take(i as int + 1).last() == all[i as int]);
        if !v[i].0.as_str().is_empty() {
            out.push((owned(v[i].0.as_str()), v[i].1));
            assert(counts(out@) =~= so_far.push(all[i as int]));
        }
    }
    assert(all.take(v@.len() as int) =~= all);
    out
}

fn first_counts(v: Vec<(String, usize)>, n: usize) -> (r: Vec<(String, usize)>)
    ensures
        counts(r@) == top(counts(v@), n as int),
{
    let mut v = v;
    let ghost all = counts(v@);
    if v.len() > n {
        v.truncate(n);
    }
    assert(counts(v@) =~= top(all, n as int));
    v
}

/// A count on a line.
pub open spec fn count_line(c: (Seq<char>, int)) -> Seq<char> {
    "  "@ + right_set(decimal(c.1 as nat), 6) + "  "@ + c.0
}

/// Counts on lines.
pub open spec fn count_lines(cs: Seq<(Seq<char>, int)>) -> Seq<Seq<char>> {
    cs.map_values(|c: (Seq<char>, int)| count_line(c))
}

fn print_counts(v: &Vec<(String, usize)>) -> (r: Vec<String>)
    ensures
        texts(r@) == count_lines(counts(v@)),
{
    let ghost whole = count_lines(counts(v@));
    let mut out: Vec<String> = Vec::new();
    for i in 0..v.len()
        invariant
            whole == count_lines(counts(v@)),
            texts(out@) == whole.take(i as int),
    {
        let ghost so_far = texts(out@);
        let mut s = owned("  ");
        s.append(pad_left(size_to_text(v[i].1).as_str(), 6).as_str());
        s.append("  ");
        s.append(v[i].0.as_str());
        push_text(&mut out, s);
        assert(whole.take(i as int + 1) =~= so_far.push(whole[i as int]));
    }
    assert(whole.take(v@.len() as int) =~= whole);
    out
}

/// A count as JSON.
pub open spec fn count_value(c: (Seq<char>, int)) -> JsonView {
    JsonView::Object(seq![("name"@, JsonView::Str(c.0)), ("count"@, json_int(c.1))])
}

/// Counts as JSON.
pub open spec fn count_values(cs: Seq<(Seq<char>, int)>) -> JsonView {
    JsonView::Array(cs.map_values(|c: (Seq<char>, int)| count_value(c)))
}

fn pack(v: &Vec<(String, usize)>) -> (r: Json)
    ensures
        r@ == count_values(counts(v@)),
{
    let ghost whole = counts(v@).map_values(|c: (Seq<char>, int)| count_value(c));
    let mut out: Vec<Json> = Vec::new();
    for i in 0..v.len()
        invariant
            whole == counts(v@).map_values(|c: (Seq<char>, int)| count_value(c)),
            items(out@) == whole.take(i as int),
    {
        let ghost so_far = items(out@);
        let mut o: Vec<(String, Json)> = Vec::new();
        push_field(&mut o, "name", str_value(v[i].0.as_str()));
        push_field(&mut o, "count", size_value(v[i].1));
        assert(fields(o@) =~= seq![("name"@, JsonView::Str(v@[i as int].0@)), ("count"@, json_int(v@[i as int].1 as int))]);
        push_item(&mut out, object(o));
        assert(whole.take(i as int + 1) =~= so_far.push(whole[i as int]));
    }
    assert(whole.take(v@.len() as int) =~= whole);
    array(out)
}

/// A cluster of errors on a line: its size, and level and message of its first record.
pub open spec fn cluster_line(recs: Seq<RecordView>, g: GroupView, full: bool) -> Seq<char> {
    let first = recs[g.members[0]];
    "  "@ + right_set(decimal(g.members.len()), 5) + "x ["@ + first.level + "] "@ + shown(first.msg, full, 120)
}

/// A cluster of errors as JSON.
pub open spec fn cluster_value(recs: Seq<RecordView>, g: GroupView) -> JsonView {
    let first = recs[g.members[0]];
    JsonView::Object(
        seq![
            ("count"@, json_int(g.members.len() as int)),
            ("level"@, JsonView::Str(first.level)),
            ("sig"@, JsonView::Str(g.key)),
            ("sample"@, JsonView::Str(first.msg)),
        ],
    )
}

/// Prints the largest clusters of errors.
pub fn print_clusters(recs: &[Record], groups: &Vec<Group>, scrubber: &Scrubber, full: bool) -> (r: Vec<String>)
    requires
        scrubber.wf(),
        super::inhabited(groups@, recs@.len() as int),
    ensures
        texts(r@) == top(group_views(groups@), 15).map_values(
            |g: GroupView| cluster_line(records(recs@), g, full),
        ),
{
    let ghost all = records(recs@);
    let ghost whole = top(group_views(groups@), 15).map_values(|g: GroupView| cluster_line(all, g, full));
    let n: usize = if groups.len() <= 15 {
        groups.len()
    } else {
        15
    };
    let mut out: Vec<String> = Vec::new();
    for i in 0..n
        invariant
            scrubber.wf(),
            n <= groups@.len(),
            super::inhabited(groups@, recs@.len() as int),
            all == records(recs@),
            n == whole.len(),
            whole == top(group_views(groups@), 15).map_values(|g: GroupView| cluster_line(all, g, full)),
            texts(out@) == whole.take(i as int),
    {
        let ghost so_far = texts(out@);
        let g = &groups[i];
        let ghost gv = g@;
        let at: usize = g.members[0];
        assert(gv.members[0] == at);
        let first = &recs[at];
        assert(all[at as int] == first@);
        let mut s = owned("  ");
        s.append(pad_left(size_to_text(g.members.len()).as_str(), 5).as_str());
        s.append("x [");
        s.append(first.level.as_str());
        s.append("] ");
        s.append(body_with(scrubber, first.msg.as_str(), full, 120).as_str());
        push_text(&mut out, s);
        assert(whole[i as int] == cluster_line(all, gv, full));
        assert(whole.take(i as int + 1) =~= so_far.push(whole[i as int]));
    }
    assert(whole.take(n as int) =~= whole);
    out
}

/// Makes the largest clusters of errors JSON.
pub fn pack_clusters(recs: &[Record], groups: &Vec<Group>) -> (r: Json)
    requires
        super::inhabited(groups@, recs@.len() as int),
    ensures
        r@ == JsonView::Array(
            top(group_views(groups@), 15).map_values(|g: GroupView| cluster_value(records(recs@), g)),
        ),
{
    let ghost all = records(recs@);
    let ghost whole = top(group_views(groups@), 15).map_values(|g: GroupView| cluster_value(all, g));
    let n: usize = if groups.len() <= 15 {
        groups.len()
    } else {
        15
    };
    let mut out: Vec<Json> = Vec::new();
    for i in 0..n
        invariant
            n <= groups@.len(),
            super::inhabited(groups@, recs@.len() as int),
            all == records(recs@),
            n == whole.len(),
            whole == top(group_views(groups@), 15).map_values(|g: GroupView| cluster_value(all, g)),
            items(out@) == whole.take(i as int),
    {
        let ghost so_far = items(out@);
        let g = &groups[i];
        let ghost gv = g@;
        let at: usize = g.members[0];
        assert(gv.members[0] == at);
        let first = &recs[at];
        assert(all[at as int] == first@);
        let mut o: Vec<(String, Json)> = Vec::new();
        assert(fields(o@) =~= Seq::<(Seq<char>, JsonView)>::empty());
        push_field(&mut o, "count", size_value(g.members.len()));
        push_field(&mut o, "level", str_value(first.level.as_str()));
        push_field(&mut o, "sig", str_value(g.key.as_str()));
        push_field(&mut o, "sample", str_value(first.msg.as_str()));
        assert(fields(o@) =~= cluster_value(all, gv)->Object_0);
        push_item(&mut out, object(o));
        assert(whole[i as int] == cluster_value(all, gv));
        assert(whole.take(i as int + 1) =~= so_far.push(whole[i as int]));
    }
    assert(whole.take(n as int) =~= whole);
    array(out)
}

/// The line on the range of time.
pub open spec fn range_lines(recs: Seq<RecordView>) -> Seq<Seq<char>> {
    match time_range(recs) {
        Some((a, b)) => seq!["range:   "@ + short_time(a) + "  ->  "@ + short_time(b)],
        None => Seq::<Seq<char>>::empty(),
    }
}

/// The lines on loggers.
pub open spec fn logger_lines(recs: Seq<RecordView>) -> Seq<Seq<char>> {
    if named(tally(recs, Key::Logger)).len() > 0 {
        seq!["\ntop loggers:"@] + count_lines(named(top(tally(recs, Key::Logger), 10)))
    } else {
        Seq::<Seq<char>>::empty()
    }
}

/// The lines on patterns of errors.
pub open spec fn pattern_lines(recs: Seq<RecordView>, full: bool) -> Seq<Seq<char>> {
    let total = picks(recs, WantView::Alarm).len();
    if total > 0 {
        seq!["\ntop error/warn patterns ("@ + decimal(total) + " total):"@] + top(
            clusters(recs, WantView::Alarm),
            15,
        ).map_values(|g: GroupView| cluster_line(recs, g, full))
    } else {
        Seq::<Seq<char>>::empty()
    }
}

/// The summary as lines.
pub open spec fn summary_lines(recs: Seq<RecordView>, full: bool) -> Seq<Seq<char>> {
    if recs.len() == 0 {
        seq!["empty"@]
    } else {
        seq!["records: "@ + decimal(recs.len())] + range_lines(recs) + seq!["\nlevels:"@] + count_lines(
            tally(recs, Key::Level),
        ) + seq!["\nservices:"@] + count_lines(top(tally(recs, Key::Service), 15)) + logger_lines(recs)
            + pattern_lines(recs, full)
    }
}

/// The range of time as JSON.
pub open spec fn range_value(recs: Seq<RecordView>) -> JsonView {
    match time_range(recs) {
        Some((a, b)) => JsonView::Object(
            seq![("start"@, JsonView::Str(short_time(a))), ("end"@, JsonView::Str(short_time(b)))],
        ),
        None => JsonView::Null,
    }
}

/// The summary as JSON.
pub open spec fn summary_value(recs: Seq<RecordView>) -> JsonView {
    JsonView::Object(
        seq![
            ("records"@, json_int(recs.len() as int)),
            ("range"@, range_value(recs)),
            ("levels"@, count_values(tally(recs, Key::Level))),
            ("services"@, count_values(top(tally(recs, Key::Service), 15))),
            ("loggers"@, count_values(top(named(tally(recs, Key::Logger)), 10))),
            ("error_warn_total"@, json_int(picks(recs, WantView::Alarm).len() as int)),
            (
                "patterns"@,
                JsonView::Array(
                    top(clusters(recs, WantView::Alarm), 15).map_values(|g: GroupView| cluster_value(recs, g)),
                ),
            ),
        ],
    )
}

/// The summary.
pub open spec fn summary_output(recs: Seq<RecordView>, json_out: bool, full: bool) -> OutputView {
    if json_out {
        OutputView::Value(summary_value(recs))
    } else {
        OutputView::Lines(summary_lines(recs, full))
    }
}

fn pack_range(range: &Option<(String, String)>) -> (r: Json)
    ensures
        r@ == match *range {
            Some((a, b)) => JsonView::Object(
                seq![("start"@, JsonView::Str(short_time(a@))), ("end"@, JsonView::Str(short_time(b@)))],
            ),
            None => JsonView::Null,
        },
{
    match range {
        Some((a, b)) => {
            let mut o: Vec<(String, Json)> = Vec::new();
            assert(fields(o@) =~= Seq::<(Seq<char>, JsonView)>::empty());
            push_field(&mut o, "start", str_value(short_ts(a.as_str()).as_str()));
            push_field(&mut o, "end", str_value(short_ts(b.as_str()).as_str()));
            assert(fields(o@) =~= seq![
                ("start"@, JsonView::Str(short_time(a@))),
                ("end"@, JsonView::Str(short_time(b@))),
            ]);
            object(o)
        },
        None => Json::Null,
    }
}

fn summarize(recs: &[Record]) -> (r: Json)
    ensures
        r@ == summary_value(records(recs@)),
{
    let range = find_range(recs);
    let (total, groups) = cluster_errors(recs);
    let mut o: Vec<(String, Json)> = Vec::new();
    assert(fields(o@) =~= Seq::<(Seq<char>, JsonView)>::empty());
    push_field(&mut o, "records", size_value(recs.len()));
    push_field(&mut o, "range", pack_range(&range));
    push_field(&mut o, "levels", pack(&count_by(recs, Key::Level)));
    push_field(&mut o, "services", pack(&first_counts(count_by(recs, Key::Service), 15)));
    push_field(&mut o, "loggers", pack(&first_counts(only_named(count_by(recs, Key::Logger)), 10)));
    push_field(&mut o, "error_warn_total", size_value(total));
    push_field(&mut o, "patterns", pack_clusters(recs, &groups));
    assert(fields(o@) =~= summary_value(records(recs@))->Object_0);
    object(o)
}

fn print_loggers(recs: &[Record]) -> (r: Vec<String>)
    ensures
        texts(r@) == logger_lines(records(recs@)),
{
    let mut out: Vec<String> = Vec::new();
    assert(texts(out@) =~= Seq::<Seq<char>>::empty());
    let any = only_named(count_by(recs, Key::Logger));
    assert(counts(any@).len() == any@.len());
    if any.len() > 0 {
        push_text(&mut out, owned("\ntop loggers:"));
        append_texts(&mut out, print_counts(&only_named(first_counts(count_by(recs, Key::Logger), 10))));
        assert(texts(out@) =~= logger_lines(records(recs@)));
    }
    out
}

fn print_patterns(recs: &[Record], full: bool) -> (r: Vec<String>)
    ensures
        texts(r@) == pattern_lines(records(recs@), full),
{
    let scrubber = Scrubber::new();
    let (total, groups) = cluster_errors(recs);
    let mut out: Vec<String> = Vec::new();
    assert(texts(out@) =~= Seq::<Seq<char>>::empty());
    if total > 0 {
        let mut s = owned("\ntop error/warn patterns (");
        s.append(size_to_text(total).as_str());
        s.append(" total):");
        push_text(&mut out, s);
        append_texts(&mut out, print_clusters(recs, &groups, &scrubber, full));
        assert(texts(out@) =~= pattern_lines(records(recs@), full));
    }
    out
}

fn print_summary(recs: &[Record], full: bool) -> (r: Vec<String>)
    ensures
        texts(r@) == summary_lines(records(recs@), full),
{
    let ghost all = records(recs@);
    let mut out: Vec<String> = Vec::new();
    assert(texts(out@) =~= Seq::<Seq<char>>::empty());
    if recs.len() == 0 {
        push_text(&mut out, owned("empty"));
        return out;
    }
    let mut s = owned("records: ");
    s.append(size_to_text(recs.len()).as_str());
    push_text(&mut out, s);
    if let Some((a, b)) = find_range(recs) {
        let mut s = owned("range:   ");
        s.append(short_ts(a.as_str()).as_str());
        s.append("  ->  ");
        s.append(short_ts(b.as_str()).as_str());
        push_text(&mut out, s);
    }
    assert(texts(out@) =~= seq!["records: "@ + decimal(all.len())] + range_lines(all));
    let ghost a = texts(out@);
    push_text(&mut out, owned("\nlevels:"));
    assert(texts(out@) =~= a + seq!["\nlevels:"@]);
    append_texts(&mut out, print_counts(&count_by(recs, Key::Level)));
    let ghost b = texts(out@);
    push_text(&mut out, owned("\nservices:"));
    assert(texts(out@) =~= b + seq!["\nservices:"@]);
    append_texts(&mut out, print_counts(&first_counts(count_by(recs, Key::Service), 15)));
    append_texts(&mut out, print_loggers(recs));
    append_texts(&mut out, print_patterns(recs, full));
    out
}

/// Summarizes records.
pub fn summary(recs: &[Record], json_out: bool, full: bool) -> (r: Output)
    ensures
        r@ == summary_output(records(recs@), json_out, full),
{
    if json_out {
        Output::Value(summarize(recs))
    } else {
        Output::Lines(print_summary(recs, full))
    }
}

} // verus!
