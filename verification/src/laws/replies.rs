//! Laws of what is read in exports and replies, and of the reports on it.

use super::groups::{ordering_loses_nothing, sorting_keeps_every_text};
use super::texts::{a_whole_holds_its_middle, holding_is_handed_on, joined_text_holds_its_parts};
use crate::cli::FilterView;
use crate::json::{first_field_counts, json_printed, json_read, json_strings, member, member2, str_at, str_of, JsonView};
use crate::live::reply::{
    all_series_lines, count_note, iso_text, label_text, labels_report, labels_text, live_report, metric_report,
    metric_value, newest_first, reply_names, reply_records, result_type, row_record, rows_points, rows_records,
    series_lines, series_of, series_value, streams_records, values_report, RawPointView, SeriesLine,
};
use crate::live::window::{millis_past, second_of};
use crate::number::{decimal, int_text, int_text_reads_back, three_wide};
use crate::offline::{entry_record, export_records, file_report, is_newest, loaded, lookups, LookupView};
use crate::order::{
    orders_are_strict_weak, reverse_text_order, sorted_texts, stable_order, stable_order_is_permutation,
    stable_order_is_sorted, text_before,
};
use crate::record::{line_fields, record_of, RecordView};
use crate::text::{begins, ends, holds, joined, lowercase};
use crate::views::{keeps, possible_output, rendered, OutputView};
use vstd::prelude::*;

verus! {

/// Every row of a stream becomes a record, in its order: from the labels of the stream, the time
/// that the row begins with, and its line.
pub proof fn every_row_becomes_a_record(
    labels: Seq<(Seq<char>, JsonView)>,
    rows: Seq<JsonView>,
    times: Seq<i64>,
    lines: Seq<Seq<char>>,
)
    requires
        times.len() == rows.len(),
        lines.len() == rows.len(),
        forall|k: int|
            0 <= k < rows.len() ==> #[trigger] rows[k] == JsonView::Array(
                seq![JsonView::Str(int_text(times[k] as int)), JsonView::Str(lines[k])],
            ),
    ensures
        rows_records(labels, rows).len() == rows.len(),
        forall|k: int|
            0 <= k < rows.len() ==> #[trigger] rows_records(labels, rows)[k] == record_of(
                lines[k],
                iso_text(times[k]),
                labels,
                line_fields(lines[k]),
            ),
    decreases rows.len(),
{
    if rows.len() > 0 {
        let front = rows.drop_last();
        let last = rows.len() - 1;
        assert forall|k: int| 0 <= k < front.len() implies #[trigger] front[k] == JsonView::Array(
            seq![
                JsonView::Str(int_text(times.drop_last()[k] as int)),
                JsonView::Str(lines.drop_last()[k]),
            ],
        ) by {
            assert(front[k] == rows[k]);
        }
        every_row_becomes_a_record(labels, front, times.drop_last(), lines.drop_last());
        let a = seq![JsonView::Str(int_text(times[last] as int)), JsonView::Str(lines[last])];
        assert(rows[last] == JsonView::Array(a));
        int_text_reads_back(times[last]);
        assert(row_record(labels, a) == record_of(
            lines[last],
            iso_text(times[last]),
            labels,
            line_fields(lines[last]),
        ));
    }
}

/// The time of a row is shown to the millisecond: the second that it lies in, and the
/// milliseconds past it.
pub proof fn the_time_of_a_row_is_shown_to_the_millisecond(ns: i64)
    requires
        ns >= 0,
    ensures
        second_of(ns) as int == (ns as int / 1_000_000_000) * 1000,
        0 <= millis_past(ns) < 1000,
        second_of(ns) + millis_past(ns) == ns as int / 1_000_000,
{
}

/// The records of streams are those of the first ones, and then those of the others.
pub proof fn streams_follow_one_another(a: Seq<JsonView>, b: Seq<JsonView>)
    ensures
        streams_records(a + b) == streams_records(a) + streams_records(b),
    decreases b.len(),
{
    if b.len() == 0 {
        assert(a + b =~= a);
        assert(streams_records(a) + streams_records(b) =~= streams_records(a));
    } else {
        streams_follow_one_another(a, b.drop_last());
        assert((a + b).drop_last() =~= a + b.drop_last());
        assert((a + b).last() == b.last());
        assert(streams_records(a + b) =~= streams_records(a) + streams_records(b));
    }
}

/// The records of a stream have the labels of that stream.
pub proof fn a_stream_gives_its_rows_its_labels(
    stream: JsonView,
    labels: Seq<(Seq<char>, JsonView)>,
    rows: Seq<JsonView>,
)
    requires
        member(stream, "stream"@) == Some(JsonView::Object(labels)),
        member(stream, "values"@) == Some(JsonView::Array(rows)),
    ensures
        streams_records(seq![stream]) == rows_records(labels, rows),
{
    assert(seq![stream].drop_last() =~= Seq::<JsonView>::empty());
    assert(streams_records(Seq::<JsonView>::empty()) =~= Seq::<RecordView>::empty());
    assert(seq![stream].last() == stream);
    assert(streams_records(seq![stream]) =~= rows_records(labels, rows));
}

/// The records of a reply are those of the streams in its result.
pub proof fn a_reply_has_the_records_of_its_streams(data: JsonView, streams: Seq<JsonView>)
    requires
        member2(data, "data"@, "result"@) == Some(JsonView::Array(streams)),
    ensures
        reply_records(data) == streams_records(streams),
{
}

/// Putting the newest first loses no record and adds none, and records of one time stay in the
/// order in which they came.
pub proof fn putting_the_newest_first_loses_nothing(recs: Seq<RecordView>)
    ensures
        newest_first(recs).to_multiset() == recs.to_multiset(),
        (forall|i: int, j: int| 0 <= i < j < recs.len() ==> (#[trigger] recs[i]).ts == (#[trigger] recs[j]).ts)
            ==> newest_first(recs) == recs,
{
    let times = recs.map_values(|r: RecordView| r.ts);
    let before = reverse_text_order(times);
    let f = |k: int| recs[k];
    ordering_loses_nothing(recs.len(), before, f);
    assert(Seq::new(recs.len(), f) =~= recs);
    if forall|i: int, j: int| 0 <= i < j < recs.len() ==> (#[trigger] recs[i]).ts == (#[trigger] recs[j]).ts {
        orders_are_strict_weak(times, Seq::empty());
        stable_order_is_permutation(recs.len(), before);
        stable_order_is_sorted(recs.len(), before);
        let order = stable_order(recs.len(), before);
        assert forall|i: int, j: int| 0 <= i < j < order.len() implies #[trigger] order[i] < #[trigger] order[j] by {
            assert(times[order[i]] == recs[order[i]].ts && times[order[j]] == recs[order[j]].ts);
            crate::order::text_before_irreflexive(recs[order[i]].ts);
            if order[i] != order[j] {
                assert(recs[order[i]].ts == recs[order[j]].ts) by {
                    if order[i] < order[j] {
                        assert(recs[order[i]].ts == recs[order[j]].ts);
                    } else {
                        assert(recs[order[j]].ts == recs[order[i]].ts);
                    }
                }
            }
        }
        lemma_ascending_is_all(order, recs.len() as int);
        assert(newest_first(recs) =~= recs);
    }
}

proof fn lemma_ascending_is_all(order: Seq<int>, n: int)
    requires
        order.len() == n,
        forall|i: int| 0 <= i < n ==> 0 <= #[trigger] order[i] < n,
        forall|i: int, j: int| 0 <= i < j < n ==> #[trigger] order[i] < #[trigger] order[j],
    ensures
        forall|i: int| 0 <= i < n ==> #[trigger] order[i] == i,
{
    assert forall|i: int| 0 <= i < n implies #[trigger] order[i] == i by {
        lemma_ascending_below(order, n, i);
        lemma_ascending_above(order, n, i);
    }
}

proof fn lemma_ascending_below(order: Seq<int>, n: int, i: int)
    requires
        order.len() == n,
        0 <= i < n,
        forall|i: int| 0 <= i < n ==> 0 <= #[trigger] order[i] < n,
        forall|i: int, j: int| 0 <= i < j < n ==> #[trigger] order[i] < #[trigger] order[j],
    ensures
        order[i] >= i,
    decreases i,
{
    if i > 0 {
        lemma_ascending_below(order, n, i - 1);
        assert(order[i - 1] < order[i]);
    }
}

proof fn lemma_ascending_above(order: Seq<int>, n: int, i: int)
    requires
        order.len() == n,
        0 <= i < n,
        forall|i: int| 0 <= i < n ==> 0 <= #[trigger] order[i] < n,
        forall|i: int, j: int| 0 <= i < j < n ==> #[trigger] order[i] < #[trigger] order[j],
    ensures
        order[i] <= i,
    decreases n - i,
{
    if i < n - 1 {
        lemma_ascending_above(order, n, i + 1);
        assert(order[i] < order[i + 1]);
    }
}

/// The filter that asks for nothing.
pub open spec fn no_filter() -> FilterView {
    FilterView { service: None, logger: None, matching: None, after: None, before: None }
}

/// A filter on one thing looks at that thing alone: at the service or the logger or the message
/// and the stack in any case, or at the time, whose bounds count as inside.
pub proof fn a_filter_looks_at_what_it_names(w: Seq<char>, r: RecordView)
    ensures
        keeps(no_filter(), r),
        keeps(FilterView { service: Some(w), ..no_filter() }, r) == holds(lowercase(r.service), lowercase(w)),
        keeps(FilterView { logger: Some(w), ..no_filter() }, r) == holds(lowercase(r.logger), lowercase(w)),
        keeps(FilterView { matching: Some(w), ..no_filter() }, r) == (holds(lowercase(r.msg), lowercase(w)) || holds(
            lowercase(r.stack),
            lowercase(w),
        )),
        keeps(FilterView { after: Some(w), ..no_filter() }, r) == (r.ts.len() > 0 && !text_before(r.ts, w)),
        keeps(FilterView { before: Some(w), ..no_filter() }, r) == (r.ts.len() > 0 && (!text_before(w, r.ts) || begins(
            r.ts,
            w,
        ))),
{
}

/// A filter keeps what each of the things that it names keeps.
pub proof fn a_filter_asks_for_everything_at_once(f: FilterView, r: RecordView)
    ensures
        keeps(f, r) == (keeps(FilterView { service: f.service, ..no_filter() }, r) && keeps(
            FilterView { logger: f.logger, ..no_filter() },
            r,
        ) && keeps(FilterView { matching: f.matching, ..no_filter() }, r) && keeps(
            FilterView { after: f.after, ..no_filter() },
            r,
        ) && keeps(FilterView { before: f.before, ..no_filter() }, r)),
{
}

/// A report on an export shows the records that its filter keeps: it is the report without a
/// filter on those alone.
pub proof fn a_report_shows_what_its_filter_keeps(
    recs: Seq<RecordView>,
    name: Seq<char>,
    filter: FilterView,
    view: crate::cli::View,
    json_out: bool,
    full: bool,
)
    ensures
        ({
            let kept = recs.filter(|r: RecordView| keeps(filter, r));
            &&& file_report(recs, name, filter, view, json_out, full).output == possible_output(
                kept,
                view,
                json_out,
                full,
            )
            &&& file_report(recs, name, filter, view, json_out, full).output == file_report(
                kept,
                name,
                no_filter(),
                view,
                json_out,
                full,
            ).output
        }),
{
    let kept = recs.filter(|r: RecordView| keeps(filter, r));
    lemma_filter_all(kept, |r: RecordView| keeps(no_filter(), r));
}

proof fn lemma_filter_all(recs: Seq<RecordView>, f: spec_fn(RecordView) -> bool)
    requires
        forall|r: RecordView| #[trigger] f(r),
    ensures
        recs.filter(f) == recs,
    decreases recs.len(),
{
    reveal(Seq::filter);
    if recs.len() > 0 {
        lemma_filter_all(recs.drop_last(), f);
        assert(f(recs.last()));
        assert(recs.drop_last().push(recs.last()) =~= recs);
    } else {
        assert(recs.filter(f) =~= recs);
    }
}

/// A report on a reply shows what a report on an export of its records would show, the newest
/// first.
pub proof fn a_reply_is_shown_like_an_export(
    data: JsonView,
    name: Seq<char>,
    query: Seq<char>,
    label: Seq<char>,
    filter: FilterView,
    view: crate::cli::View,
    json_out: bool,
    full: bool,
)
    ensures
        live_report(data, name, query, label, filter, view, json_out, full).output == file_report(
            newest_first(reply_records(data)),
            name,
            filter,
            view,
            json_out,
            full,
        ).output,
{
}

/// A count says how many there are, and how many of how many where a filter left some out.
pub proof fn a_count_says_how_many(kept: nat, total: nat, what: Seq<char>)
    ensures
        kept == total ==> holds(count_note(kept, total, what), "("@ + decimal(total) + " "@ + what),
        kept != total ==> holds(
            count_note(kept, total, what),
            "("@ + decimal(kept) + " of "@ + decimal(total) + " "@ + what,
        ),
{
    reveal_strlit("  (");
    reveal_strlit("(");
    let space = "  ("@.take(2);
    assert("  ("@ =~= space + "("@);
    let n = count_note(kept, total, what);
    if kept == total {
        let mid = "("@ + decimal(total) + " "@ + what;
        a_whole_holds_its_middle(space, mid, ")\n"@);
        assert(n =~= space + mid + ")\n"@);
    } else {
        let mid = "("@ + decimal(kept) + " of "@ + decimal(total) + " "@ + what;
        a_whole_holds_its_middle(space, mid, " after filter)\n"@);
        assert(n =~= space + mid + " after filter)\n"@);
    }
}

/// The headers of reports begin with what is reported on and end with the count of what is shown.
pub proof fn headers_say_what_is_reported_on(
    recs: Seq<RecordView>,
    data: JsonView,
    name: Seq<char>,
    query: Seq<char>,
    label: Seq<char>,
    filter: FilterView,
    view: crate::cli::View,
    json_out: bool,
    full: bool,
)
    ensures
        ({
            let kept = recs.filter(|r: RecordView| keeps(filter, r));
            file_report(recs, name, filter, view, json_out, full).header == "# "@ + name + count_note(
                kept.len(),
                recs.len(),
                "records"@,
            )
        }),
        ({
            let all = newest_first(reply_records(data));
            let kept = all.filter(|r: RecordView| keeps(filter, r));
            let header = live_report(data, name, query, label, filter, view, json_out, full).header;
            &&& begins(header, "# loki["@ + name + "] q='"@ + query + "' window="@ + label)
            &&& ends(header, count_note(kept.len(), all.len(), "lines"@))
        }),
{
    let all = newest_first(reply_records(data));
    let kept = all.filter(|r: RecordView| keeps(filter, r));
    let front = "# loki["@ + name + "] q='"@ + query + "' window="@ + label;
    let note = count_note(kept.len(), all.len(), "lines"@);
    a_whole_holds_its_middle(front, Seq::<char>::empty(), note);
    assert(front + Seq::<char>::empty() =~= front);
}

/// The entries of an export become its records, one by one: those of a list, or of the list under
/// `data`, or of the one under `logs` where there is nothing under `data`.
pub proof fn every_entry_of_an_export_becomes_a_record(data: JsonView, a: Seq<JsonView>)
    requires
        data == JsonView::Array(a) || member(data, "data"@) == Some(JsonView::Array(a)) || (member(data, "data"@) is None
            && member(data, "logs"@) == Some(JsonView::Array(a))),
    ensures
        export_records(data).len() == a.len(),
        forall|k: int| 0 <= k < a.len() ==> #[trigger] export_records(data)[k] == entry_record(a[k]),
{
}

/// The record of an entry is made of its line, its date and its fields.
pub proof fn an_entry_becomes_the_record_of_its_line(
    v: JsonView,
    line: Seq<char>,
    date: Seq<char>,
    labels: Seq<(Seq<char>, JsonView)>,
)
    requires
        str_at(v, "line"@) == Some(line),
        str_at(v, "date"@) == Some(date),
        member(v, "fields"@) == Some(JsonView::Object(labels)),
    ensures
        entry_record(v) == record_of(line, date, labels, line_fields(line)),
{
}

/// An export is looked for in the file that is named before anywhere else, then by its name as a
/// pattern if it is one, then among the downloads, and the newest export comes last.
pub proof fn an_export_is_looked_for_where_it_is_named_first(arg: Seq<char>)
    ensures
        lookups(Some(arg)).len() >= 3,
        lookups(Some(arg))[0] == LookupView::File(arg),
        lookups(Some(arg)).last() == LookupView::Exports,
        lookups(Some(arg))[lookups(Some(arg)).len() - 2] == LookupView::Download(arg),
        lookups(Some(arg)).contains(LookupView::Glob(arg)) <==> arg.contains('*') || arg.contains('?'),
        lookups(None) == seq![LookupView::Exports],
{
    let v = lookups(Some(arg));
    if arg.contains('*') || arg.contains('?') {
        assert(v[1] == LookupView::Glob(arg));
    } else {
        assert(v =~= seq![LookupView::File(arg), LookupView::Download(arg), LookupView::Exports]);
    }
}

/// The labels of a series are all shown, each with its value.
pub proof fn every_label_of_a_series_is_shown(metric: Seq<(Seq<char>, JsonView)>, k: int)
    requires
        0 <= k < metric.len(),
    ensures
        holds(labels_text(metric), label_text(metric[k])),
        str_of(Some(metric[k].1)) matches Some(v) ==> label_text(metric[k]) == metric[k].0 + "=\""@ + v + "\""@,
{
    let v = metric.map_values(|f: (Seq<char>, JsonView)| label_text(f));
    let s = sorted_texts(v);
    sorting_keeps_every_text(v);
    v.to_multiset_ensures();
    s.to_multiset_ensures();
    assert(v[k] == label_text(metric[k]));
    assert(v.contains(v[k]));
    assert(s.to_multiset().count(v[k]) > 0);
    assert(s.contains(v[k]));
    let i = choose|i: int| 0 <= i < s.len() && s[i] == v[k];
    joined_text_holds_its_parts(s, ", "@, i);
    a_whole_holds_its_middle("{"@, joined(s, ", "@), "}"@);
    holding_is_handed_on(labels_text(metric), joined(s, ", "@), v[k]);
}

/// Every row of a series becomes a point, in its order: its time, and then its value.
pub proof fn every_row_becomes_a_point(rows: Seq<JsonView>, times: Seq<Seq<char>>, values: Seq<Seq<char>>)
    requires
        times.len() == rows.len(),
        values.len() == rows.len(),
        forall|k: int|
            0 <= k < rows.len() ==> #[trigger] rows[k] == JsonView::Array(
                seq![JsonView::Str(times[k]), JsonView::Str(values[k])],
            ),
    ensures
        rows_points(rows).len() == rows.len(),
        forall|k: int|
            0 <= k < rows.len() ==> #[trigger] rows_points(rows)[k] == (RawPointView {
                time: Some(times[k]),
                value: Some(values[k]),
            }),
    decreases rows.len(),
{
    if rows.len() > 0 {
        let front = rows.drop_last();
        let last = rows.len() - 1;
        assert forall|k: int| 0 <= k < front.len() implies #[trigger] front[k] == JsonView::Array(
            seq![JsonView::Str(times.drop_last()[k]), JsonView::Str(values.drop_last()[k])],
        ) by {
            assert(front[k] == rows[k]);
        }
        every_row_becomes_a_point(front, times.drop_last(), values.drop_last());
        assert(rows[last] == JsonView::Array(seq![JsonView::Str(times[last]), JsonView::Str(values[last])]));
    }
}

/// A series has the points of its values, or of its one value where it has no others, and its own
/// labels.
pub proof fn a_series_has_the_points_of_its_values(s: JsonView, metric: Seq<(Seq<char>, JsonView)>)
    requires
        member(s, "metric"@) == Some(JsonView::Object(metric)),
    ensures
        series_of(s).metric == JsonView::Object(metric),
        series_of(s).labels == labels_text(metric),
        member(s, "values"@) matches Some(JsonView::Array(rows)) ==> rows.len() > 0 ==> series_of(s).points
            == rows_points(rows),
        member(s, "values"@) is None ==> (member(s, "value"@) matches Some(v) ==> series_of(s).points == rows_points(
            seq![v],
        )),
{
}

/// In the JSON of a series of a metric every figure stands under its own name.
pub proof fn every_figure_of_a_metric_stands_under_its_name(
    metric: JsonView,
    points: JsonView,
    sum: JsonView,
    last: JsonView,
    max: JsonView,
    min: JsonView,
)
    ensures
        member(series_value(metric, points, sum, last, max, min), "labels"@) == Some(metric),
        member(series_value(metric, points, sum, last, max, min), "points"@) == Some(points),
        member(series_value(metric, points, sum, last, max, min), "sum"@) == Some(sum),
        member(series_value(metric, points, sum, last, max, min), "last"@) == Some(last),
        member(series_value(metric, points, sum, last, max, min), "max"@) == Some(max),
        member(series_value(metric, points, sum, last, max, min), "min"@) == Some(min),
{
    let o = series_value(metric, points, sum, last, max, min)->Object_0;
    reveal_strlit("labels");
    reveal_strlit("points");
    reveal_strlit("sum");
    reveal_strlit("last");
    reveal_strlit("max");
    reveal_strlit("min");
    assert("labels"@[0] != "points"@[0]);
    assert("sum"@[0] != "max"@[0]);
    assert("sum"@[0] != "min"@[0]);
    assert("max"@[1] != "min"@[1]);
    assert(o[0].0 == "labels"@ && o[1].0 == "points"@ && o[2].0 == "sum"@ && o[3].0 == "last"@ && o[4].0 == "max"@ && o[5].0 == "min"@);
    first_field_counts(o, "labels"@, 0);
    first_field_counts(o, "points"@, 1);
    first_field_counts(o, "sum"@, 2);
    first_field_counts(o, "last"@, 3);
    first_field_counts(o, "max"@, 4);
    first_field_counts(o, "min"@, 5);
}

/// The JSON of a metric has the kind of its result, its step in seconds, and its series.
pub proof fn the_json_of_a_metric_has_its_series(rtype: Seq<char>, step: i64, series: Seq<JsonView>)
    ensures
        str_at(metric_value(rtype, step, series), "resultType"@) == Some(rtype),
        str_at(metric_value(rtype, step, series), "step"@) == Some(int_text(step as int) + "s"@),
        member(metric_value(rtype, step, series), "series"@) == Some(JsonView::Array(series)),
{
    let o = metric_value(rtype, step, series)->Object_0;
    reveal_strlit("resultType");
    reveal_strlit("step");
    reveal_strlit("series");
    assert(o[0].0 == "resultType"@ && o[1].0 == "step"@ && o[2].0 == "series"@);
    first_field_counts(o, "resultType"@, 0);
    first_field_counts(o, "step"@, 1);
    first_field_counts(o, "series"@, 2);
}

/// As text every series of a metric has two lines, in its order: its labels, and its figures under
/// their names.
pub proof fn every_series_of_a_metric_is_printed(v: Seq<SeriesLine>, k: int)
    requires
        0 <= k < v.len(),
    ensures
        all_series_lines(v).len() == 2 * v.len(),
        all_series_lines(v)[2 * k] == v[k].labels@,
        all_series_lines(v)[2 * k + 1] == "  pts="@ + decimal(v[k].points as nat) + " sum="@ + v[k].sum@ + " last="@
            + v[k].last@ + " max="@ + v[k].max@,
    decreases v.len(),
{
    let front = v.drop_last();
    let before = all_series_lines(front);
    lemma_series_lines(front);
    if k < front.len() {
        every_series_of_a_metric_is_printed(front, k);
        assert(front[k] == v[k]);
        assert(all_series_lines(v)[2 * k] == before[2 * k]);
        assert(all_series_lines(v)[2 * k + 1] == before[2 * k + 1]);
    } else {
        assert(all_series_lines(v)[2 * k] == series_lines(v[k])[0]);
        assert(all_series_lines(v)[2 * k + 1] == series_lines(v[k])[1]);
    }
}

proof fn lemma_series_lines(v: Seq<SeriesLine>)
    ensures
        all_series_lines(v).len() == 2 * v.len(),
    decreases v.len(),
{
    if v.len() > 0 {
        lemma_series_lines(v.drop_last());
    }
}

/// The report on a metric without series says that there is no data.
pub proof fn a_metric_without_series_has_no_data(
    name: Seq<char>,
    query: Seq<char>,
    label: Seq<char>,
    step: i64,
    series: Seq<SeriesLine>,
)
    ensures
        metric_report(name, query, label, step, series).output == OutputView::Lines(
            if series.len() == 0 {
                seq!["no data"@]
            } else {
                all_series_lines(series)
            },
        ),
        metric_report(name, query, label, step, series).header matches Some(h) && begins(
            h,
            "# loki["@ + name + "] metric q='"@ + query + "' window="@ + label + " step="@ + int_text(step as int) + "s"@,
        ),
{
    reveal_strlit("s  (");
    reveal_strlit("s");
    let front = "# loki["@ + name + "] metric q='"@ + query + "' window="@ + label + " step="@ + int_text(step as int);
    let h = metric_report(name, query, label, step, series).header->0;
    assert("s  ("@ =~= "s"@ + "s  ("@.skip(1));
    lemma_heads(front, "s"@, "s  ("@.skip(1), decimal(series.len()), " series)\n"@);
}

proof fn lemma_heads(a: Seq<char>, b: Seq<char>, c: Seq<char>, d: Seq<char>, e: Seq<char>)
    ensures
        begins(a + (b + c) + d + e, a + b),
{
    let whole = a + (b + c) + d + e;
    assert(whole.subrange(0, (a + b).len() as int) =~= a + b);
}

/// The reports on the names and on the values of labels list what the reply lists, and as JSON
/// under their own names.
pub proof fn labels_and_values_are_listed(
    data: JsonView,
    name: Seq<char>,
    of: Seq<char>,
    label: Seq<char>,
)
    ensures
        labels_report(data, name, label, false).output == OutputView::Lines(reply_names(data)),
        labels_report(data, name, label, true).output matches OutputView::Value(j) && str_at(j, "datasource"@) == Some(
            name,
        ) && member(j, "labels"@) == Some(json_strings(reply_names(data))),
        values_report(data, name, of, label, false).output == OutputView::Lines(reply_names(data)),
        values_report(data, name, of, label, true).output matches OutputView::Value(j) && str_at(j, "datasource"@)
            == Some(name) && str_at(j, "label"@) == Some(of) && member(j, "values"@) == Some(
            json_strings(reply_names(data)),
        ),
{
    let o = (labels_report(data, name, label, true).output->Value_0)->Object_0;
    reveal_strlit("datasource");
    reveal_strlit("labels");
    assert(o[0].0 == "datasource"@ && o[1].0 == "labels"@);
    first_field_counts(o, "datasource"@, 0);
    first_field_counts(o, "labels"@, 1);
    let p = (values_report(data, name, of, label, true).output->Value_0)->Object_0;
    reveal_strlit("datasource");
    reveal_strlit("label");
    reveal_strlit("values");
    assert(p[0].0 == "datasource"@ && p[1].0 == "label"@ && p[2].0 == "values"@);
    first_field_counts(p, "datasource"@, 0);
    first_field_counts(p, "label"@, 1);
    first_field_counts(p, "values"@, 2);
}

/// The names that a reply lists are the texts of its list, in their order.
pub proof fn a_reply_lists_its_names(data: JsonView, names: Seq<Seq<char>>)
    requires
        member(data, "data"@) == Some(JsonView::Array(names.map_values(|s: Seq<char>| JsonView::Str(s)))),
    ensures
        reply_names(data) == names,
{
    lemma_strings(names);
}

proof fn lemma_strings(names: Seq<Seq<char>>)
    ensures
        crate::json::strings_in(names.map_values(|s: Seq<char>| JsonView::Str(s))) == names,
    decreases names.len(),
{
    let a = names.map_values(|s: Seq<char>| JsonView::Str(s));
    if names.len() > 0 {
        lemma_strings(names.drop_last());
        assert(a.drop_last() =~= names.drop_last().map_values(|s: Seq<char>| JsonView::Str(s)));
        assert(a.last() == JsonView::Str(names.last()));
        assert(names.drop_last().push(names.last()) =~= names);
    } else {
        assert(crate::json::strings_in(a) =~= names);
    }
}

/// A text that is JSON gives the records of that export, and one that is not is refused with where
/// it comes from and why.
pub proof fn a_text_gives_the_records_in_it(text: Seq<char>, src: Seq<char>)
    ensures
        json_read(text) matches Ok(data) ==> loaded(text, src) == Ok::<Seq<RecordView>, Seq<char>>(export_records(data)),
        json_read(text) matches Err(why) ==> (loaded(text, src) matches Err(e) && holds(e, src) && ends(e, why)),
{
    if let Err(why) = json_read(text) {
        let e = loaded(text, src)->Err_0;
        let front = "invalid JSON in "@;
        a_whole_holds_its_middle(front, src, ": "@ + why);
        assert(e =~= front + src + (": "@ + why));
        a_whole_holds_its_middle(front + src, ": "@, why);
    }
}

/// The newest file is one, none is newer, and of two that are as new it is the later one.
pub proof fn the_newest_file_is_the_newest(times: Seq<Option<i128>>, at: int, i: int)
    requires
        is_newest(times, at),
        0 <= i < times.len(),
        times[i] is Some,
    ensures
        0 <= at < times.len(),
        times[at] is Some,
        times[i]->0 <= times[at]->0,
        times[i] == times[at] ==> i <= at,
        is_newest(times, i) ==> i == at,
{
}

/// Lines are printed as they are, a value as JSON, and a failure is an error.
pub proof fn what_a_view_gives_is_printed(lines: Seq<Seq<char>>, j: JsonView, e: Seq<char>)
    ensures
        rendered(OutputView::Lines(lines)) == Ok::<Seq<Seq<char>>, Seq<char>>(lines),
        rendered(OutputView::Value(j)) matches Ok(v) && v.len() == 1 && v[0] == json_printed(j),
        rendered(OutputView::Failure(e)) == Err::<Seq<Seq<char>>, Seq<char>>(e),
{
}

/// The kind of a result is what the reply says it is.
pub proof fn a_reply_says_what_kind_it_is(data: JsonView, kind: Seq<char>)
    requires
        member2(data, "data"@, "resultType"@) == Some(JsonView::Str(kind)),
    ensures
        result_type(data) == kind,
{
}

/// An export that is one entry by itself gives one record.
pub proof fn a_single_entry_gives_one_record(o: Seq<(Seq<char>, JsonView)>)
    requires
        member(JsonView::Object(o), "data"@) is None,
        member(JsonView::Object(o), "logs"@) is None,
    ensures
        export_records(JsonView::Object(o)) == seq![entry_record(JsonView::Object(o))],
{
    assert(export_records(JsonView::Object(o)) =~= seq![entry_record(JsonView::Object(o))]);
}

/// A list of texts as JSON has each of them, in their order.
pub proof fn a_list_of_texts_has_each_of_them(v: Seq<Seq<char>>)
    ensures
        json_strings(v) matches JsonView::Array(a) && a.len() == v.len() && forall|k: int|
            0 <= k < v.len() ==> #[trigger] a[k] == JsonView::Str(v[k]),
{
}

/// What is no row is passed over, in a stream and in a series.
pub proof fn what_is_no_row_is_passed_over(labels: Seq<(Seq<char>, JsonView)>, rows: Seq<JsonView>, other: JsonView)
    requires
        !(other is Array),
    ensures
        rows_records(labels, rows.push(other)) == rows_records(labels, rows),
        rows_points(rows.push(other)) == rows_points(rows),
{
    assert(rows.push(other).drop_last() =~= rows);
}

/// The headers over the series of a metric and over labels and their values end with how many
/// there are.
pub proof fn headers_end_with_how_many_there_are(
    data: JsonView,
    name: Seq<char>,
    query: Seq<char>,
    of: Seq<char>,
    label: Seq<char>,
    step: i64,
    series: Seq<SeriesLine>,
)
    ensures
        metric_report(name, query, label, step, series).header matches Some(h) && ends(
            h,
            decimal(series.len()) + " series)\n"@,
        ),
        labels_report(data, name, label, false).header matches Some(h) && begins(h, "# loki["@ + name) && ends(
            h,
            decimal(reply_names(data).len()) + " labels)\n"@,
        ),
        values_report(data, name, of, label, false).header matches Some(h) && begins(h, "# loki["@ + name) && holds(
            h,
            "values of '"@ + of + "'"@,
        ) && ends(h, decimal(reply_names(data).len()) + " values)\n"@),
{
    let n = decimal(series.len());
    let h = metric_report(name, query, label, step, series).header->0;
    let front = "# loki["@ + name + "] metric q='"@ + query + "' window="@ + label + " step="@ + int_text(step as int)
        + "s  ("@;
    lemma_tail(front, n, " series)\n"@);
    let m = decimal(reply_names(data).len());
    let g = labels_report(data, name, label, false).header->0;
    let lead = "# loki["@ + name;
    lemma_tail(lead + "] labels window="@ + label + "  ("@, m, " labels)\n"@);
    assert(g.subrange(0, lead.len() as int) =~= lead);
    let k = values_report(data, name, of, label, false).header->0;
    lemma_tail(lead + "] values of '"@ + of + "' window="@ + label + "  ("@, m, " values)\n"@);
    assert(k.subrange(0, lead.len() as int) =~= lead);
    reveal_strlit("] values of '");
    reveal_strlit("values of '");
    reveal_strlit("' window=");
    reveal_strlit("'");
    let mid = "values of '"@ + of + "'"@;
    let rest = "' window="@.skip(1) + label + "  ("@ + m + " values)\n"@;
    assert("] values of '"@ =~= "] "@ + "values of '"@) by {
        reveal_strlit("] ");
    }
    assert("' window="@ =~= "'"@ + "' window="@.skip(1));
    a_whole_holds_its_middle(lead + "] "@, mid, rest);
    assert(k =~= lead + "] "@ + mid + rest);
}

proof fn lemma_tail(a: Seq<char>, b: Seq<char>, c: Seq<char>)
    ensures
        ends(a + b + c, b + c),
{
    let s = a + b + c;
    assert(s.subrange(s.len() - (b + c).len(), s.len() as int) =~= b + c);
}

/// A time that was read from a row ends in its milliseconds, three digits wide, and the mark for UTC.
pub proof fn a_row_time_ends_in_milliseconds(ns: i64)
    requires
        ns >= 0,
    ensures
        ends(iso_text(ns), "."@ + three_wide((ns as int / 1_000_000) % 1000) + "Z"@),
{
    assert(millis_past(ns) == (ns as int / 1_000_000) % 1000);
    let second = crate::clock::utc_text(second_of(ns), crate::clock::SECOND_FORM@)->0;
    let ms = three_wide(millis_past(ns));
    lemma_tail(second, "."@ + ms, "Z"@);
    assert(iso_text(ns) =~= second + ("."@ + ms) + "Z"@);
}

/// A row without a time that can be read is at the epoch, and a row without a line has the empty
/// one.
pub proof fn a_row_without_a_time_is_at_the_epoch(labels: Seq<(Seq<char>, JsonView)>, a: Seq<JsonView>)
    requires
        a.len() == 0,
    ensures
        row_record(labels, a) == record_of(""@, iso_text(0), labels, line_fields(""@)),
{
}

} // verus!
