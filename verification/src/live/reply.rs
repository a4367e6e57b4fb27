//! Replies: the records, series and names that Loki sends back.

use super::window::{iso_from_ns, millis_past, second_of};
use crate::cli::Filter;
use crate::clock::{utc_text, SECOND_FORM};
use crate::json::{
    array, as_fields, as_items, as_str, fields, fields_of, items, items_of, json_strings, lemma_array, member,
    member2, object, opt_json, push_field, push_item, str_items, str_of, str_value, strings_in, strings_of, Json,
    JsonView,
};
use crate::number::{decimal, int_text, int_to_text, int_value, parse_int, size_to_text, three_wide};
use crate::order::{
    ints, order_by_text, orders_are_strict_weak, reverse_text_order, sort_texts, sorted_texts, stable_order,
    stable_order_is_permutation, stable_order_is_sorted, text_before,
};
use crate::record::{line_fields, normalize, push_record, record_of, records, Record, RecordView};
use crate::text::{join, joined, opt_text, owned, push_text, texts};
use crate::views::{apply_filter, keeps, opt_output, possible_output, try_dispatch, Output, OutputView};
use vstd::prelude::*;

verus! {

/// An item of a list, where it is there.
pub open spec fn item_at(a: Seq<JsonView>, k: int) -> Option<JsonView> {
    if 0 <= k < a.len() {
        Some(a[k])
    } else {
        None
    }
}

fn nth<'a>(a: &'a Vec<Json>, k: usize) -> (r: Option<&'a Json>)
    ensures
        opt_json(r) == item_at(items(a@), k as int),
{
    if k < a.len() {
        assert(items(a@)[k as int] == a@[k as int]@);
        Some(&a[k])
    } else {
        None
    }
}

/// The items of a list, or none.
pub open spec fn list_of(j: Option<JsonView>) -> Seq<JsonView> {
    match items_of(j) {
        Some(a) => a,
        None => Seq::<JsonView>::empty(),
    }
}

/// The fields of an object, or none.
pub open spec fn map_of(j: Option<JsonView>) -> Seq<(Seq<char>, JsonView)> {
    match fields_of(j) {
        Some(o) => o,
        None => Seq::<(Seq<char>, JsonView)>::empty(),
    }
}

/// A number of nanoseconds as a timestamp.
pub open spec fn iso_text(ts_ns: i64) -> Seq<char> {
    utc_text(second_of(ts_ns), SECOND_FORM@)->0 + "."@ + three_wide(millis_past(ts_ns)) + "Z"@
}

/// The nanoseconds that a row begins with, or zero.
pub open spec fn row_time(a: Seq<JsonView>) -> i64 {
    match str_of(item_at(a, 0)) {
        Some(s) => match int_value(s) {
            Some(n) => n,
            None => 0,
        },
        None => 0,
    }
}

/// The line of a row, or the empty one.
pub open spec fn row_line(a: Seq<JsonView>) -> Seq<char> {
    match str_of(item_at(a, 1)) {
        Some(s) => s,
        None => ""@,
    }
}

/// The record of a row of a stream: its time, then its line.
pub open spec fn row_record(labels: Seq<(Seq<char>, JsonView)>, a: Seq<JsonView>) -> RecordView {
    record_of(row_line(a), iso_text(row_time(a)), labels, line_fields(row_line(a)))
}

/// The records of the rows of a stream; what is no list is passed over.
pub open spec fn rows_records(labels: Seq<(Seq<char>, JsonView)>, rows: Seq<JsonView>) -> Seq<RecordView>
    decreases rows.len(),
{
    if rows.len() == 0 {
        Seq::<RecordView>::empty()
    } else {
        match rows.last() {
            JsonView::Array(a) => rows_records(labels, rows.drop_last()).push(row_record(labels, a)),
            _ => rows_records(labels, rows.drop_last()),
        }
    }
}

/// The records of streams.
pub open spec fn streams_records(streams: Seq<JsonView>) -> Seq<RecordView>
    decreases streams.len(),
{
    if streams.len() == 0 {
        Seq::<RecordView>::empty()
    } else {
        streams_records(streams.drop_last()) + rows_records(
            map_of(member(streams.last(), "stream"@)),
            list_of(member(streams.last(), "values"@)),
        )
    }
}

/// The records of a reply.
pub open spec fn reply_records(data: JsonView) -> Seq<RecordView> {
    streams_records(list_of(member2(data, "data"@, "result"@)))
}

fn read_row(labels: &Vec<(String, Json)>, a: &Vec<Json>) -> (r: Record)
    ensures
        r@ == row_record(fields(labels@), items(a@)),
{
    let ns: i64 = match as_str(nth(a, 0)) {
        Some(s) => match parse_int(s.as_str()) {
            Some(n) => n,
            None => 0,
        },
        None => 0,
    };
    let line = match as_str(nth(a, 1)) {
        Some(s) => s,
        None => owned(""),
    };
    normalize(line.as_str(), iso_from_ns(ns).as_str(), labels)
}

fn read_rows(labels: &Vec<(String, Json)>, rows: &Vec<Json>, out: &mut Vec<Record>)
    ensures
        records(final(out)@) == records(old(out)@) + rows_records(fields(labels@), items(rows@)),
{
    let ghost all = items(rows@);
    let ghost was = records(out@);
    assert(was =~= was + rows_records(fields(labels@), all.take(0)));
    for i in 0..rows.len()
        invariant
            all == items(rows@),
            records(out@) == was + rows_records(fields(labels@), all.take(i as int)),
    {
        let ghost so_far = rows_records(fields(labels@), all.take(i as int));
        assert(all.take(i as int + 1).drop_last() =~= all.take(i as int));
        assert(all.take(i as int + 1).last() == rows@[i as int]@);
        if let Json::Array(a) = &rows[i] {
            proof {
                lemma_array(*a);
            }
            let r = read_row(labels, a);
            assert(was + so_far.push(r@) =~= (was + so_far).push(r@));
            push_record(out, r);
        }
    }
    assert(all.take(rows@.len() as int) =~= all);
}

/// Reads the records of a reply.
pub fn read_records(data: &Json) -> (r: Vec<Record>)
    ensures
        records(r@) == reply_records(data@),
{
    let none: Vec<(String, Json)> = Vec::new();
    assert(fields(none@) =~= Seq::<(Seq<char>, JsonView)>::empty());
    let mut out: Vec<Record> = Vec::new();
    assert(records(out@) =~= Seq::<RecordView>::empty());
    let streams = match as_items(data.get2("data", "result")) {
        Some(s) => s,
        None => {
            return out;
        },
    };
    let ghost all = items(streams@);
    assert(records(out@) =~= streams_records(all.take(0)));
    for i in 0..streams.len()
        invariant
            all == items(streams@),
            fields(none@) == Seq::<(Seq<char>, JsonView)>::empty(),
            records(out@) == streams_records(all.take(i as int)),
    {
        assert(all.take(i as int + 1).drop_last() =~= all.take(i as int));
        assert(all.take(i as int + 1).last() == streams@[i as int]@);
        let stream = &streams[i];
        let labels = match as_fields(stream.get("stream")) {
            Some(l) => l,
            None => &none,
        };
        match as_items(stream.get("values")) {
            Some(rows) => {
                read_rows(labels, rows, &mut out);
            },
            None => {
                assert(records(out@) =~= records(out@) + rows_records(
                    fields(labels@),
                    Seq::<JsonView>::empty(),
                ));
            },
        }
    }
    assert(all.take(streams@.len() as int) =~= all);
    out
}

/// Records with the newest first, those of one time in the order in which they came.
pub open spec fn newest_first(recs: Seq<RecordView>) -> Seq<RecordView> {
    stable_order(recs.len(), reverse_text_order(recs.map_values(|r: RecordView| r.ts))).map_values(
        |k: int| recs[k],
    )
}

/// Sorts records by time, the newest first.
pub fn sort_newest(recs: &Vec<Record>) -> (r: Vec<Record>)
    ensures
        records(r@) == newest_first(records(recs@)),
{
    let ghost all = records(recs@);
    let ghost wanted = all.map_values(|r: RecordView| r.ts);
    let mut times: Vec<String> = Vec::new();
    for i in 0..recs.len()
        invariant
            all == records(recs@),
            wanted == all.map_values(|r: RecordView| r.ts),
            texts(times@) == wanted.take(i as int),
            times@.len() == i,
    {
        let ghost so_far = texts(times@);
        push_text(&mut times, owned(recs[i].ts.as_str()));
        assert(wanted.take(i as int + 1) =~= so_far.push(wanted[i as int]));
    }
    assert(wanted.take(recs@.len() as int) =~= wanted);
    let order = order_by_text(&times, true);
    let ghost whole = newest_first(all);
    assert(ints(order@).len() == order@.len());
    let mut out: Vec<Record> = Vec::new();
    for i in 0..order.len()
        invariant
            all == records(recs@),
            whole == ints(order@).map_values(|k: int| all[k]),
            forall|k: int| 0 <= k < order@.len() ==> order@[k] < recs@.len(),
            records(out@) == whole.take(i as int),
    {
        let ghost so_far = records(out@);
        assert(ints(order@)[i as int] == order@[i as int]);
        push_record(&mut out, recs[order[i]].copy());
        assert(whole.take(i as int + 1) =~= so_far.push(whole[i as int]));
    }
    assert(whole.take(order@.len() as int) =~= whole);
    out
}

/// No record stands before one that is newer, and none is lost.
pub proof fn newest_come_first(recs: Seq<RecordView>)
    ensures
        newest_first(recs).len() == recs.len(),
        forall|i: int, j: int|
            0 <= i < j < recs.len() ==> !text_before(
                (#[trigger] newest_first(recs)[i]).ts,
                (#[trigger] newest_first(recs)[j]).ts,
            ),
{
    let times = recs.map_values(|r: RecordView| r.ts);
    let before = reverse_text_order(times);
    orders_are_strict_weak(times, Seq::empty());
    stable_order_is_permutation(recs.len(), before);
    stable_order_is_sorted(recs.len(), before);
    let order = stable_order(recs.len(), before);
    assert forall|i: int, j: int| 0 <= i < j < recs.len() implies !text_before(
        (#[trigger] newest_first(recs)[i]).ts,
        (#[trigger] newest_first(recs)[j]).ts,
    ) by {
        assert(0 <= order[i] < recs.len() && 0 <= order[j] < recs.len());
        assert(times[order[i]] == recs[order[i]].ts && times[order[j]] == recs[order[j]].ts);
        if before(order[j], order[i]) {
            assert(before(order[i], order[j]));
            assert(before(order[j], order[j]));
        }
    }
}

/// How many of how many there are, in what is counted.
pub open spec fn count_note(kept: nat, total: nat, what: Seq<char>) -> Seq<char> {
    if kept == total {
        "  ("@ + decimal(total) + " "@ + what + ")\n"@
    } else {
        "  ("@ + decimal(kept) + " of "@ + decimal(total) + " "@ + what + " after filter)\n"@
    }
}

/// Says how many of how many there are.
pub fn note_count(kept: usize, total: usize, what: &str) -> (r: String)
    ensures
        r@ == count_note(kept as nat, total as nat, what@),
{
    let mut s = owned("  (");
    if kept == total {
        s.append(size_to_text(total).as_str());
        s.append(" ");
        s.append(what);
        s.append(")\n");
    } else {
        s.append(size_to_text(kept).as_str());
        s.append(" of ");
        s.append(size_to_text(total).as_str());
        s.append(" ");
        s.append(what);
        s.append(" after filter)\n");
    }
    s
}

/// A view with the header that goes to the error stream, where there is one.
pub struct Report {
    pub header: Option<String>,
    pub output: Output,
}

/// The model of a view with its header.
#[verifier::ext_equal]
pub struct ReportView {
    pub header: Option<Seq<char>>,
    pub output: OutputView,
}

impl View for Report {
    type V = ReportView;

    open spec fn view(&self) -> ReportView {
        ReportView { header: opt_text(self.header), output: self.output@ }
    }
}

/// A view of records with its header; the view is missing where it cannot be made.
pub struct RecordReport {
    pub header: String,
    pub output: Option<Output>,
}

/// The model of a view of records with its header.
#[verifier::ext_equal]
pub struct RecordReportView {
    pub header: Seq<char>,
    pub output: Option<OutputView>,
}

impl View for RecordReport {
    type V = RecordReportView;

    open spec fn view(&self) -> RecordReportView {
        RecordReportView { header: self.header@, output: opt_output(self.output) }
    }
}

/// The report on the log lines of a reply.
pub open spec fn live_report(
    data: JsonView,
    name: Seq<char>,
    query: Seq<char>,
    label: Seq<char>,
    filter: crate::cli::FilterView,
    view: crate::cli::View,
    json_out: bool,
    full: bool,
) -> RecordReportView {
    let all = newest_first(reply_records(data));
    let kept = all.filter(|r: RecordView| keeps(filter, r));
    RecordReportView {
        header: "# loki["@ + name + "] q='"@ + query + "' window="@ + label + count_note(
            kept.len(),
            all.len(),
            "lines"@,
        ),
        output: possible_output(kept, view, json_out, full),
    }
}

/// Reports on the log lines of a reply.
pub fn report_live(
    data: &Json,
    name: &str,
    query: &str,
    label: &str,
    filter: &Filter,
    view: &crate::cli::View,
    json_out: bool,
    full: bool,
) -> (r: RecordReport)
    ensures
        r@ == live_report(data@, name@, query@, label@, filter@, *view, json_out, full),
{
    let recs = sort_newest(&read_records(data));
    let ghost all = records(recs@);
    let total: usize = recs.len();
    assert(all.len() == total);
    let kept = apply_filter(recs, filter);
    assert(records(kept@).len() == kept@.len());
    let mut s = owned("# loki[");
    s.append(name);
    s.append("] q='");
    s.append(query);
    s.append("' window=");
    s.append(label);
    s.append(note_count(kept.len(), total, "lines").as_str());
    let output = try_dispatch(kept.as_slice(), view, json_out, full);
    RecordReport { header: s, output }
}

/// A label with its value in quotes.
pub open spec fn label_text(f: (Seq<char>, JsonView)) -> Seq<char> {
    f.0 + "=\""@ + (match str_of(Some(f.1)) {
        Some(v) => v,
        None => ""@,
    }) + "\""@
}

/// The labels of a series in braces, sorted.
pub open spec fn labels_text(metric: Seq<(Seq<char>, JsonView)>) -> Seq<char> {
    "{"@ + joined(sorted_texts(metric.map_values(|f: (Seq<char>, JsonView)| label_text(f))), ", "@) + "}"@
}

/// Writes the labels of a series in braces, sorted.
pub fn label_set(metric: &Vec<(String, Json)>) -> (r: String)
    ensures
        r@ == labels_text(fields(metric@)),
{
    let ghost whole = fields(metric@).map_values(|f: (Seq<char>, JsonView)| label_text(f));
    let mut kv: Vec<String> = Vec::new();
    for i in 0..metric.len()
        invariant
            whole == fields(metric@).map_values(|f: (Seq<char>, JsonView)| label_text(f)),
            texts(kv@) == whole.take(i as int),
    {
        let ghost so_far = texts(kv@);
        let mut s = owned(metric[i].0.as_str());
        s.append("=\"");
        let v = match as_str(Some(&metric[i].1)) {
            Some(v) => v,
            None => owned(""),
        };
        s.append(v.as_str());
        s.append("\"");
        push_text(&mut kv, s);
        assert(whole.take(i as int + 1) =~= so_far.push(whole[i as int]));
    }
    assert(whole.take(metric@.len() as int) =~= whole);
    let mut s = owned("{");
    s.append(join(&sort_texts(&kv), ", ").as_str());
    s.append("}");
    s
}

/// The text of a number or of a string.
pub open spec fn number_text(j: Option<JsonView>) -> Option<Seq<char>> {
    match j {
        Some(JsonView::Number { text, .. }) => Some(text),
        Some(JsonView::Str(s)) => Some(s),
        _ => None,
    }
}

fn read_number(j: Option<&Json>) -> (r: Option<String>)
    ensures
        opt_text(r) == number_text(opt_json(j)),
{
    match j {
        Some(Json::Number { text, .. }) => Some(owned(text.as_str())),
        Some(Json::Str(s)) => Some(owned(s.as_str())),
        _ => None,
    }
}

/// A point of a series as it came: the text of its time and that of its value.
pub struct RawPoint {
    pub time: Option<String>,
    pub value: Option<String>,
}

/// The model of a point of a series.
#[verifier::ext_equal]
pub struct RawPointView {
    pub time: Option<Seq<char>>,
    pub value: Option<Seq<char>>,
}

impl View for RawPoint {
    type V = RawPointView;

    open spec fn view(&self) -> RawPointView {
        RawPointView { time: opt_text(self.time), value: opt_text(self.value) }
    }
}

/// The views of points.
pub open spec fn raw_points(v: Seq<RawPoint>) -> Seq<RawPointView> {
    v.map_values(|p: RawPoint| p@)
}

/// The points of rows; what is no list is passed over.
pub open spec fn rows_points(rows: Seq<JsonView>) -> Seq<RawPointView>
    decreases rows.len(),
{
    if rows.len() == 0 {
        Seq::<RawPointView>::empty()
    } else {
        match rows.last() {
            JsonView::Array(a) => rows_points(rows.drop_last()).push(
                RawPointView { time: number_text(item_at(a, 0)), value: str_of(item_at(a, 1)) },
            ),
            _ => rows_points(rows.drop_last()),
        }
    }
}

fn read_points(rows: &Vec<Json>) -> (r: Vec<RawPoint>)
    ensures
        raw_points(r@) == rows_points(items(rows@)),
{
    let ghost all = items(rows@);
    let mut out: Vec<RawPoint> = Vec::new();
    assert(raw_points(out@) =~= rows_points(all.take(0)));
    for i in 0..rows.len()
        invariant
            all == items(rows@),
            raw_points(out@) == rows_points(all.take(i as int)),
    {
        let ghost so_far = raw_points(out@);
        assert(all.take(i as int + 1).drop_last() =~= all.take(i as int));
        assert(all.take(i as int + 1).last() == rows@[i as int]@);
        if let Json::Array(a) = &rows[i] {
            proof {
                lemma_array(*a);
            }
            let p = RawPoint { time: read_number(nth(a, 0)), value: as_str(nth(a, 1)) };
            let ghost pv = p@;
            out.push(p);
            assert(raw_points(out@) =~= so_far.push(pv));
        }
    }
    assert(all.take(rows@.len() as int) =~= all);
    out
}

/// The rows of a series: its values, or its one value where it has no others.
pub open spec fn series_rows(s: JsonView) -> Seq<JsonView> {
    let rows = list_of(member(s, "values"@));
    if rows.len() > 0 {
        rows
    } else {
        match member(s, "value"@) {
            Some(v) => seq![v],
            None => Seq::<JsonView>::empty(),
        }
    }
}

/// A series as it came.
pub struct RawSeries {
    pub labels: String,
    pub metric: Json,
    pub points: Vec<RawPoint>,
}

/// The model of a series.
#[verifier::ext_equal]
pub struct RawSeriesView {
    pub labels: Seq<char>,
    pub metric: JsonView,
    pub points: Seq<RawPointView>,
}

impl View for RawSeries {
    type V = RawSeriesView;

    open spec fn view(&self) -> RawSeriesView {
        RawSeriesView { labels: self.labels@, metric: self.metric@, points: raw_points(self.points@) }
    }
}

/// The views of series.
pub open spec fn raw_series(v: Seq<RawSeries>) -> Seq<RawSeriesView> {
    v.map_values(|s: RawSeries| s@)
}

/// A series of a reply.
pub open spec fn series_of(s: JsonView) -> RawSeriesView {
    RawSeriesView {
        labels: labels_text(map_of(member(s, "metric"@))),
        metric: match member(s, "metric"@) {
            Some(m) => m,
            None => JsonView::Null,
        },
        points: rows_points(series_rows(s)),
    }
}

/// The series of a reply.
pub open spec fn reply_series(data: JsonView) -> Seq<RawSeriesView> {
    list_of(member2(data, "data"@, "result"@)).map_values(|s: JsonView| series_of(s))
}

fn read_one_series(s: &Json) -> (r: RawSeries)
    ensures
        r@ == series_of(s@),
{
    let none: Vec<(String, Json)> = Vec::new();
    assert(fields(none@) =~= Seq::<(Seq<char>, JsonView)>::empty());
    let metric = match as_fields(s.get("metric")) {
        Some(m) => m,
        None => &none,
    };
    let labels = label_set(metric);
    let mut single: Vec<Json> = Vec::new();
    assert(items(single@) =~= Seq::<JsonView>::empty());
    if let Some(v) = s.get("value") {
        push_item(&mut single, v.copy());
        assert(items(single@) =~= seq![v@]);
    }
    let points = match as_items(s.get("values")) {
        Some(rows) => {
            assert(items(rows@).len() == rows@.len());
            if rows.len() > 0 {
                read_points(rows)
            } else {
                read_points(&single)
            }
        },
        None => read_points(&single),
    };
    let metric = match s.get("metric") {
        Some(m) => m.copy(),
        None => Json::Null,
    };
    RawSeries { labels, metric, points }
}

/// Reads the series of a reply.
pub fn read_series(data: &Json) -> (r: Vec<RawSeries>)
    ensures
        raw_series(r@) == reply_series(data@),
{
    let mut out: Vec<RawSeries> = Vec::new();
    assert(raw_series(out@) =~= Seq::<RawSeriesView>::empty());
    let rows = match as_items(data.get2("data", "result")) {
        Some(r) => r,
        None => {
            assert(raw_series(out@) =~= reply_series(data@));
            return out;
        },
    };
    let ghost whole = reply_series(data@);
    for i in 0..rows.len()
        invariant
            whole == items(rows@).map_values(|s: JsonView| series_of(s)),
            raw_series(out@) == whole.take(i as int),
    {
        let ghost so_far = raw_series(out@);
        let s = read_one_series(&rows[i]);
        out.push(s);
        assert(raw_series(out@) =~= so_far.push(whole[i as int]));
        assert(whole.take(i as int + 1) =~= so_far.push(whole[i as int]));
    }
    assert(whole.take(rows@.len() as int) =~= whole);
    out
}

/// The kind of result that a reply says it holds.
pub open spec fn result_type(data: JsonView) -> Seq<char> {
    match str_of(member2(data, "data"@, "resultType"@)) {
        Some(s) => s,
        None => ""@,
    }
}

/// Reads the kind of result that a reply says it holds.
pub fn read_result_type(data: &Json) -> (r: String)
    ensures
        r@ == result_type(data@),
{
    match as_str(data.get2("data", "resultType")) {
        Some(s) => s,
        None => owned(""),
    }
}

/// The header over the series of a metric.
pub open spec fn metric_header(
    name: Seq<char>,
    query: Seq<char>,
    label: Seq<char>,
    step: i64,
    n: nat,
) -> Seq<char> {
    "# loki["@ + name + "] metric q='"@ + query + "' window="@ + label + " step="@ + int_text(step as int)
        + "s  ("@ + decimal(n) + " series)\n"@
}

/// What is printed of a series: its labels, how many points it has, and its sum, its last and
/// its largest value as they are written.
pub struct SeriesLine {
    pub labels: String,
    pub points: usize,
    pub sum: String,
    pub last: String,
    pub max: String,
}

/// The lines on a series.
pub open spec fn series_lines(s: SeriesLine) -> Seq<Seq<char>> {
    seq![
        s.labels@,
        "  pts="@ + decimal(s.points as nat) + " sum="@ + s.sum@ + " last="@ + s.last@ + " max="@ + s.max@,
    ]
}

/// The lines on series.
pub open spec fn all_series_lines(v: Seq<SeriesLine>) -> Seq<Seq<char>>
    decreases v.len(),
{
    if v.len() == 0 {
        Seq::<Seq<char>>::empty()
    } else {
        all_series_lines(v.drop_last()) + series_lines(v.last())
    }
}

/// The report on the series of a metric as text.
pub open spec fn metric_report(
    name: Seq<char>,
    query: Seq<char>,
    label: Seq<char>,
    step: i64,
    series: Seq<SeriesLine>,
) -> ReportView {
    ReportView {
        header: Some(metric_header(name, query, label, step, series.len())),
        output: OutputView::Lines(
            if series.len() == 0 {
                seq!["no data"@]
            } else {
                all_series_lines(series)
            },
        ),
    }
}

/// Reports on the series of a metric as text.
pub fn report_metric(name: &str, query: &str, label: &str, step: i64, series: &Vec<SeriesLine>) -> (r: Report)
    ensures
        r@ == metric_report(name@, query@, label@, step, series@),
{
    let mut h = owned("# loki[");
    h.append(name);
    h.append("] metric q='");
    h.append(query);
    h.append("' window=");
    h.append(label);
    h.append(" step=");
    h.append(int_to_text(step).as_str());
    h.append("s  (");
    h.append(size_to_text(series.len()).as_str());
    h.append(" series)\n");
    let mut out: Vec<String> = Vec::new();
    assert(texts(out@) =~= Seq::<Seq<char>>::empty());
    if series.len() == 0 {
        push_text(&mut out, owned("no data"));
        assert(texts(out@) =~= seq!["no data"@]);
        return Report { header: Some(h), output: Output::Lines(out) };
    }
    let ghost all = series@;
    assert(texts(out@) =~= all_series_lines(all.take(0)));
    for i in 0..series.len()
        invariant
            all == series@,
            texts(out@) == all_series_lines(all.take(i as int)),
    {
        let ghost so_far = texts(out@);
        assert(all.take(i as int + 1).drop_last() =~= all.take(i as int));
        assert(all.take(i as int + 1).last() == all[i as int]);
        let s = &series[i];
        push_text(&mut out, owned(s.labels.as_str()));
        let mut t = owned("  pts=");
        t.append(size_to_text(s.points).as_str());
        t.append(" sum=");
        t.append(s.sum.as_str());
        t.append(" last=");
        t.append(s.last.as_str());
        t.append(" max=");
        t.append(s.max.as_str());
        push_text(&mut out, t);
        assert(texts(out@) =~= so_far + series_lines(all[i as int]));
    }
    assert(all.take(series@.len() as int) =~= all);
    Report { header: Some(h), output: Output::Lines(out) }
}

/// A series as JSON, with its points and its figures as they are written.
pub open spec fn series_value(
    metric: JsonView,
    points: JsonView,
    sum: JsonView,
    last: JsonView,
    max: JsonView,
    min: JsonView,
) -> JsonView {
    JsonView::Object(
        seq![
            ("labels"@, metric),
            ("points"@, points),
            ("sum"@, sum),
            ("last"@, last),
            ("max"@, max),
            ("min"@, min),
        ],
    )
}

/// Makes a series JSON.
pub fn pack_series(metric: Json, points: Json, sum: Json, last: Json, max: Json, min: Json) -> (r: Json)
    ensures
        r@ == series_value(metric@, points@, sum@, last@, max@, min@),
{
    let ghost want = series_value(metric@, points@, sum@, last@, max@, min@);
    let mut o: Vec<(String, Json)> = Vec::new();
    push_field(&mut o, "labels", metric);
    push_field(&mut o, "points", points);
    push_field(&mut o, "sum", sum);
    push_field(&mut o, "last", last);
    push_field(&mut o, "max", max);
    push_field(&mut o, "min", min);
    assert(fields(o@) =~= want->Object_0);
    object(o)
}

/// The series of a metric as JSON.
pub open spec fn metric_value(rtype: Seq<char>, step: i64, series: Seq<JsonView>) -> JsonView {
    JsonView::Object(
        seq![
            ("resultType"@, JsonView::Str(rtype)),
            ("step"@, JsonView::Str(int_text(step as int) + "s"@)),
            ("series"@, JsonView::Array(series)),
        ],
    )
}

/// Makes the series of a metric JSON.
pub fn pack_metric(rtype: &str, step: i64, series: Vec<Json>) -> (r: Json)
    ensures
        r@ == metric_value(rtype@, step, items(series@)),
{
    let ghost want = metric_value(rtype@, step, items(series@));
    let mut t = int_to_text(step);
    t.append("s");
    let mut o: Vec<(String, Json)> = Vec::new();
    push_field(&mut o, "resultType", str_value(rtype));
    push_field(&mut o, "step", str_value(t.as_str()));
    push_field(&mut o, "series", array(series));
    assert(fields(o@) =~= want->Object_0);
    object(o)
}

/// The names that a reply lists.
pub open spec fn reply_names(data: JsonView) -> Seq<Seq<char>> {
    strings_in(list_of(member(data, "data"@)))
}

/// Reads the names that a reply lists.
pub fn read_names(data: &Json) -> (r: Vec<String>)
    ensures
        texts(r@) == reply_names(data@),
{
    match as_items(data.get("data")) {
        Some(a) => strings_of(a),
        None => {
            let none: Vec<String> = Vec::new();
            assert(texts(none@) =~= Seq::<Seq<char>>::empty());
            none
        },
    }
}

/// The report on the names of labels.
pub open spec fn labels_report(data: JsonView, name: Seq<char>, label: Seq<char>, json_out: bool) -> ReportView {
    let names = reply_names(data);
    if json_out {
        ReportView {
            header: None,
            output: OutputView::Value(
                JsonView::Object(seq![("datasource"@, JsonView::Str(name)), ("labels"@, json_strings(names))]),
            ),
        }
    } else {
        ReportView {
            header: Some(
                "# loki["@ + name + "] labels window="@ + label + "  ("@ + decimal(names.len()) + " labels)\n"@,
            ),
            output: OutputView::Lines(names),
        }
    }
}

/// Reports on the names of labels.
pub fn report_labels(data: &Json, name: &str, label: &str, json_out: bool) -> (r: Report)
    ensures
        r@ == labels_report(data@, name@, label@, json_out),
{
    let names = read_names(data);
    assert(texts(names@).len() == names@.len());
    if json_out {
        let mut o: Vec<(String, Json)> = Vec::new();
        push_field(&mut o, "datasource", str_value(name));
        push_field(&mut o, "labels", str_items(&names));
        assert(fields(o@) =~= (labels_report(data@, name@, label@, json_out).output->Value_0)->Object_0);
        return Report { header: None, output: Output::Value(object(o)) };
    }
    let mut h = owned("# loki[");
    h.append(name);
    h.append("] labels window=");
    h.append(label);
    h.append("  (");
    h.append(size_to_text(names.len()).as_str());
    h.append(" labels)\n");
    Report { header: Some(h), output: Output::Lines(names) }
}

/// The report on the values of a label.
pub open spec fn values_report(
    data: JsonView,
    name: Seq<char>,
    of: Seq<char>,
    label: Seq<char>,
    json_out: bool,
) -> ReportView {
    let values = reply_names(data);
    if json_out {
        ReportView {
            header: None,
            output: OutputView::Value(
                JsonView::Object(
                    seq![
                        ("datasource"@, JsonView::Str(name)),
                        ("label"@, JsonView::Str(of)),
                        ("values"@, json_strings(values)),
                    ],
                ),
            ),
        }
    } else {
        ReportView {
            header: Some(
                "# loki["@ + name + "] values of '"@ + of + "' window="@ + label + "  ("@ + decimal(
                    values.len(),
                ) + " values)\n"@,
            ),
            output: OutputView::Lines(values),
        }
    }
}

/// Reports on the values of a label.
pub fn report_values(data: &Json, name: &str, of: &str, label: &str, json_out: bool) -> (r: Report)
    ensures
        r@ == values_report(data@, name@, of@, label@, json_out),
{
    let values = read_names(data);
    assert(texts(values@).len() == values@.len());
    if json_out {
        let mut o: Vec<(String, Json)> = Vec::new();
        push_field(&mut o, "datasource", str_value(name));
        push_field(&mut o, "label", str_value(of));
        push_field(&mut o, "values", str_items(&values));
        assert(fields(o@) =~= (values_report(data@, name@, of@, label@, json_out).output->Value_0)->Object_0);
        return Report { header: None, output: Output::Value(object(o)) };
    }
    let mut h = owned("# loki[");
    h.append(name);
    h.append("] values of '");
    h.append(of);
    h.append("' window=");
    h.append(label);
    h.append("  (");
    h.append(size_to_text(values.len()).as_str());
    h.append(" values)\n");
    Report { header: Some(h), output: Output::Lines(values) }
}

} // verus!
