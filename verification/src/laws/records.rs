//! Laws of records: what a line and its stream say ends up under the right name, and messages
//! that differ only in numbers and identifiers have one signature.

use super::texts::{replacing_goes_part_by_part, replacing_leaves_none};
use crate::json::{field_of, JsonView};
use crate::patterns::{regex_pieces, DIGITS, HEX_RUN, SPACES};
use crate::record::{
    collapsed, epoch_millis, first_of, line_fields, millis_of, one_line, record_of, short_time, signature,
    text_field,
};
use crate::text::{cut_back, joined, lowercase, trimmed, uppercase, with_replaced, CharSet};
use vstd::prelude::*;

verus! {

/// Whether fields say a text under a name.
pub open spec fn says(m: Seq<(Seq<char>, JsonView)>, name: Seq<char>, text: Seq<char>) -> bool {
    field_of(m, name) == Some(JsonView::Str(text)) && text.len() > 0
}

/// Whether fields say nothing under a name.
pub open spec fn silent(m: Seq<(Seq<char>, JsonView)>, name: Seq<char>) -> bool {
    forall|text: Seq<char>| !says(m, name, text)
}

proof fn lemma_silent(m: Seq<(Seq<char>, JsonView)>, name: Seq<char>)
    ensures
        silent(m, name) <==> text_field(m, name) is None,
        forall|t: Seq<char>| says(m, name, t) ==> text_field(m, name) == Some(t),
{
    if silent(m, name) {
        if let Some(JsonView::Str(t)) = field_of(m, name) {
            assert(!says(m, name, t));
        }
    } else {
        let t = choose|t: Seq<char>| says(m, name, t);
        assert(says(m, name, t));
    }
}

proof fn lemma_first_of_three(a: Option<Seq<char>>, b: Option<Seq<char>>, c: Option<Seq<char>>)
    ensures
        first_of(seq![a, b, c]) == match (a, b, c) {
            (Some(s), _, _) => s,
            (None, Some(s), _) => s,
            (None, None, Some(s)) => s,
            (None, None, None) => Seq::<char>::empty(),
        },
        first_of(seq![a, b]) == match (a, b) {
            (Some(s), _) => s,
            (None, Some(s)) => s,
            (None, None) => Seq::<char>::empty(),
        },
{
    reveal_with_fuel(first_of, 4);
    assert(seq![a, b, c].skip(1) =~= seq![b, c]);
    assert(seq![b, c].skip(1) =~= seq![c]);
    assert(seq![c].skip(1) =~= Seq::<Option<Seq<char>>>::empty());
    assert(seq![a, b].skip(1) =~= seq![b]);
    assert(seq![b].skip(1) =~= Seq::<Option<Seq<char>>>::empty());
}

/// The level is what the line says of itself, in upper case, whatever the stream says. Only
/// where the line is silent the label `level` of the stream counts, then `detected_level`, and
/// where nothing says it a question mark stands for it.
pub proof fn the_line_comes_first_for_the_level(
    line: Seq<char>,
    date: Seq<char>,
    labels: Seq<(Seq<char>, JsonView)>,
    object: Seq<(Seq<char>, JsonView)>,
    l: Seq<char>,
)
    ensures
        ({
            let level = record_of(line, date, labels, object).level;
            &&& says(object, "level"@, l) ==> level == uppercase(l)
            &&& silent(object, "level"@) && says(labels, "level"@, l) ==> level == uppercase(l)
            &&& silent(object, "level"@) && silent(labels, "level"@) && says(labels, "detected_level"@, l) ==> level
                == uppercase(l)
            &&& silent(object, "level"@) && silent(labels, "level"@) && silent(labels, "detected_level"@) ==> level
                == "?"@
        }),
{
    lemma_silent(object, "level"@);
    lemma_silent(labels, "level"@);
    lemma_silent(labels, "detected_level"@);
    lemma_first_of_three(
        text_field(object, "level"@),
        text_field(labels, "level"@),
        text_field(labels, "detected_level"@),
    );
}

/// The service is what the stream says: its `service_name`, else its `app`. Only where the stream
/// is silent the line's `application_name` counts, and without any a question mark stands for it.
pub proof fn the_stream_comes_first_for_the_service(
    line: Seq<char>,
    date: Seq<char>,
    labels: Seq<(Seq<char>, JsonView)>,
    object: Seq<(Seq<char>, JsonView)>,
    s: Seq<char>,
)
    ensures
        ({
            let service = record_of(line, date, labels, object).service;
            &&& says(labels, "service_name"@, s) ==> service == s
            &&& silent(labels, "service_name"@) && says(labels, "app"@, s) ==> service == s
            &&& silent(labels, "service_name"@) && silent(labels, "app"@) && says(object, "application_name"@, s)
                ==> service == s
            &&& silent(labels, "service_name"@) && silent(labels, "app"@) && silent(object, "application_name"@)
                ==> service == "?"@
        }),
{
    lemma_silent(labels, "service_name"@);
    lemma_silent(labels, "app"@);
    lemma_silent(object, "application_name"@);
    lemma_first_of_three(
        text_field(labels, "service_name"@),
        text_field(labels, "app"@),
        text_field(object, "application_name"@),
    );
}

/// The trace is the line's `traceId`, else its `trace_id`, else the stream's `TraceID`.
pub proof fn the_line_comes_first_for_the_trace(
    line: Seq<char>,
    date: Seq<char>,
    labels: Seq<(Seq<char>, JsonView)>,
    object: Seq<(Seq<char>, JsonView)>,
    t: Seq<char>,
)
    ensures
        ({
            let trace = record_of(line, date, labels, object).trace;
            &&& says(object, "traceId"@, t) ==> trace == t
            &&& silent(object, "traceId"@) && says(object, "trace_id"@, t) ==> trace == t
            &&& silent(object, "traceId"@) && silent(object, "trace_id"@) && says(labels, "TraceID"@, t) ==> trace
                == t
            &&& silent(object, "traceId"@) && silent(object, "trace_id"@) && silent(labels, "TraceID"@)
                ==> trace.len() == 0
        }),
{
    lemma_silent(object, "traceId"@);
    lemma_silent(object, "trace_id"@);
    lemma_silent(labels, "TraceID"@);
    lemma_first_of_three(
        text_field(object, "traceId"@),
        text_field(object, "trace_id"@),
        text_field(labels, "TraceID"@),
    );
}

/// The time of a record is the date that it came with; only without one the line's own timestamp.
pub proof fn the_date_comes_first_for_the_time(
    line: Seq<char>,
    date: Seq<char>,
    labels: Seq<(Seq<char>, JsonView)>,
    object: Seq<(Seq<char>, JsonView)>,
    t: Seq<char>,
)
    ensures
        ({
            let ts = record_of(line, date, labels, object).ts;
            &&& date.len() > 0 ==> ts == date
            &&& date.len() == 0 && says(object, "@timestamp"@, t) ==> ts == t
            &&& date.len() == 0 && silent(object, "@timestamp"@) ==> ts.len() == 0
        }),
{
    lemma_silent(object, "@timestamp"@);
    lemma_first_of_three(
        crate::record::nonempty(Some(date)),
        text_field(object, "@timestamp"@),
        None,
    );
}

/// The message is the line's own `message`, or the whole line where it has none.
pub proof fn the_message_is_the_lines_own(
    line: Seq<char>,
    date: Seq<char>,
    labels: Seq<(Seq<char>, JsonView)>,
    object: Seq<(Seq<char>, JsonView)>,
    m: Seq<char>,
)
    ensures
        says(object, "message"@, m) ==> record_of(line, date, labels, object).msg == m,
        silent(object, "message"@) ==> record_of(line, date, labels, object).msg == line,
{
    lemma_silent(object, "message"@);
}

/// Pod and namespace are what the stream says of them; logger, thread and stack are what the line
/// says of them. Where nothing is said they are empty.
pub proof fn each_name_has_its_own_source(
    line: Seq<char>,
    date: Seq<char>,
    labels: Seq<(Seq<char>, JsonView)>,
    object: Seq<(Seq<char>, JsonView)>,
    t: Seq<char>,
)
    ensures
        ({
            let r = record_of(line, date, labels, object);
            &&& says(labels, "pod"@, t) ==> r.pod == t
            &&& silent(labels, "pod"@) ==> r.pod.len() == 0
            &&& says(labels, "namespace"@, t) ==> r.namespace == t
            &&& silent(labels, "namespace"@) ==> r.namespace.len() == 0
            &&& says(object, "logger_name"@, t) ==> r.logger == t
            &&& silent(object, "logger_name"@) ==> r.logger.len() == 0
            &&& says(object, "thread_name"@, t) ==> r.thread == t
            &&& silent(object, "thread_name"@) ==> r.thread.len() == 0
            &&& says(object, "stack_trace"@, t) ==> r.stack == t
            &&& silent(object, "stack_trace"@) ==> r.stack.len() == 0
        }),
{
    lemma_silent(labels, "pod"@);
    lemma_silent(labels, "namespace"@);
    lemma_silent(object, "logger_name"@);
    lemma_silent(object, "thread_name"@);
    lemma_silent(object, "stack_trace"@);
}

/// What a line says of itself is what stands in the JSON object that it is, where it begins with
/// a brace; every other line says nothing.
pub proof fn a_line_speaks_for_itself_as_json(line: Seq<char>, o: Seq<(Seq<char>, JsonView)>)
    requires
        line.len() > 0,
    ensures
        line[0] == '{' && crate::json::json_read(line) == Ok::<JsonView, Seq<char>>(JsonView::Object(o))
            ==> line_fields(line) == o,
        line[0] != '{' && !crate::text::is_space(line[0]) ==> line_fields(line).len() == 0,
{
    reveal_strlit("{");
    if !crate::text::is_space(line[0]) {
        super::texts::cutting_stops_at_the_first_other(line, CharSet::Space);
        if line[0] == '{' {
            assert(line.subrange(0, 1) =~= "{"@);
        } else {
            assert(line.subrange(0, 1)[0] != "{"@[0]);
        }
    }
}

/// Messages whose lower case texts have the same pieces between their long hexadecimal runs have
/// one signature: what stands inside such a run never reaches it.
pub proof fn what_a_hexadecimal_run_is_does_not_matter(a: Seq<char>, b: Seq<char>)
    requires
        regex_pieces(HEX_RUN@, false, lowercase(a)) == regex_pieces(
            HEX_RUN@,
            false,
            lowercase(b),
        ),
    ensures
        signature(a) == signature(b),
{
}

/// A text with a mask in place of each long hexadecimal run, given the pieces between the runs.
pub open spec fn hex_masked(pieces: Seq<Seq<char>>) -> Seq<char> {
    joined(pieces, "<hex>"@)
}

/// Messages that differ in their numbers alone, once their long hexadecimal runs are masked, have
/// one signature: which number it is never reaches it.
pub proof fn what_a_number_is_does_not_matter(a: Seq<char>, b: Seq<char>)
    requires
        ({
            let hex = |s: Seq<char>| regex_pieces(HEX_RUN@, false, lowercase(s));
            regex_pieces(DIGITS@, false, hex_masked(hex(a))) == regex_pieces(
                DIGITS@,
                false,
                hex_masked(hex(b)),
            )
        }),
    ensures
        signature(a) == signature(b),
{
}

/// Messages that differ in case alone have one signature.
pub proof fn case_does_not_matter(a: Seq<char>, b: Seq<char>)
    requires
        lowercase(a) == lowercase(b),
    ensures
        signature(a) == signature(b),
{
}

/// A message with nothing to mask is told by its words: on one line it is its own signature, in
/// lower case and as far as 120 characters reach.
pub proof fn a_plain_message_is_its_own_signature(msg: Seq<char>)
    requires
        regex_pieces(HEX_RUN@, false, lowercase(msg)) == seq![lowercase(msg)],
        regex_pieces(DIGITS@, false, lowercase(msg)) == seq![lowercase(msg)],
        regex_pieces(SPACES@, false, lowercase(msg)) == seq![lowercase(msg)],
        trimmed(lowercase(msg)) == lowercase(msg),
    ensures
        lowercase(msg).len() <= 120 ==> signature(msg) == lowercase(msg),
        lowercase(msg).len() > 120 ==> signature(msg) == lowercase(msg).take(120),
{
    assert(joined(seq![lowercase(msg)], "<hex>"@) == lowercase(msg));
    assert(joined(seq![lowercase(msg)], "<n>"@) == lowercase(msg));
    assert(joined(seq![lowercase(msg)], " "@) == lowercase(msg));
}

/// A message with one long hexadecimal run and one number shows a mask of its own for each: the
/// words around them stay where they are.
pub proof fn masks_stand_where_the_runs_stood(msg: Seq<char>, p: Seq<char>, q: Seq<char>, x: Seq<char>, y: Seq<char>)
    requires
        regex_pieces(HEX_RUN@, false, lowercase(msg)) == seq![p, q],
        regex_pieces(DIGITS@, false, p + "<hex>"@ + q) == seq![x, y],
        regex_pieces(SPACES@, false, x + "<n>"@ + y) == seq![x + "<n>"@ + y],
        trimmed(x + "<n>"@ + y) == x + "<n>"@ + y,
        x.len() + y.len() <= 117,
    ensures
        signature(msg) == x + "<n>"@ + y,
{
    reveal_strlit("<n>");
    lemma_joined_two(p, q, "<hex>"@);
    lemma_joined_two(x, y, "<n>"@);
    assert(joined(seq![x + "<n>"@ + y], " "@) == x + "<n>"@ + y);
}

proof fn lemma_joined_two(a: Seq<char>, b: Seq<char>, sep: Seq<char>)
    ensures
        joined(seq![a, b], sep) == a + sep + b,
{
    reveal_with_fuel(joined, 3);
    assert(seq![a, b].drop_last() =~= seq![a]);
}

/// Texts that differ only in their runs of white space are one line.
pub proof fn white_space_is_one_space(a: Seq<char>, b: Seq<char>, p: Seq<char>, q: Seq<char>)
    requires
        trimmed(a).len() > 0,
        regex_pieces(SPACES@, false, trimmed(a)) == seq![p, q],
    ensures
        collapsed(a) == p + " "@ + q,
        trimmed(b).len() > 0 && regex_pieces(SPACES@, false, trimmed(b)) == seq![p, q] ==> collapsed(
            b,
        ) == collapsed(a),
{
    lemma_joined_two(p, q, " "@);
}

/// A line that fits is shown whole; a longer one keeps its front, and ends in an ellipsis at the
/// last character that there is room for.
pub proof fn a_cut_line_keeps_its_front(s: Seq<char>, n: int)
    requires
        n > 0,
    ensures
        collapsed(s).len() <= n ==> one_line(s, n) == collapsed(s),
        collapsed(s).len() > n ==> one_line(s, n).len() == n && one_line(s, n).last() == '…' && (forall|k: int|
            0 <= k < n - 1 ==> one_line(s, n)[k] == collapsed(s)[k]),
{
}

/// A timestamp for the eye has neither a `T` nor a `Z`, and is no longer than a millisecond asks.
pub proof fn short_times_are_short(ts: Seq<char>)
    requires
        ts.len() > 0,
    ensures
        !short_time(ts).contains('T'),
        !short_time(ts).contains('Z'),
        short_time(ts).len() <= 23,
{
    reveal_strlit(" ");
    let none = Seq::<char>::empty();
    let a = with_replaced(ts, 'T', " "@);
    let b = with_replaced(a, 'Z', none);
    assert(!" "@.contains('T'));
    assert(!none.contains('Z'));
    replacing_leaves_none(ts, 'T', " "@);
    replacing_leaves_none(a, 'Z', none);
    assert(!none.contains('T'));
    assert(!b.contains('T') && !b.contains('Z'));
    assert forall|k: int| 0 <= k < short_time(ts).len() implies short_time(ts)[k] != 'T' && short_time(ts)[k] != 'Z' by {
        assert(short_time(ts)[k] == b[k]);
        assert(b.contains(b[k]));
    }
}

/// A date and a time of day show with a space between them and without the `Z`.
pub proof fn short_times_show_date_and_time(date: Seq<char>, time: Seq<char>)
    requires
        !date.contains('T') && !date.contains('Z'),
        !time.contains('T') && !time.contains('Z'),
        date.len() + time.len() <= 22,
    ensures
        short_time(date + seq!['T'] + time + seq!['Z']) == date + seq![' '] + time,
{
    reveal_strlit(" ");
    let none = Seq::<char>::empty();
    let ts = date + seq!['T'] + time + seq!['Z'];
    replacing_goes_part_by_part(date + seq!['T'] + time, seq!['Z'], 'T', " "@);
    replacing_goes_part_by_part(date + seq!['T'], time, 'T', " "@);
    replacing_goes_part_by_part(date, seq!['T'], 'T', " "@);
    replacing_leaves_none(date, 'T', " "@);
    replacing_leaves_none(time, 'T', " "@);
    assert(!seq!['Z'].contains('T'));
    replacing_leaves_none(seq!['Z'], 'T', " "@);
    let a = date + " "@ + time + seq!['Z'];
    assert(with_replaced(ts, 'T', " "@) == a);
    replacing_goes_part_by_part(date + " "@ + time, seq!['Z'], 'Z', none);
    let b = date + " "@ + time;
    assert(!b.contains('Z')) by {
        assert forall|k: int| 0 <= k < b.len() implies b[k] != 'Z' by {
            if k < date.len() {
                assert(date.contains(date[k]));
            } else if k > date.len() {
                assert(time.contains(time[k - date.len() - 1]));
            }
        }
    }
    replacing_leaves_none(b, 'Z', none);
    assert(b + none =~= b);
    assert(b =~= date + seq![' '] + time);
}

/// A `Z` at the end of a timestamp changes nothing about the time.
pub proof fn a_mark_for_utc_changes_nothing(ts: Seq<char>)
    requires
        ts.len() > 0,
        !crate::text::is_space(ts[0]),
        !crate::text::is_space(ts.last()),
    ensures
        epoch_millis(ts.push('Z')) == epoch_millis(ts),
{
    super::texts::trimmed_text_stays(ts);
    super::texts::trimmed_text_stays(ts.push('Z'));
    assert(ts.push('Z').drop_last() =~= ts);
    assert(cut_back(ts.push('Z'), CharSet::Only('Z')) == cut_back(ts, CharSet::Only('Z')));
}

/// A second has a thousand milliseconds, and a millisecond a million nanoseconds.
pub proof fn milliseconds_measure_time(secs: i64, nanos: u32)
    requires
        secs < i64::MAX,
    ensures
        millis_of((secs, 0)) == secs * 1000,
        millis_of(((secs + 1) as i64, nanos)) == millis_of((secs, nanos)) + 1000,
        millis_of((secs, nanos)) * 1_000_000 <= secs * 1_000_000_000 + nanos < (millis_of((secs, nanos)) + 1)
            * 1_000_000,
{
}

} // verus!
