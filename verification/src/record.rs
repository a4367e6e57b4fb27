//! Log records: one shape for everything that an export or a query returns.

use crate::clock::{naive_instant, read_naive, FRACTION_FORM, SECOND_FORM};
use crate::json::{as_str, field_of, fields, find_field, json_read, parse_json, str_of, Json, JsonView};
use crate::patterns::{own_pattern, replaced, Pattern, DIGITS, HEX_RUN, SPACES};
use crate::text::{
    begins, chars_of, cut_back, cut_front, first_chars, is_space, joined, lowercase, opt_text, owned,
    split_at, starts_with, tail_part, take_chars, text_between, texts, to_lowercase, to_uppercase,
    trim, trim_back, trim_front, trimmed, uppercase, with_replaced, CharSet,
};
use vstd::prelude::*;

verus! {

/// A log record.
pub struct Record {
    pub ts: String,
    pub level: String,
    pub service: String,
    pub pod: String,
    pub namespace: String,
    pub logger: String,
    pub thread: String,
    pub trace: String,
    pub msg: String,
    pub stack: String,
}

/// The model of a log record.
#[verifier::ext_equal]
pub struct RecordView {
    pub ts: Seq<char>,
    pub level: Seq<char>,
    pub service: Seq<char>,
    pub pod: Seq<char>,
    pub namespace: Seq<char>,
    pub logger: Seq<char>,
    pub thread: Seq<char>,
    pub trace: Seq<char>,
    pub msg: Seq<char>,
    pub stack: Seq<char>,
}

impl View for Record {
    type V = RecordView;

    open spec fn view(&self) -> RecordView {
        RecordView {
            ts: self.ts@,
            level: self.level@,
            service: self.service@,
            pod: self.pod@,
            namespace: self.namespace@,
            logger: self.logger@,
            thread: self.thread@,
            trace: self.trace@,
            msg: self.msg@,
            stack: self.stack@,
        }
    }
}

/// The views of records.
pub open spec fn records(v: Seq<Record>) -> Seq<RecordView> {
    v.map_values(|r: Record| r@)
}

impl Record {
    /// A copy of the record.
    pub fn copy(&self) -> (r: Record)
        ensures
            r@ == self@,
    {
        Record {
            ts: owned(self.ts.as_str()),
            level: owned(self.level.as_str()),
            service: owned(self.service.as_str()),
            pod: owned(self.pod.as_str()),
            namespace: owned(self.namespace.as_str()),
            logger: owned(self.logger.as_str()),
            thread: owned(self.thread.as_str()),
            trace: owned(self.trace.as_str()),
            msg: owned(self.msg.as_str()),
            stack: owned(self.stack.as_str()),
        }
    }
}

/// Adds a record to a list.
pub fn push_record(v: &mut Vec<Record>, r: Record)
    ensures
        records(final(v)@) == records(old(v)@).push(r@),
        final(v)@.len() == old(v)@.len() + 1,
{
    v.push(r);
    assert(records(v@) =~= records(old(v)@).push(r@));
}

/// A text, unless it is empty.
pub open spec fn nonempty(o: Option<Seq<char>>) -> Option<Seq<char>> {
    match o {
        Some(s) if s.len() > 0 => Some(s),
        _ => None,
    }
}

/// The text of a field, where it is a string that is not empty.
pub open spec fn text_field(m: Seq<(Seq<char>, JsonView)>, key: Seq<char>) -> Option<Seq<char>> {
    nonempty(str_of(field_of(m, key)))
}

/// Reads the text of a field, where it is a string that is not empty.
pub fn get(m: &Vec<(String, Json)>, key: &str) -> (r: Option<String>)
    ensures
        opt_text(r) == text_field(fields(m@), key@),
{
    match as_str(find_field(m, key)) {
        Some(s) => if s.as_str().is_empty() {
            None
        } else {
            Some(s)
        },
        None => None,
    }
}

/// The first text that is there, or the empty text.
pub open spec fn first_of(opts: Seq<Option<Seq<char>>>) -> Seq<char>
    decreases opts.len(),
{
    if opts.len() == 0 {
        Seq::<char>::empty()
    } else {
        match opts[0] {
            Some(s) => s,
            None => first_of(opts.skip(1)),
        }
    }
}

/// The views of optional texts.
pub open spec fn opt_texts(v: Seq<Option<String>>) -> Seq<Option<Seq<char>>> {
    v.map_values(|o: Option<String>| opt_text(o))
}

/// Takes the first text that is there.
pub fn first(opts: &Vec<Option<String>>) -> (r: String)
    ensures
        r@ == first_of(opt_texts(opts@)),
{
    let ghost all = opt_texts(opts@);
    assert(all.skip(0) =~= all);
    for i in 0..opts.len()
        invariant
            all == opt_texts(opts@),
            first_of(all) == first_of(all.skip(i as int)),
    {
        assert(all.skip(i as int)[0] == opt_text(opts@[i as int]));
        assert(all.skip(i as int).skip(1) =~= all.skip(i as int + 1));
        if let Some(s) = &opts[i] {
            return owned(s.as_str());
        }
    }
    assert(all.skip(opts@.len() as int).len() == 0);
    String::new()
}

fn first_two(a: Option<String>, b: Option<String>) -> (r: String)
    ensures
        r@ == first_of(seq![opt_text(a), opt_text(b)]),
{
    let ghost whole = seq![opt_text(a), opt_text(b)];
    let opts: Vec<Option<String>> = vec![a, b];
    assert(opt_texts(opts@) =~= whole);
    first(&opts)
}

fn first_three(a: Option<String>, b: Option<String>, c: Option<String>) -> (r: String)
    ensures
        r@ == first_of(seq![opt_text(a), opt_text(b), opt_text(c)]),
{
    let ghost whole = seq![opt_text(a), opt_text(b), opt_text(c)];
    let opts: Vec<Option<String>> = vec![a, b, c];
    assert(opt_texts(opts@) =~= whole);
    first(&opts)
}

/// A text, or the empty one.
pub open spec fn or_empty(o: Option<Seq<char>>) -> Seq<char> {
    match o {
        Some(s) => s,
        None => Seq::<char>::empty(),
    }
}

/// A text, or the empty one.
pub fn or_blank(o: Option<String>) -> (r: String)
    ensures
        r@ == or_empty(opt_text(o)),
{
    match o {
        Some(s) => s,
        None => String::new(),
    }
}

/// A text, or a question mark in place of the empty one.
pub open spec fn or_unknown(s: Seq<char>) -> Seq<char> {
    if s.len() == 0 {
        "?"@
    } else {
        s
    }
}

/// The record of a log line: `object` holds the fields of the line where it is a JSON object,
/// `labels` those of its stream. What the line says of itself comes first for the message,
/// the level and the trace; what the stream says comes first for the service.
pub open spec fn record_of(
    line: Seq<char>,
    date: Seq<char>,
    labels: Seq<(Seq<char>, JsonView)>,
    object: Seq<(Seq<char>, JsonView)>,
) -> RecordView {
    let level = first_of(
        seq![
            text_field(object, "level"@),
            text_field(labels, "level"@),
            text_field(labels, "detected_level"@),
        ],
    );
    RecordView {
        ts: first_of(seq![nonempty(Some(date)), text_field(object, "@timestamp"@)]),
        level: if level.len() == 0 {
            "?"@
        } else {
            uppercase(level)
        },
        service: or_unknown(
            first_of(
                seq![
                    text_field(labels, "service_name"@),
                    text_field(labels, "app"@),
                    text_field(object, "application_name"@),
                ],
            ),
        ),
        pod: or_empty(text_field(labels, "pod"@)),
        namespace: or_empty(text_field(labels, "namespace"@)),
        logger: or_empty(text_field(object, "logger_name"@)),
        thread: or_empty(text_field(object, "thread_name"@)),
        trace: first_of(
            seq![
                text_field(object, "traceId"@),
                text_field(object, "trace_id"@),
                text_field(labels, "TraceID"@),
            ],
        ),
        msg: match text_field(object, "message"@) {
            Some(m) => m,
            None => line,
        },
        stack: or_empty(text_field(object, "stack_trace"@)),
    }
}

/// Makes the record of a line whose JSON fields are known.
pub fn normalize_with(
    line: &str,
    date: &str,
    labels: &Vec<(String, Json)>,
    object: &Vec<(String, Json)>,
) -> (r: Record)
    ensures
        r@ == record_of(line@, date@, fields(labels@), fields(object@)),
        r@.level.len() > 0,
        r@.service.len() > 0,
{
    proof {
        reveal_strlit("?");
    }
    let level = first_three(get(object, "level"), get(labels, "level"), get(labels, "detected_level"));
    let level = if level.as_str().is_empty() {
        owned("?")
    } else {
        to_uppercase(level.as_str())
    };
    let service = first_three(
        get(labels, "service_name"),
        get(labels, "app"),
        get(object, "application_name"),
    );
    let service = if service.as_str().is_empty() {
        owned("?")
    } else {
        service
    };
    let given: Option<String> = if date.is_empty() {
        None
    } else {
        Some(owned(date))
    };
    let msg = match get(object, "message") {
        Some(m) => m,
        None => owned(line),
    };
    Record {
        ts: first_two(given, get(object, "@timestamp")),
        level,
        service,
        pod: or_blank(get(labels, "pod")),
        namespace: or_blank(get(labels, "namespace")),
        logger: or_blank(get(object, "logger_name")),
        thread: or_blank(get(object, "thread_name")),
        trace: first_three(get(object, "traceId"), get(object, "trace_id"), get(labels, "TraceID")),
        msg,
        stack: or_blank(get(object, "stack_trace")),
    }
}

/// The fields of a line: those of the object that it holds, where it begins with a brace and
/// reads as one.
pub open spec fn line_fields(line: Seq<char>) -> Seq<(Seq<char>, JsonView)> {
    if begins(cut_front(line, CharSet::Space), "{"@) {
        match json_read(line) {
            Ok(JsonView::Object(o)) => o,
            _ => Seq::<(Seq<char>, JsonView)>::empty(),
        }
    } else {
        Seq::<(Seq<char>, JsonView)>::empty()
    }
}

fn object_in(line: &str) -> (r: Vec<(String, Json)>)
    ensures
        fields(r@) == line_fields(line@),
{
    let none: Vec<(String, Json)> = Vec::new();
    assert(fields(none@) =~= Seq::<(Seq<char>, JsonView)>::empty());
    if starts_with(trim_front(line, CharSet::Space).as_str(), "{") {
        match parse_json(line) {
            Ok(Json::Object(o)) => {
                proof {
                    crate::json::lemma_object(o);
                }
                o
            },
            _ => none,
        }
    } else {
        none
    }
}

/// Makes the record of a line.
pub fn normalize(line: &str, date: &str, labels: &Vec<(String, Json)>) -> (r: Record)
    ensures
        r@ == record_of(line@, date@, fields(labels@), line_fields(line@)),
        r@.level.len() > 0,
        r@.service.len() > 0,
{
    let object = object_in(line);
    normalize_with(line, date, labels, &object)
}

/// A timestamp for the eye: without the `T` and the `Z`, and to the millisecond.
pub open spec fn short_time(ts: Seq<char>) -> Seq<char> {
    if ts.len() == 0 {
        "?"@
    } else {
        first_chars(
            with_replaced(with_replaced(ts, 'T', " "@), 'Z', Seq::<char>::empty()),
            23,
        )
    }
}

/// Shortens a timestamp for the eye.
pub fn short_ts(ts: &str) -> (r: String)
    ensures
        r@ == short_time(ts@),
{
    if ts.is_empty() {
        return owned("?");
    }
    let none = String::new();
    let s = crate::text::replace_char(ts, 'T', " ");
    let s = crate::text::replace_char(s.as_str(), 'Z', none.as_str());
    take_chars(s.as_str(), 23)
}

/// A text on one line: without white space at its ends, and with each run of white space
/// inside replaced by one space.
pub open spec fn collapsed(s: Seq<char>) -> Seq<char> {
    if trimmed(s).len() == 0 {
        trimmed(s)
    } else {
        replaced(SPACES@, false, trimmed(s), " "@)
    }
}

/// A text cut to `n` characters, with an ellipsis as the last one where it is longer.
pub open spec fn cut_line(c: Seq<char>, n: int) -> Seq<char> {
    if c.len() <= n {
        c
    } else {
        c.take(n - 1).push('…')
    }
}

/// A text on one line, cut to `n` characters.
pub open spec fn one_line(s: Seq<char>, n: int) -> Seq<char> {
    cut_line(collapsed(s), n)
}

/// Cuts a text to `n` characters.
pub fn fit_line(c: String, n: usize) -> (r: String)
    requires
        n > 0 || c@.len() == 0,
    ensures
        r@ == cut_line(c@, n as int),
        r@.len() <= n,
{
    let v = chars_of(c.as_str());
    if v.len() <= n {
        c
    } else {
        let mut out = text_between(&v, 0, n - 1);
        assert(out@ =~= c@.take(n - 1));
        out.push('…');
        out
    }
}

/// Whether a text has no white space but plain spaces.
pub open spec fn on_one_line(s: Seq<char>) -> bool {
    forall|i: int| 0 <= i < s.len() && is_space(#[trigger] s[i]) ==> s[i] == ' '
}

proof fn lemma_joined_on_one_line(parts: Seq<Seq<char>>)
    requires
        forall|i: int, j: int|
            0 <= i < parts.len() && 0 <= j < parts[i].len() ==> !is_space(#[trigger] parts[i][j]),
    ensures
        on_one_line(joined(parts, " "@)),
    decreases parts.len(),
{
    reveal_strlit(" ");
    if parts.len() == 1 {
        assert forall|j: int| 0 <= j < parts[0].len() implies !is_space(#[trigger] joined(parts, " "@)[j]) by {
            assert(!is_space(parts[0][j]));
        }
    } else if parts.len() > 1 {
        let front = parts.drop_last();
        assert forall|i: int, j: int| 0 <= i < front.len() && 0 <= j < front[i].len() implies !is_space(
            #[trigger] front[i][j],
        ) by {
            assert(!is_space(parts[i][j]));
        }
        lemma_joined_on_one_line(front);
        let a = joined(front, " "@);
        let whole = joined(parts, " "@);
        assert forall|k: int| 0 <= k < whole.len() && is_space(#[trigger] whole[k]) implies whole[k] == ' ' by {
            if k < a.len() {
                assert(whole[k] == a[k]);
            } else if k > a.len() {
                assert(whole[k] == parts.last()[k - a.len() - 1]);
                assert(!is_space(parts[parts.len() - 1][k - a.len() - 1]));
            }
        }
    }
}

/// Puts a text on one line with a compiled pattern for runs of white space.
pub fn collapse(spaces: &Pattern, s: &str) -> (r: String)
    requires
        spaces.source() == SPACES@,
        !spaces.ignores_case(),
    ensures
        r@ == collapsed(s@),
        on_one_line(r@),
{
    let t = trim(s);
    if t.as_str().is_empty() {
        return t;
    }
    let parts = spaces.split(t.as_str());
    proof {
        let views = texts(parts@);
        assert forall|i: int, j: int| 0 <= i < views.len() && 0 <= j < views[i].len() implies !is_space(
            #[trigger] views[i][j],
        ) by {
            assert(views[i] == parts@[i]@);
            assert(!is_space(parts@[i]@[j]));
        }
        lemma_joined_on_one_line(views);
    }
    crate::text::join(&parts, " ")
}

/// Puts a text on one line of at most `n` characters with a compiled pattern for runs of
/// white space.
pub fn one_line_with(spaces: &Pattern, s: &str, n: usize) -> (r: String)
    requires
        spaces.source() == SPACES@,
        !spaces.ignores_case(),
        n > 0 || trimmed(s@).len() == 0,
    ensures
        r@ == one_line(s@, n as int),
        r@.len() <= n,
        on_one_line(r@),
{
    fit_line(collapse(spaces, s), n)
}

/// Puts a text on one line of at most `n` characters.
pub fn oneline(s: &str, n: usize) -> (r: String)
    requires
        n > 0 || trimmed(s@).len() == 0,
    ensures
        r@ == one_line(s@, n as int),
        r@.len() <= n,
        on_one_line(r@),
{
    one_line_with(&own_pattern(SPACES), s, n)
}

/// The signature of a message: lower case, long hexadecimal runs and numbers masked, on one
/// line of at most 120 characters.
pub open spec fn signature(msg: Seq<char>) -> Seq<char> {
    let masked = replaced(
        DIGITS@,
        false,
        replaced(HEX_RUN@, false, lowercase(msg), "<hex>"@),
        "<n>"@,
    );
    first_chars(collapsed(masked), 120)
}

/// The compiled patterns that signatures and one-line texts are made with.
pub struct Scrubber {
    pub hex: Pattern,
    pub digits: Pattern,
    pub spaces: Pattern,
}

impl Scrubber {
    /// Whether each pattern is the one it is meant to be.
    pub open spec fn wf(&self) -> bool {
        &&& self.hex.source() == HEX_RUN@ && !self.hex.ignores_case()
        &&& self.digits.source() == DIGITS@ && !self.digits.ignores_case()
        &&& self.spaces.source() == SPACES@ && !self.spaces.ignores_case()
    }

    /// Compiles the patterns.
    pub fn new() -> (r: Scrubber)
        ensures
            r.wf(),
    {
        Scrubber {
            hex: own_pattern(HEX_RUN),
            digits: own_pattern(DIGITS),
            spaces: own_pattern(SPACES),
        }
    }

    /// Makes the signature of a message.
    pub fn sig(&self, msg: &str) -> (r: String)
        requires
            self.wf(),
        ensures
            r@ == signature(msg@),
            r@.len() <= 120,
            on_one_line(r@),
    {
        let s = to_lowercase(msg);
        let s = self.hex.replace(s.as_str(), "<hex>");
        let s = self.digits.replace(s.as_str(), "<n>");
        let s = collapse(&self.spaces, s.as_str());
        take_chars(s.as_str(), 120)
    }

    /// Puts a text on one line of at most `n` characters.
    pub fn oneline(&self, s: &str, n: usize) -> (r: String)
        requires
            self.wf(),
            n > 0 || trimmed(s@).len() == 0,
        ensures
            r@ == one_line(s@, n as int),
            r@.len() <= n,
            on_one_line(r@),
    {
        one_line_with(&self.spaces, s, n)
    }
}

/// Makes the signature of a message.
pub fn sig(msg: &str) -> (r: String)
    ensures
        r@ == signature(msg@),
        r@.len() <= 120,
        on_one_line(r@),
{
    Scrubber::new().sig(msg)
}

proof fn lemma_tail(s: Seq<char>, sep: char, from: int)
    requires
        0 <= from <= s.len(),
        from > 0 ==> s[from - 1] == sep,
        forall|i: int| from <= i < s.len() ==> s[i] != sep,
    ensures
        tail_part(s, sep) == s.skip(from),
    decreases s.len(),
{
    crate::text::lemma_split_nonempty(s, sep);
    if s.len() == 0 {
        assert(split_at(s, sep).last() =~= s.skip(from));
    } else if from == s.len() {
        assert(s.last() == sep);
        assert(split_at(s, sep).last() =~= s.skip(from));
    } else {
        crate::text::lemma_split_nonempty(s.drop_last(), sep);
        lemma_tail(s.drop_last(), sep, from);
        assert(s.drop_last().skip(from).push(s.last()) =~= s.skip(from));
    }
}

/// The part of a dotted name after its last dot.
pub fn last_segment<'a>(s: &'a str) -> (r: &'a str)
    ensures
        r@ == tail_part(s@, '.'),
{
    let v = chars_of(s);
    let mut from: usize = v.len();
    while from > 0 && v[from - 1] != '.'
        invariant
            v@ == s@,
            from <= v@.len(),
            forall|i: int| from <= i < v@.len() ==> v@[i] != '.',
        decreases from,
    {
        from = from - 1;
    }
    proof {
        lemma_tail(s@, '.', from as int);
        assert(s@.subrange(from as int, s@.len() as int) =~= s@.skip(from as int));
    }
    s.substring_char(from, v.len())
}

/// Milliseconds since the epoch of a point in time.
pub open spec fn millis_of(t: (i64, u32)) -> int {
    t.0 * 1000 + t.1 / 1_000_000
}

/// Gives the milliseconds since the epoch of a point in time.
pub fn millis(t: (i64, u32)) -> (r: i64)
    requires
        crate::clock::in_calendar(t.0 as int),
    ensures
        r == millis_of(t),
{
    t.0 * 1000 + (t.1 / 1_000_000) as i64
}

/// The milliseconds since the epoch that a timestamp stands for, where it is one: a date and a
/// time of day, with a fraction or without, a `Z` at the end or none.
pub open spec fn epoch_millis(ts: Seq<char>) -> Option<int> {
    let t = cut_back(trimmed(ts), CharSet::Only('Z'));
    match naive_instant(t, FRACTION_FORM@) {
        Some(p) => Some(millis_of(p)),
        None => match naive_instant(t, SECOND_FORM@) {
            Some(p) => Some(millis_of(p)),
            None => None,
        },
    }
}

/// Whether a number of milliseconds lies in the calendar.
pub open spec fn millis_in_calendar(ms: int) -> bool {
    -8_400_000_000_002_000 <= ms <= 8_400_000_000_002_000
}

/// Reads a timestamp as milliseconds since the epoch.
pub fn ts_epoch_ms(ts: &str) -> (r: Option<i64>)
    ensures
        match r {
            Some(ms) => epoch_millis(ts@) == Some(ms as int) && millis_in_calendar(ms as int),
            None => epoch_millis(ts@) is None,
        },
{
    let t = trim_back(trim(ts).as_str(), CharSet::Only('Z'));
    let p = match read_naive(t.as_str(), FRACTION_FORM) {
        Some(p) => Some(p),
        None => read_naive(t.as_str(), SECOND_FORM),
    };
    match p {
        Some(p) => Some(millis(p)),
        None => None,
    }
}

/// A line that does not begin with a brace is its own message, and has no logger, thread or
/// stack.
pub proof fn plain_line_is_its_own_message(
    line: Seq<char>,
    date: Seq<char>,
    labels: Seq<(Seq<char>, JsonView)>,
)
    requires
        !begins(cut_front(line, CharSet::Space), "{"@),
    ensures
        record_of(line, date, labels, line_fields(line)).msg == line,
        record_of(line, date, labels, line_fields(line)).logger.len() == 0,
        record_of(line, date, labels, line_fields(line)).thread.len() == 0,
        record_of(line, date, labels, line_fields(line)).stack.len() == 0,
{
}

} // verus!
