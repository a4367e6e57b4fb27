//! Exports: log records in files that Grafana has written.

use crate::cli::Filter;
use crate::json::{
    as_fields, as_items, as_str, field_of, fields, find_field, items, json_read, lemma_array, parse_json, str_at,
    Json, JsonView,
};
use crate::live::reply::{count_note, map_of, note_count, RecordReport, RecordReportView};
use crate::record::{line_fields, normalize, push_record, record_of, records, Record, RecordView};
use crate::text::{contains_char, opt_str, owned, push_text, texts};
use crate::views::{apply_filter, keeps, possible_output, try_dispatch};
use vstd::prelude::*;

verus! {

/// A place to look for an export in.
pub enum Lookup {
    /// this file
    File(String),
    /// the newest file that matches this pattern
    Glob(String),
    /// the file of this name among the downloads
    Download(String),
    /// the newest export among the downloads
    Exports,
}

/// The model of a place to look in.
#[verifier::ext_equal]
pub enum LookupView {
    File(Seq<char>),
    Glob(Seq<char>),
    Download(Seq<char>),
    Exports,
}

impl View for Lookup {
    type V = LookupView;

    open spec fn view(&self) -> LookupView {
        match self {
            Lookup::File(s) => LookupView::File(s@),
            Lookup::Glob(s) => LookupView::Glob(s@),
            Lookup::Download(s) => LookupView::Download(s@),
            Lookup::Exports => LookupView::Exports,
        }
    }
}

/// The views of places to look in.
pub open spec fn lookup_views(v: Seq<Lookup>) -> Seq<LookupView> {
    v.map_values(|l: Lookup| l@)
}

/// Where an export is looked for, in this order: the file that is named, the newest that its
/// name matches as a pattern, the download of that name, the newest export that was downloaded.
pub open spec fn lookups(arg: Option<Seq<char>>) -> Seq<LookupView> {
    match arg {
        Some(a) => seq![LookupView::File(a)] + (if a.contains('*') || a.contains('?') {
            seq![LookupView::Glob(a)]
        } else {
            Seq::<LookupView>::empty()
        }) + seq![LookupView::Download(a), LookupView::Exports],
        None => seq![LookupView::Exports],
    }
}

/// Says where an export is looked for.
pub fn resolve(arg: Option<&str>) -> (r: Vec<Lookup>)
    ensures
        lookup_views(r@) == lookups(opt_str(arg)),
{
    let mut out: Vec<Lookup> = Vec::new();
    if let Some(a) = arg {
        out.push(Lookup::File(owned(a)));
        if contains_char(a, '*') || contains_char(a, '?') {
            out.push(Lookup::Glob(owned(a)));
        }
        out.push(Lookup::Download(owned(a)));
    }
    out.push(Lookup::Exports);
    assert(lookup_views(out@) =~= lookups(opt_str(arg)));
    out
}

/// The patterns of exports among the downloads.
pub fn export_patterns() -> (r: Vec<String>)
    ensures
        texts(r@) == seq!["Logs-*.json"@, "Explore-logs-*.json"@],
{
    let mut v: Vec<String> = Vec::new();
    push_text(&mut v, owned("Logs-*.json"));
    push_text(&mut v, owned("Explore-logs-*.json"));
    assert(texts(v@) =~= seq!["Logs-*.json"@, "Explore-logs-*.json"@]);
    v
}

/// Whether a place holds the latest of the times that are known, the last one where several are.
pub open spec fn is_newest(times: Seq<Option<i128>>, at: int) -> bool {
    &&& 0 <= at < times.len()
    &&& times[at] is Some
    &&& forall|i: int|
        0 <= i < times.len() && (#[trigger] times[i]) is Some ==> times[i]->0 <= times[at]->0 && (i > at
            ==> times[i]->0 < times[at]->0)
}

/// Finds the latest of times, where any is known.
pub fn newest(times: &Vec<Option<i128>>) -> (r: Option<usize>)
    ensures
        match r {
            Some(at) => is_newest(times@, at as int),
            None => forall|i: int| 0 <= i < times@.len() ==> (#[trigger] times@[i]) is None,
        },
{
    let mut best: Option<usize> = None;
    for i in 0..times.len()
        invariant
            match best {
                Some(at) => at < i && times@[at as int] is Some && forall|k: int|
                    0 <= k < i && (#[trigger] times@[k]) is Some ==> times@[k]->0 <= times@[at as int]->0 && (k
                        > at ==> times@[k]->0 < times@[at as int]->0),
                None => forall|k: int| 0 <= k < i ==> (#[trigger] times@[k]) is None,
            },
    {
        if let Some(t) = times[i] {
            match best {
                Some(at) => {
                    if let Some(b) = times[at] {
                        if t >= b {
                            best = Some(i);
                        }
                    }
                },
                None => {
                    best = Some(i);
                },
            }
        }
    }
    best
}

/// The entries of an export: a list, the list under `data` or `logs`, or the one value.
pub open spec fn entries_of(data: JsonView) -> Seq<JsonView> {
    match data {
        JsonView::Array(a) => a,
        JsonView::Object(o) => {
            let under = match field_of(o, "data"@) {
                Some(j) => Some(j),
                None => field_of(o, "logs"@),
            };
            match under {
                Some(JsonView::Array(a)) => a,
                _ => seq![data],
            }
        },
        other => seq![other],
    }
}

/// A field of an entry that is a text, or the empty text.
pub open spec fn entry_text(v: JsonView, key: Seq<char>) -> Seq<char> {
    match str_at(v, key) {
        Some(s) => s,
        None => ""@,
    }
}

/// The record of an entry.
pub open spec fn entry_record(v: JsonView) -> RecordView {
    let line = entry_text(v, "line"@);
    record_of(line, entry_text(v, "date"@), map_of(crate::json::member(v, "fields"@)), line_fields(line))
}

/// Reads the record of an entry.
pub fn rec_from_value(v: &Json) -> (r: Record)
    ensures
        r@ == entry_record(v@),
{
    let none: Vec<(String, Json)> = Vec::new();
    assert(fields(none@) =~= Seq::<(Seq<char>, JsonView)>::empty());
    let line = match v.get_str("line") {
        Some(s) => s,
        None => owned(""),
    };
    let date = match v.get_str("date") {
        Some(s) => s,
        None => owned(""),
    };
    let labels = match as_fields(v.get("fields")) {
        Some(f) => f,
        None => &none,
    };
    normalize(line.as_str(), date.as_str(), labels)
}

/// The records of an export.
pub open spec fn export_records(data: JsonView) -> Seq<RecordView> {
    entries_of(data).map_values(|v: JsonView| entry_record(v))
}

fn read_entries(a: &Vec<Json>) -> (r: Vec<Record>)
    ensures
        records(r@) == items(a@).map_values(|v: JsonView| entry_record(v)),
{
    let ghost whole = items(a@).map_values(|v: JsonView| entry_record(v));
    let mut out: Vec<Record> = Vec::new();
    for i in 0..a.len()
        invariant
            whole == items(a@).map_values(|v: JsonView| entry_record(v)),
            records(out@) == whole.take(i as int),
    {
        let ghost so_far = records(out@);
        push_record(&mut out, rec_from_value(&a[i]));
        assert(whole.take(i as int + 1) =~= so_far.push(whole[i as int]));
    }
    assert(whole.take(a@.len() as int) =~= whole);
    out
}

fn read_single(data: &Json) -> (r: Vec<Record>)
    ensures
        records(r@) == seq![entry_record(data@)],
{
    let mut out: Vec<Record> = Vec::new();
    push_record(&mut out, rec_from_value(data));
    assert(records(out@) =~= seq![entry_record(data@)]);
    out
}

/// Reads the records of an export that has been parsed.
pub fn read_export(data: &Json) -> (r: Vec<Record>)
    ensures
        records(r@) == export_records(data@),
{
    proof {
        assert(seq![data@].map_values(|v: JsonView| entry_record(v)) =~= seq![entry_record(data@)]);
    }
    match data {
        Json::Array(a) => {
            proof {
                lemma_array(*a);
            }
            read_entries(a)
        },
        Json::Object(o) => {
            proof {
                crate::json::lemma_object(*o);
            }
            let under = match find_field(o, "data") {
                Some(j) => Some(j),
                None => find_field(o, "logs"),
            };
            match as_items(under) {
                Some(a) => read_entries(a),
                None => read_single(data),
            }
        },
        _ => read_single(data),
    }
}

/// The records that a text holds, or what is wrong with it.
pub open spec fn loaded(text: Seq<char>, src: Seq<char>) -> Result<Seq<RecordView>, Seq<char>> {
    match json_read(text) {
        Ok(data) => Ok(export_records(data)),
        Err(e) => Err("invalid JSON in "@ + src + ": "@ + e),
    }
}

/// Reads the records that a text holds; `src` is where the text comes from.
pub fn load_text(text: &str, src: &str) -> (r: Result<Vec<Record>, String>)
    ensures
        match r {
            Ok(v) => loaded(text@, src@) == Ok::<Seq<RecordView>, Seq<char>>(records(v@)),
            Err(e) => loaded(text@, src@) == Err::<Seq<RecordView>, Seq<char>>(e@),
        },
{
    match parse_json(text) {
        Ok(data) => Ok(read_export(&data)),
        Err(e) => {
            let mut s = owned("invalid JSON in ");
            s.append(src);
            s.append(": ");
            s.append(e.as_str());
            Err(s)
        },
    }
}

/// The report on the records of an export.
pub open spec fn file_report(
    recs: Seq<RecordView>,
    name: Seq<char>,
    filter: crate::cli::FilterView,
    view: crate::cli::View,
    json_out: bool,
    full: bool,
) -> RecordReportView {
    let kept = recs.filter(|r: RecordView| keeps(filter, r));
    RecordReportView {
        header: "# "@ + name + count_note(kept.len(), recs.len(), "records"@),
        output: possible_output(kept, view, json_out, full),
    }
}

/// Reports on the records of an export.
pub fn report_file(
    recs: Vec<Record>,
    name: &str,
    filter: &Filter,
    view: &crate::cli::View,
    json_out: bool,
    full: bool,
) -> (r: RecordReport)
    ensures
        r@ == file_report(records(recs@), name@, filter@, *view, json_out, full),
{
    let total: usize = recs.len();
    assert(records(recs@).len() == total);
    let kept = apply_filter(recs, filter);
    assert(records(kept@).len() == kept@.len());
    let mut s = owned("# ");
    s.append(name);
    s.append(note_count(kept.len(), total, "records").as_str());
    let output = try_dispatch(kept.as_slice(), view, json_out, full);
    RecordReport { header: s, output }
}

} // verus!
