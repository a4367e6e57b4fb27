//! Series: what Prometheus sends back for a query.

use super::panels::{read_str_or, str_or};
use super::table::{entry_at, with_entry, Table};
use crate::json::{
    as_fields, as_items, as_str, fields, items, items_of, lemma_array, member, member2, str_at, str_of, Json,
    JsonView,
};
use crate::live::reply::map_of;
use crate::order::{ints, order_by_text, stable_order, text_order};
use crate::patterns::{group, group_of, match_views, own_pattern, regex_matches, regex_pieces, weave, woven, LEGEND_LABEL};
use crate::text::{join, joined, opt_str, opt_text, owned, push_text, quote, quoted, texts};
use vstd::prelude::*;

verus! {

/// Labels with their values, in order; what is no text counts as the empty one.
pub open spec fn labels_of(m: Seq<(Seq<char>, JsonView)>) -> Seq<(Seq<char>, Seq<char>)>
    decreases m.len(),
{
    if m.len() == 0 {
        Seq::<(Seq<char>, Seq<char>)>::empty()
    } else {
        with_entry(
            labels_of(m.drop_last()),
            m.last().0,
            match str_of(Some(m.last().1)) {
                Some(v) => v,
                None => ""@,
            },
        )
    }
}

/// Puts labels with their values in order.
pub fn ordered_labels(m: &Vec<(String, Json)>) -> (r: Table)
    ensures
        r@ == labels_of(fields(m@)),
        r.wf(),
{
    let ghost all = fields(m@);
    let mut t = Table::new();
    assert(t@ =~= labels_of(all.take(0)));
    for i in 0..m.len()
        invariant
            all == fields(m@),
            t@ == labels_of(all.take(i as int)),
            t.wf(),
    {
        assert(all.take(i as int + 1).drop_last() =~= all.take(i as int));
        assert(all.take(i as int + 1).last() == (m@[i as int].0@, m@[i as int].1@));
        let v = match as_str(Some(&m[i].1)) {
            Some(v) => v,
            None => owned(""),
        };
        t.insert(m[i].0.as_str(), v.as_str());
    }
    assert(all.take(m@.len() as int) =~= all);
    t
}

/// A label with its value in quotes.
pub open spec fn label_text(e: (Seq<char>, Seq<char>)) -> Seq<char> {
    e.0 + "=\""@ + e.1 + "\""@
}

/// Labels in braces.
pub open spec fn labels_text(labels: Seq<(Seq<char>, Seq<char>)>) -> Seq<char> {
    "{"@ + joined(labels.map_values(|e: (Seq<char>, Seq<char>)| label_text(e)), ", "@) + "}"@
}

/// Writes labels in braces.
pub fn label_set(labels: &Table) -> (r: String)
    ensures
        r@ == labels_text(labels@),
{
    let ghost whole = labels@.map_values(|e: (Seq<char>, Seq<char>)| label_text(e));
    let mut out: Vec<String> = Vec::new();
    let n: usize = labels.entries.len();
    for i in 0..n
        invariant
            n == labels.entries@.len(),
            whole == labels@.map_values(|e: (Seq<char>, Seq<char>)| label_text(e)),
            texts(out@) == whole.take(i as int),
    {
        let ghost so_far = texts(out@);
        let mut s = owned(labels.entries[i].0.as_str());
        s.append("=\"");
        s.append(labels.entries[i].1.as_str());
        s.append("\"");
        push_text(&mut out, s);
        assert(whole.take(i as int + 1) =~= so_far.push(whole[i as int]));
    }
    assert(whole.take(n as int) =~= whole);
    let mut s = owned("{");
    s.append(join(&out, ", ").as_str());
    s.append("}");
    s
}

/// What a place in a legend is filled with: the value of the label, or the place as it stands
/// where there is no such label.
pub open spec fn legend_filling(m: Seq<Option<Seq<char>>>, labels: Seq<(Seq<char>, Seq<char>)>) -> Seq<char> {
    let whole = match group_of(m, 0) {
        Some(s) => s,
        None => ""@,
    };
    match group_of(m, 1) {
        Some(n) => match entry_at(labels, n) {
            Some(v) => v,
            None => whole,
        },
        None => whole,
    }
}

/// The legend of a series: the template with its places filled, or the labels where there is no
/// template.
pub open spec fn legend_text(template: Option<Seq<char>>, labels: Seq<(Seq<char>, Seq<char>)>) -> Seq<char> {
    match template {
        Some(t) if t.len() > 0 => woven(
            regex_pieces(LEGEND_LABEL@, false, t),
            regex_matches(LEGEND_LABEL@, false, t).map_values(
                |m: Seq<Option<Seq<char>>>| legend_filling(m, labels),
            ),
        ),
        _ => labels_text(labels),
    }
}

/// Finds what a place in a legend is filled with.
pub fn fill_legend(m: &Vec<Option<String>>, labels: &Table) -> (r: String)
    ensures
        r@ == legend_filling(m@.map_values(|g: Option<String>| opt_text(g)), labels@),
{
    let whole = match group(m, 0) {
        Some(s) => s,
        None => owned(""),
    };
    match group(m, 1) {
        Some(n) => match labels.get(n.as_str()) {
            Some(v) => v,
            None => whole,
        },
        None => whole,
    }
}

/// Writes the legend of a series.
pub fn legend(template: Option<&str>, labels: &Table) -> (r: String)
    ensures
        r@ == legend_text(opt_str(template), labels@),
{
    let t = match template {
        Some(t) => t,
        None => {
            return label_set(labels);
        },
    };
    if t.is_empty() {
        return label_set(labels);
    }
    let pattern = own_pattern(LEGEND_LABEL);
    let ms = pattern.matches(t);
    let ghost all = match_views(ms@);
    let ghost whole = all.map_values(|m: Seq<Option<Seq<char>>>| legend_filling(m, labels@));
    assert(all.len() == ms@.len());
    let mut fillings: Vec<String> = Vec::new();
    for i in 0..ms.len()
        invariant
            all == match_views(ms@),
            whole == all.map_values(|m: Seq<Option<Seq<char>>>| legend_filling(m, labels@)),
            texts(fillings@) == whole.take(i as int),
            fillings@.len() == i,
    {
        let ghost so_far = texts(fillings@);
        assert(all[i as int] == ms@[i as int]@.map_values(|g: Option<String>| opt_text(g)));
        push_text(&mut fillings, fill_legend(&ms[i], labels));
        assert(whole.take(i as int + 1) =~= so_far.push(whole[i as int]));
    }
    assert(whole.take(ms@.len() as int) =~= whole);
    let parts = pattern.split(t);
    weave(&parts, &fillings)
}

/// A series as it came: its labels, and the texts of its samples.
pub struct Samples {
    pub labels: Table,
    pub values: Vec<String>,
}

/// The model of a series as it came.
#[verifier::ext_equal]
pub struct SamplesView {
    pub labels: Seq<(Seq<char>, Seq<char>)>,
    pub values: Seq<Seq<char>>,
}

impl View for Samples {
    type V = SamplesView;

    open spec fn view(&self) -> SamplesView {
        SamplesView { labels: self.labels@, values: texts(self.values@) }
    }
}

/// The views of series.
pub open spec fn sample_views(v: Seq<Samples>) -> Seq<SamplesView> {
    v.map_values(|s: Samples| s@)
}

/// What was read of a reply: the series up to the first thing that is wrong, and what is wrong,
/// if anything is.
pub struct Scan {
    pub series: Vec<Samples>,
    pub fault: Option<String>,
}

/// The model of what was read of a reply.
#[verifier::ext_equal]
pub struct ScanView {
    pub series: Seq<SamplesView>,
    pub fault: Option<Seq<char>>,
}

impl View for Scan {
    type V = ScanView;

    open spec fn view(&self) -> ScanView {
        ScanView { series: sample_views(self.series@), fault: opt_text(self.fault) }
    }
}

/// The text of a sample: the second of a pair.
pub open spec fn sample_in(pair: JsonView) -> Result<Seq<char>, Seq<char>> {
    match pair {
        JsonView::Array(a) => if a.len() < 2 {
            Err("malformed Prometheus sample"@)
        } else {
            match str_of(Some(a[1])) {
                Some(s) => Ok(s),
                None => Err("Prometheus sample value is not a string"@),
            }
        },
        _ => Err("malformed Prometheus sample"@),
    }
}

/// The texts of samples up to the first thing that is wrong, and what is wrong.
pub open spec fn samples_in(rows: Seq<JsonView>) -> (Seq<Seq<char>>, Option<Seq<char>>)
    decreases rows.len(),
{
    if rows.len() == 0 {
        (Seq::<Seq<char>>::empty(), None)
    } else {
        let before = samples_in(rows.drop_last());
        match before.1 {
            Some(_) => before,
            None => match sample_in(rows.last()) {
                Ok(s) => (before.0.push(s), None),
                Err(e) => (before.0, Some(e)),
            },
        }
    }
}

/// A scan after another series.
pub open spec fn with_series(before: ScanView, result: JsonView) -> ScanView {
    match items_of(member(result, "values"@)) {
        None => ScanView { series: before.series, fault: Some("Prometheus series has no values array"@) },
        Some(rows) => ScanView {
            series: before.series.push(
                SamplesView { labels: labels_of(map_of(member(result, "metric"@))), values: samples_in(rows).0 },
            ),
            fault: samples_in(rows).1,
        },
    }
}

/// What is read of the results of a reply.
pub open spec fn scan_of(results: Seq<JsonView>) -> ScanView
    decreases results.len(),
{
    if results.len() == 0 {
        ScanView { series: Seq::<SamplesView>::empty(), fault: None }
    } else {
        let before = scan_of(results.drop_last());
        match before.fault {
            Some(_) => before,
            None => with_series(before, results.last()),
        }
    }
}

/// What is read of a reply, or why there is nothing to be read in it.
pub open spec fn reply_scan(value: JsonView) -> Result<ScanView, Seq<char>> {
    if str_at(value, "status"@) != Some("success"@) {
        Err(
            "Prometheus query failed ("@ + str_or(value, "errorType"@, "unknown"@) + "): "@ + str_or(
                value,
                "error"@,
                "unknown error"@,
            ),
        )
    } else {
        let kind = match str_of(member2(value, "data"@, "resultType"@)) {
            Some(s) => s,
            None => ""@,
        };
        if kind != "matrix"@ {
            Err("Prometheus range query returned unsupported result type "@ + quoted(kind))
        } else {
            match items_of(member2(value, "data"@, "result"@)) {
                Some(results) => Ok(scan_of(results)),
                None => Err("Prometheus response has no data.result array"@),
            }
        }
    }
}

fn read_sample(pair: &Json) -> (r: Result<String, String>)
    ensures
        crate::live::scope::text_outcome(r) == sample_in(pair@),
{
    match pair {
        Json::Array(a) => {
            proof {
                lemma_array(*a);
                assert(items(a@).len() == a@.len());
            }
            if a.len() < 2 {
                return Err(owned("malformed Prometheus sample"));
            }
            assert(items(a@)[1] == a@[1]@);
            match as_str(Some(&a[1])) {
                Some(s) => Ok(s),
                None => Err(owned("Prometheus sample value is not a string")),
            }
        },
        _ => Err(owned("malformed Prometheus sample")),
    }
}

proof fn lemma_samples_stop(rows: Seq<JsonView>, n: int)
    requires
        0 <= n <= rows.len(),
        samples_in(rows.take(n)).1 is Some,
    ensures
        samples_in(rows) == samples_in(rows.take(n)),
    decreases rows.len() - n,
{
    if n < rows.len() {
        assert(rows.take(n + 1).drop_last() =~= rows.take(n));
        lemma_samples_stop(rows, n + 1);
    } else {
        assert(rows.take(n) =~= rows);
    }
}

fn read_samples(rows: &Vec<Json>) -> (r: (Vec<String>, Option<String>))
    ensures
        samples_in(items(rows@)) == (texts(r.0@), opt_text(r.1)),
{
    let ghost all = items(rows@);
    let mut out: Vec<String> = Vec::new();
    assert(texts(out@) =~= Seq::<Seq<char>>::empty());
    for i in 0..rows.len()
        invariant
            all == items(rows@),
            samples_in(all.take(i as int)) == (texts(out@), None::<Seq<char>>),
    {
        assert(all.take(i as int + 1).drop_last() =~= all.take(i as int));
        assert(all.take(i as int + 1).last() == rows@[i as int]@);
        match read_sample(&rows[i]) {
            Ok(s) => {
                push_text(&mut out, s);
            },
            Err(e) => {
                proof {
                    lemma_samples_stop(all, i as int + 1);
                }
                return (out, Some(e));
            },
        }
    }
    assert(all.take(rows@.len() as int) =~= all);
    (out, None)
}

proof fn lemma_scan_stops(results: Seq<JsonView>, n: int)
    requires
        0 <= n <= results.len(),
        scan_of(results.take(n)).fault is Some,
    ensures
        scan_of(results) == scan_of(results.take(n)),
    decreases results.len() - n,
{
    if n < results.len() {
        assert(results.take(n + 1).drop_last() =~= results.take(n));
        lemma_scan_stops(results, n + 1);
    } else {
        assert(results.take(n) =~= results);
    }
}

fn scan_results(results: &Vec<Json>) -> (r: Scan)
    ensures
        r@ == scan_of(items(results@)),
        forall|i: int| 0 <= i < r.series@.len() ==> (#[trigger] r.series@[i]).labels.wf(),
{
    let none: Vec<(String, Json)> = Vec::new();
    assert(fields(none@) =~= Seq::<(Seq<char>, JsonView)>::empty());
    let ghost all = items(results@);
    let mut out: Vec<Samples> = Vec::new();
    assert(sample_views(out@) =~= Seq::<SamplesView>::empty());
    for i in 0..results.len()
        invariant
            all == items(results@),
            fields(none@) == Seq::<(Seq<char>, JsonView)>::empty(),
            scan_of(all.take(i as int)) == (ScanView { series: sample_views(out@), fault: None }),
            forall|k: int| 0 <= k < out@.len() ==> (#[trigger] out@[k]).labels.wf(),
    {
        let ghost so_far = sample_views(out@);
        assert(all.take(i as int + 1).drop_last() =~= all.take(i as int));
        assert(all.take(i as int + 1).last() == results@[i as int]@);
        let metric = match as_fields(results[i].get("metric")) {
            Some(m) => m,
            None => &none,
        };
        let labels = ordered_labels(metric);
        match as_items(results[i].get("values")) {
            None => {
                proof {
                    lemma_scan_stops(all, i as int + 1);
                }
                return Scan { series: out, fault: Some(owned("Prometheus series has no values array")) };
            },
            Some(rows) => {
                let (values, fault) = read_samples(rows);
                let s = Samples { labels, values };
                let ghost sv = s@;
                out.push(s);
                assert(sample_views(out@) =~= so_far.push(sv));
                if fault.is_some() {
                    proof {
                        lemma_scan_stops(all, i as int + 1);
                    }
                    return Scan { series: out, fault };
                }
            },
        }
    }
    assert(all.take(results@.len() as int) =~= all);
    Scan { series: out, fault: None }
}

/// The view of a scan or of why there is none.
pub open spec fn scan_outcome(r: Result<Scan, String>) -> Result<ScanView, Seq<char>> {
    match r {
        Ok(s) => Ok(s@),
        Err(e) => Err(e@),
    }
}

/// Reads a reply of Prometheus, all but the numbers in it.
pub fn parse_prometheus(value: &Json) -> (r: Result<Scan, String>)
    ensures
        scan_outcome(r) == reply_scan(value@),
        r matches Ok(s) ==> forall|i: int| 0 <= i < s.series@.len() ==> (#[trigger] s.series@[i]).labels.wf(),
{
    let ok = match value.get_str("status") {
        Some(s) => *s.as_str() == *"success",
        None => false,
    };
    if !ok {
        let mut e = owned("Prometheus query failed (");
        e.append(read_str_or(value, "errorType", "unknown").as_str());
        e.append("): ");
        e.append(read_str_or(value, "error", "unknown error").as_str());
        return Err(e);
    }
    let kind = match as_str(value.get2("data", "resultType")) {
        Some(s) => s,
        None => owned(""),
    };
    if !(*kind.as_str() == *"matrix") {
        let mut e = owned("Prometheus range query returned unsupported result type ");
        e.append(quote(kind.as_str()).as_str());
        return Err(e);
    }
    match as_items(value.get2("data", "result")) {
        Some(results) => Ok(scan_results(results)),
        None => Err(owned("Prometheus response has no data.result array")),
    }
}

/// What the text of a sample is as a number.
#[derive(Clone, Copy, PartialEq, Eq, Structural)]
pub enum Verdict {
    /// a number
    Finite,
    /// infinite, or not a number
    NonFinite,
    /// no text of a number
    Invalid,
}

/// The complaint about a sample, unless it is a number.
pub open spec fn sample_complaint(raw: Seq<char>, verdict: Verdict) -> Option<Seq<char>> {
    match verdict {
        Verdict::Finite => None,
        Verdict::NonFinite => Some("non-finite Prometheus sample value "@ + quoted(raw)),
        Verdict::Invalid => Some("invalid Prometheus sample value "@ + quoted(raw)),
    }
}

/// The complaint about the first sample that is no number.
pub open spec fn values_complaint(values: Seq<Seq<char>>, verdicts: Seq<Verdict>) -> Option<Seq<char>>
    decreases values.len(),
{
    if values.len() == 0 || verdicts.len() != values.len() {
        None
    } else {
        match values_complaint(values.drop_last(), verdicts.drop_last()) {
            Some(e) => Some(e),
            None => sample_complaint(values.last(), verdicts.last()),
        }
    }
}

/// The verdicts on the samples of series.
pub open spec fn verdict_views(v: Seq<Vec<Verdict>>) -> Seq<Seq<Verdict>> {
    v.map_values(|w: Vec<Verdict>| w@)
}

/// The complaint about the first sample of series that is no number.
pub open spec fn series_complaint(series: Seq<SamplesView>, verdicts: Seq<Seq<Verdict>>) -> Option<Seq<char>>
    decreases series.len(),
{
    if series.len() == 0 || verdicts.len() != series.len() {
        None
    } else {
        match series_complaint(series.drop_last(), verdicts.drop_last()) {
            Some(e) => Some(e),
            None => values_complaint(series.last().values, verdicts.last()),
        }
    }
}

/// Whether there is one verdict for every sample.
pub open spec fn judges(verdicts: Seq<Seq<Verdict>>, series: Seq<SamplesView>) -> bool {
    &&& verdicts.len() == series.len()
    &&& forall|i: int| 0 <= i < series.len() ==> (#[trigger] verdicts[i]).len() == series[i].values.len()
}

/// The places of the series that have samples.
pub open spec fn sampled(series: Seq<SamplesView>) -> Seq<int>
    decreases series.len(),
{
    if series.len() == 0 {
        Seq::<int>::empty()
    } else if series.last().values.len() > 0 {
        sampled(series.drop_last()).push(series.len() - 1)
    } else {
        sampled(series.drop_last())
    }
}

/// The places of the series that have samples, in the order of their labels.
pub open spec fn series_order(series: Seq<SamplesView>) -> Seq<int> {
    let at = sampled(series);
    let keys = at.map_values(|i: int| labels_text(series[i].labels));
    stable_order(at.len(), text_order(keys)).map_values(|k: int| at[k])
}

/// The series of a reply in order, or the complaint about the first thing in it that is wrong:
/// a sample that is no number, or what stopped the reading.
pub open spec fn judged(scan: ScanView, verdicts: Seq<Seq<Verdict>>) -> Result<Seq<int>, Seq<char>> {
    match series_complaint(scan.series, verdicts) {
        Some(e) => Err(e),
        None => match scan.fault {
            Some(e) => Err(e),
            None => Ok(series_order(scan.series)),
        },
    }
}

fn complain_sample(raw: &str, verdict: Verdict) -> (r: Option<String>)
    ensures
        opt_text(r) == sample_complaint(raw@, verdict),
{
    match verdict {
        Verdict::Finite => None,
        Verdict::NonFinite => {
            let mut e = owned("non-finite Prometheus sample value ");
            e.append(quote(raw).as_str());
            Some(e)
        },
        Verdict::Invalid => {
            let mut e = owned("invalid Prometheus sample value ");
            e.append(quote(raw).as_str());
            Some(e)
        },
    }
}

proof fn lemma_values_stop(values: Seq<Seq<char>>, verdicts: Seq<Verdict>, n: int)
    requires
        verdicts.len() == values.len(),
        0 <= n <= values.len(),
        values_complaint(values.take(n), verdicts.take(n)) is Some,
    ensures
        values_complaint(values, verdicts) == values_complaint(values.take(n), verdicts.take(n)),
    decreases values.len() - n,
{
    if n < values.len() {
        assert(values.take(n + 1).drop_last() =~= values.take(n));
        assert(verdicts.take(n + 1).drop_last() =~= verdicts.take(n));
        lemma_values_stop(values, verdicts, n + 1);
    } else {
        assert(values.take(n) =~= values);
        assert(verdicts.take(n) =~= verdicts);
    }
}

fn complain_values(values: &Vec<String>, verdicts: &Vec<Verdict>) -> (r: Option<String>)
    requires
        verdicts@.len() == values@.len(),
    ensures
        opt_text(r) == values_complaint(texts(values@), verdicts@),
{
    let ghost all = texts(values@);
    let ghost says = verdicts@;
    assert(values_complaint(all.take(0), says.take(0)) is None);
    for i in 0..values.len()
        invariant
            all == texts(values@),
            says == verdicts@,
            says.len() == all.len(),
            values_complaint(all.take(i as int), says.take(i as int)) is None,
    {
        assert(all.take(i as int + 1).drop_last() =~= all.take(i as int));
        assert(says.take(i as int + 1).drop_last() =~= says.take(i as int));
        assert(all.take(i as int + 1).last() == values@[i as int]@);
        assert(says.take(i as int + 1).last() == says[i as int]);
        if let Some(e) = complain_sample(values[i].as_str(), verdicts[i]) {
            proof {
                lemma_values_stop(all, says, i as int + 1);
            }
            return Some(e);
        }
    }
    assert(all.take(values@.len() as int) =~= all);
    assert(says.take(values@.len() as int) =~= says);
    None
}

proof fn lemma_series_stop(series: Seq<SamplesView>, verdicts: Seq<Seq<Verdict>>, n: int)
    requires
        verdicts.len() == series.len(),
        0 <= n <= series.len(),
        series_complaint(series.take(n), verdicts.take(n)) is Some,
    ensures
        series_complaint(series, verdicts) == series_complaint(series.take(n), verdicts.take(n)),
    decreases series.len() - n,
{
    if n < series.len() {
        assert(series.take(n + 1).drop_last() =~= series.take(n));
        assert(verdicts.take(n + 1).drop_last() =~= verdicts.take(n));
        lemma_series_stop(series, verdicts, n + 1);
    } else {
        assert(series.take(n) =~= series);
        assert(verdicts.take(n) =~= verdicts);
    }
}

fn complain_series(series: &Vec<Samples>, verdicts: &Vec<Vec<Verdict>>) -> (r: Option<String>)
    requires
        judges(verdict_views(verdicts@), sample_views(series@)),
    ensures
        opt_text(r) == series_complaint(sample_views(series@), verdict_views(verdicts@)),
{
    let ghost all = sample_views(series@);
    let ghost says = verdict_views(verdicts@);
    assert(series_complaint(all.take(0), says.take(0)) is None);
    assert(says.len() == verdicts@.len());
    for i in 0..series.len()
        invariant
            all == sample_views(series@),
            says == verdict_views(verdicts@),
            judges(says, all),
            verdicts@.len() == series@.len(),
            series_complaint(all.take(i as int), says.take(i as int)) is None,
    {
        assert(all.take(i as int + 1).drop_last() =~= all.take(i as int));
        assert(says.take(i as int + 1).drop_last() =~= says.take(i as int));
        assert(all.take(i as int + 1).last() == series@[i as int]@);
        assert(says.take(i as int + 1).last() == verdicts@[i as int]@);
        assert(says[i as int].len() == all[i as int].values.len());
        if let Some(e) = complain_values(&series[i].values, &verdicts[i]) {
            proof {
                lemma_series_stop(all, says, i as int + 1);
            }
            return Some(e);
        }
    }
    assert(all.take(series@.len() as int) =~= all);
    assert(says.take(series@.len() as int) =~= says);
    None
}

fn find_sampled(series: &Vec<Samples>) -> (r: Vec<usize>)
    ensures
        ints(r@) == sampled(sample_views(series@)),
        forall|k: int| 0 <= k < r@.len() ==> r@[k] < series@.len() && series@[r@[k] as int].values@.len() > 0,
{
    let ghost all = sample_views(series@);
    let mut out: Vec<usize> = Vec::new();
    assert(ints(out@) =~= sampled(all.take(0)));
    for i in 0..series.len()
        invariant
            all == sample_views(series@),
            ints(out@) == sampled(all.take(i as int)),
            forall|k: int| 0 <= k < out@.len() ==> out@[k] < i && series@[out@[k] as int].values@.len() > 0,
    {
        let ghost so_far = ints(out@);
        assert(all.take(i as int + 1).drop_last() =~= all.take(i as int));
        assert(all.take(i as int + 1).last() == series@[i as int]@);
        if series[i].values.len() > 0 {
            out.push(i);
            assert(ints(out@) =~= so_far.push(i as int));
        }
    }
    assert(all.take(series@.len() as int) =~= all);
    out
}

fn order_series(series: &Vec<Samples>) -> (r: Vec<usize>)
    ensures
        ints(r@) == series_order(sample_views(series@)),
        forall|k: int| 0 <= k < r@.len() ==> r@[k] < series@.len() && series@[r@[k] as int].values@.len() > 0,
{
    let ghost all = sample_views(series@);
    let found = find_sampled(series);
    let ghost at = ints(found@);
    let ghost wanted = at.map_values(|i: int| labels_text(all[i].labels));
    let mut keys: Vec<String> = Vec::new();
    for k in 0..found.len()
        invariant
            all == sample_views(series@),
            at == ints(found@),
            wanted == at.map_values(|i: int| labels_text(all[i].labels)),
            forall|k: int| 0 <= k < found@.len() ==> found@[k] < series@.len(),
            texts(keys@) == wanted.take(k as int),
            keys@.len() == k,
    {
        let ghost so_far = texts(keys@);
        assert(at[k as int] == found@[k as int]);
        push_text(&mut keys, label_set(&series[found[k]].labels));
        assert(wanted.take(k as int + 1) =~= so_far.push(wanted[k as int]));
    }
    assert(wanted.take(found@.len() as int) =~= wanted);
    let order = order_by_text(&keys, false);
    let ghost whole = series_order(all);
    assert(ints(order@).len() == order@.len());
    let mut out: Vec<usize> = Vec::new();
    for k in 0..order.len()
        invariant
            at == ints(found@),
            whole == ints(order@).map_values(|k: int| at[k]),
            whole.len() == order@.len(),
            forall|k: int|
                0 <= k < found@.len() ==> found@[k] < series@.len() && series@[found@[k] as int].values@.len() > 0,
            forall|k: int| 0 <= k < order@.len() ==> order@[k] < found@.len(),
            ints(out@) == whole.take(k as int),
            forall|k: int|
                0 <= k < out@.len() ==> out@[k] < series@.len() && series@[out@[k] as int].values@.len() > 0,
    {
        let ghost so_far = ints(out@);
        let p: usize = found[order[k]];
        assert(ints(order@)[k as int] == order@[k as int]);
        assert(at[order@[k as int] as int] == p);
        out.push(p);
        assert(ints(out@) =~= so_far.push(whole[k as int]));
        assert(whole.take(k as int + 1) =~= so_far.push(whole[k as int]));
    }
    assert(whole.take(order@.len() as int) =~= whole);
    out
}

/// Puts the series of a reply in order, once it is known of every sample whether it is a number;
/// series without samples are left out.
pub fn judge(scan: &Scan, verdicts: &Vec<Vec<Verdict>>) -> (r: Result<Vec<usize>, String>)
    requires
        judges(verdict_views(verdicts@), scan@.series),
    ensures
        match r {
            Ok(v) => judged(scan@, verdict_views(verdicts@)) == Ok::<Seq<int>, Seq<char>>(ints(v@)) && forall|
                k: int,
            |
                0 <= k < v@.len() ==> v@[k] < scan.series@.len() && scan.series@[v@[k] as int].values@.len() > 0,
            Err(e) => judged(scan@, verdict_views(verdicts@)) == Err::<Seq<int>, Seq<char>>(e@),
        },
{
    if let Some(e) = complain_series(&scan.series, verdicts) {
        return Err(e);
    }
    match &scan.fault {
        Some(e) => Err(owned(e.as_str())),
        None => Ok(order_series(&scan.series)),
    }
}

} // verus!
