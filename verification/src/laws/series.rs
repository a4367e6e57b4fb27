//! Laws of the queries of a panel and of the series that come back for them.

use super::groups::every_index_is_ordered_once;
use super::texts::{a_whole_holds_its_middle, holding_is_handed_on, joined_text_holds_its_parts};
use crate::dashboard::panels::{is_hidden, PanelView};
use crate::dashboard::report::{canonical_url, prometheus_in, selection_of, OptionsView};
use crate::dashboard::series::{
    judged, judges, label_text, labels_of, labels_text, legend_text, reply_scan, sampled, samples_in, scan_of,
    series_complaint, values_complaint, SamplesView, ScanView, Verdict,
};
use crate::dashboard::table::{entry_at, entry_is_what_was_put};
use crate::dashboard::targets::{goes_to, panel_targets, target_of, targets_in, TargetView};
use crate::dashboard::url::{RefView, UrlView};
use crate::dashboard::variables::interpolated;
use crate::json::{member, member2, str_at, str_of, JsonView};
use crate::number::decimal;
use crate::order::{
    orders_are_strict_weak, stable_order, stable_order_is_permutation, stable_order_is_sorted, text_before,
    text_order,
};
use crate::patterns::{regex_matches, regex_pieces, woven, LEGEND_LABEL};
use crate::text::{ascii_lowered, holds, joined, quoted, trimmed};
use vstd::prelude::*;

verus! {

/// A series has the labels that came with it, each with its text.
pub proof fn a_series_has_the_labels_that_came(m: Seq<(Seq<char>, JsonView)>, k: int, value: Seq<char>)
    requires
        0 <= k < m.len(),
        m[k].1 == JsonView::Str(value),
        forall|j: int| k < j < m.len() ==> (#[trigger] m[j]).0 != m[k].0,
    ensures
        entry_at(labels_of(m), m[k].0) == Some(value),
    decreases m.len(),
{
    let front = m.drop_last();
    let last = m.len() - 1;
    let v = match str_of(Some(m.last().1)) {
        Some(v) => v,
        None => ""@,
    };
    entry_is_what_was_put(labels_of(front), m.last().0, v, m[k].0);
    if k < last {
        assert(front[k] == m[k]);
        assert forall|j: int| k < j < front.len() implies (#[trigger] front[j]).0 != front[k].0 by {
            assert(front[j] == m[j]);
        }
        a_series_has_the_labels_that_came(front, k, value);
        assert(m[last].0 != m[k].0);
    }
}

/// A series has no label that did not come with it.
pub proof fn a_series_has_no_other_label(m: Seq<(Seq<char>, JsonView)>, name: Seq<char>)
    requires
        forall|j: int| 0 <= j < m.len() ==> (#[trigger] m[j]).0 != name,
    ensures
        entry_at(labels_of(m), name) is None,
    decreases m.len(),
{
    if m.len() > 0 {
        let front = m.drop_last();
        let v = match str_of(Some(m.last().1)) {
            Some(v) => v,
            None => ""@,
        };
        entry_is_what_was_put(labels_of(front), m.last().0, v, name);
        assert(m[m.len() - 1].0 != name);
        assert forall|j: int| 0 <= j < front.len() implies (#[trigger] front[j]).0 != name by {
            assert(front[j] == m[j]);
        }
        a_series_has_no_other_label(front, name);
    }
}

/// The labels of a series are all shown, each with its value.
pub proof fn every_label_is_shown(labels: Seq<(Seq<char>, Seq<char>)>, k: int)
    requires
        0 <= k < labels.len(),
    ensures
        holds(labels_text(labels), labels[k].0 + "=\""@ + labels[k].1 + "\""@),
{
    let v = labels.map_values(|e: (Seq<char>, Seq<char>)| label_text(e));
    assert(v[k] == label_text(labels[k]));
    joined_text_holds_its_parts(v, ", "@, k);
    a_whole_holds_its_middle("{"@, joined(v, ", "@), "}"@);
    holding_is_handed_on(labels_text(labels), joined(v, ", "@), v[k]);
}

/// A place in a legend is filled with the value of its label, and stays as it is where the series
/// has no such label; without a template the legend is the labels.
pub proof fn a_legend_is_filled_with_labels(
    template: Seq<char>,
    labels: Seq<(Seq<char>, Seq<char>)>,
    before: Seq<char>,
    after: Seq<char>,
    place: Seq<char>,
    name: Seq<char>,
    rest: Seq<Option<Seq<char>>>,
)
    requires
        template.len() > 0,
        regex_pieces(LEGEND_LABEL@, false, template) == seq![before, after],
        regex_matches(LEGEND_LABEL@, false, template) == seq![seq![Some(place), Some(name)] + rest],
    ensures
        legend_text(Some(template), labels) == before + (match entry_at(labels, name) {
            Some(v) => v,
            None => place,
        }) + after,
        legend_text(None, labels) == labels_text(labels),
{
    let m = seq![Some(place), Some(name)] + rest;
    let value = match entry_at(labels, name) {
        Some(v) => v,
        None => place,
    };
    let f = regex_matches(LEGEND_LABEL@, false, template).map_values(
        |m: Seq<Option<Seq<char>>>| crate::dashboard::series::legend_filling(m, labels),
    );
    let parts = seq![before, after];
    assert(m[0] == Some(place) && m[1] == Some(name));
    assert(f =~= seq![value]);
    assert(parts.drop_last() =~= seq![before]);
    assert(f.drop_last() =~= Seq::<Seq<char>>::empty());
    assert(woven(seq![before], Seq::<Seq<char>>::empty()) == before);
    assert(woven(parts, f) =~= before + value + after);
}

/// The samples of a series are the second items of its rows, in their order.
pub proof fn every_sample_is_read(rows: Seq<JsonView>, times: Seq<JsonView>, values: Seq<Seq<char>>)
    requires
        times.len() == rows.len(),
        values.len() == rows.len(),
        forall|k: int|
            0 <= k < rows.len() ==> #[trigger] rows[k] == JsonView::Array(seq![times[k], JsonView::Str(values[k])]),
    ensures
        samples_in(rows) == (values, None::<Seq<char>>),
    decreases rows.len(),
{
    if rows.len() > 0 {
        let front = rows.drop_last();
        let last = rows.len() - 1;
        assert forall|k: int| 0 <= k < front.len() implies #[trigger] front[k] == JsonView::Array(
            seq![times.drop_last()[k], JsonView::Str(values.drop_last()[k])],
        ) by {
            assert(front[k] == rows[k]);
        }
        every_sample_is_read(front, times.drop_last(), values.drop_last());
        assert(rows[last] == JsonView::Array(seq![times[last], JsonView::Str(values[last])]));
        assert(values.drop_last().push(values[last]) =~= values);
    } else {
        assert(samples_in(rows).0 =~= values);
    }
}

/// Every series of a reply is read, in its order, with its own labels and samples, unless something
/// in the reply is wrong.
pub proof fn every_series_is_read(results: Seq<JsonView>)
    ensures
        scan_of(results).fault is None ==> scan_of(results).series.len() == results.len() && forall|k: int|
            0 <= k < results.len() ==> (member(#[trigger] results[k], "values"@) matches Some(JsonView::Array(rows))
                && samples_in(rows).1 is None && scan_of(results).series[k].values == samples_in(rows).0) && (member(
                results[k],
                "metric"@,
            ) matches Some(JsonView::Object(m)) ==> scan_of(results).series[k].labels == labels_of(m)),
    decreases results.len(),
{
    if results.len() > 0 {
        let front = results.drop_last();
        every_series_is_read(front);
        if scan_of(results).fault is None {
            assert forall|k: int| 0 <= k < results.len() implies (member(
                #[trigger] results[k],
                "values"@,
            ) matches Some(JsonView::Array(rows)) && samples_in(rows).1 is None && scan_of(results).series[k].values
                == samples_in(rows).0) && (member(results[k], "metric"@) matches Some(JsonView::Object(m)) ==> scan_of(
                results,
            ).series[k].labels == labels_of(m)) by {
                if k < front.len() {
                    assert(front[k] == results[k]);
                    assert(scan_of(results).series[k] == scan_of(front).series[k]);
                }
            }
        }
    }
}

/// A reply is read where it is a success and holds a matrix, and its error is told elsewhere.
pub proof fn a_reply_is_read_where_it_succeeds(value: JsonView, results: Seq<JsonView>)
    requires
        member2(value, "data"@, "resultType"@) == Some(JsonView::Str("matrix"@)),
        member2(value, "data"@, "result"@) == Some(JsonView::Array(results)),
    ensures
        str_at(value, "status"@) == Some("success"@) ==> reply_scan(value) == Ok::<ScanView, Seq<char>>(
            scan_of(results),
        ),
        str_at(value, "status"@) != Some("success"@) ==> (reply_scan(value) matches Err(e) && (str_at(
            value,
            "error"@,
        ) matches Some(m) ==> holds(e, m))),
{
    if str_at(value, "status"@) != Some("success"@) {
        if let Some(m) = str_at(value, "error"@) {
            let e = reply_scan(value)->Err_0;
            let none = Seq::<char>::empty();
            let front = "Prometheus query failed ("@ + crate::dashboard::panels::str_or(value, "errorType"@, "unknown"@)
                + "): "@;
            a_whole_holds_its_middle(front, m, none);
            assert(e =~= front + m + none);
        }
    }
}

proof fn lemma_sampled(series: Seq<SamplesView>)
    ensures
        forall|k: int|
            0 <= k < sampled(series).len() ==> 0 <= #[trigger] sampled(series)[k] < series.len()
                && series[sampled(series)[k]].values.len() > 0,
        forall|i: int|
            0 <= i < series.len() && (#[trigger] series[i]).values.len() > 0 ==> sampled(series).contains(i),
        forall|k: int, l: int|
            0 <= k < l < sampled(series).len() ==> #[trigger] sampled(series)[k] < #[trigger] sampled(series)[l],
    decreases series.len(),
{
    if series.len() > 0 {
        let front = series.drop_last();
        lemma_sampled(front);
        let before = sampled(front);
        let all = sampled(series);
        let last = series.len() - 1;
        assert forall|k: int| 0 <= k < all.len() implies 0 <= #[trigger] all[k] < series.len()
            && series[all[k]].values.len() > 0 by {
            if k < before.len() {
                assert(all[k] == before[k]);
                assert(front[before[k]] == series[before[k]]);
            }
        }
        assert forall|i: int| 0 <= i < series.len() && (#[trigger] series[i]).values.len() > 0 implies all.contains(
            i,
        ) by {
            if i < last {
                assert(front[i] == series[i]);
                assert(before.contains(i));
                let k = choose|k: int| 0 <= k < before.len() && before[k] == i;
                assert(all[k] == i);
            } else {
                assert(all[before.len() as int] == last);
            }
        }
        assert forall|k: int, l: int| 0 <= k < l < all.len() implies #[trigger] all[k] < #[trigger] all[l] by {
            assert(all[k] == before[k]);
            if l < before.len() {
                assert(all[l] == before[l]);
            } else {
                assert(before[k] < front.len());
            }
        }
    }
}

/// Whether places are those of the series that have samples, each once, in the order of their
/// labels.
pub open spec fn are_sampled(places: Seq<int>, series: Seq<SamplesView>) -> bool {
    &&& places.no_duplicates()
    &&& forall|k: int|
        0 <= k < places.len() ==> 0 <= #[trigger] places[k] < series.len() && series[places[k]].values.len() > 0
    &&& forall|i: int| 0 <= i < series.len() && (#[trigger] series[i]).values.len() > 0 ==> places.contains(i)
    &&& forall|k: int, l: int|
        0 <= k < l < places.len() ==> !text_before(
            labels_text(series[#[trigger] places[l]].labels),
            labels_text(series[#[trigger] places[k]].labels),
        )
}

/// The series of a reply in which nothing is wrong are all shown that have samples, each once, in
/// the order of their labels.
pub proof fn every_series_with_samples_is_shown(scan: ScanView, verdicts: Seq<Seq<Verdict>>)
    ensures
        judged(scan, verdicts) matches Ok(places) ==> scan.fault is None && are_sampled(places, scan.series),
{
    if let Ok(places) = judged(scan, verdicts) {
        let series = scan.series;
        let at = sampled(series);
        lemma_sampled(series);
        let keys = at.map_values(|i: int| labels_text(series[i].labels));
        let before = text_order(keys);
        let order = stable_order(at.len(), before);
        orders_are_strict_weak(keys, Seq::empty());
        stable_order_is_permutation(at.len(), before);
        stable_order_is_sorted(at.len(), before);
        every_index_is_ordered_once(at.len(), before);
        assert(places == order.map_values(|k: int| at[k]));
        assert forall|k: int| 0 <= k < places.len() implies #[trigger] places[k] == at[order[k]] && 0 <= order[k]
            < at.len() by {}
        assert(places.no_duplicates()) by {
            assert forall|k: int, l: int| 0 <= k < places.len() && 0 <= l < places.len() && k != l implies places[k]
                != places[l] by {
                assert(places[k] == at[order[k]] && places[l] == at[order[l]]);
                assert(order[k] != order[l]);
                if order[k] < order[l] {
                    assert(at[order[k]] < at[order[l]]);
                } else {
                    assert(at[order[l]] < at[order[k]]);
                }
            }
        }
        assert forall|i: int| 0 <= i < series.len() && (#[trigger] series[i]).values.len() > 0 implies places.contains(
            i,
        ) by {
            assert(at.contains(i));
            let p = choose|p: int| 0 <= p < at.len() && at[p] == i;
            assert(order.contains(p));
            let k = choose|k: int| 0 <= k < order.len() && order[k] == p;
            assert(places[k] == i);
        }
        assert forall|k: int, l: int| 0 <= k < l < places.len() implies !text_before(
            labels_text(series[#[trigger] places[l]].labels),
            labels_text(series[#[trigger] places[k]].labels),
        ) by {
            assert(places[k] == at[order[k]] && places[l] == at[order[l]]);
            assert(keys[order[k]] == labels_text(series[places[k]].labels));
            assert(keys[order[l]] == labels_text(series[places[l]].labels));
            if before(order[l], order[k]) {
                assert(before(order[k], order[l]));
                assert(before(order[l], order[l]));
            }
        }
    }
}

proof fn lemma_values_complaint(values: Seq<Seq<char>>, verdicts: Seq<Verdict>)
    requires
        values.len() == verdicts.len(),
    ensures
        values_complaint(values, verdicts) is None <==> forall|k: int|
            0 <= k < verdicts.len() ==> #[trigger] verdicts[k] == Verdict::Finite,
    decreases values.len(),
{
    if values.len() > 0 {
        let front = verdicts.drop_last();
        let last = verdicts.len() - 1;
        lemma_values_complaint(values.drop_last(), front);
        if forall|k: int| 0 <= k < front.len() ==> #[trigger] front[k] == Verdict::Finite {
            if verdicts.last() == Verdict::Finite {
                assert forall|k: int| 0 <= k < verdicts.len() implies #[trigger] verdicts[k] == Verdict::Finite by {
                    if k < last {
                        assert(verdicts[k] == front[k]);
                    }
                }
            } else {
                assert(verdicts[last] != Verdict::Finite);
            }
        } else {
            let k = choose|k: int| 0 <= k < front.len() && #[trigger] front[k] != Verdict::Finite;
            assert(verdicts[k] != Verdict::Finite);
        }
    }
}

proof fn lemma_series_complaint(series: Seq<SamplesView>, verdicts: Seq<Seq<Verdict>>)
    requires
        judges(verdicts, series),
    ensures
        series_complaint(series, verdicts) is None <==> forall|i: int, k: int|
            0 <= i < verdicts.len() && 0 <= k < verdicts[i].len() ==> #[trigger] verdicts[i][k] == Verdict::Finite,
    decreases series.len(),
{
    if series.len() > 0 {
        let fs = series.drop_last();
        let fv = verdicts.drop_last();
        let last = verdicts.len() - 1;
        assert(judges(fv, fs)) by {
            assert forall|i: int| 0 <= i < fs.len() implies (#[trigger] fv[i]).len() == fs[i].values.len() by {
                assert(verdicts[i].len() == series[i].values.len());
            }
        }
        assert(verdicts[last].len() == series[last].values.len());
        lemma_series_complaint(fs, fv);
        lemma_values_complaint(series.last().values, verdicts.last());
        if series_complaint(fs, fv) is None {
            if values_complaint(series.last().values, verdicts.last()) is None {
                assert forall|i: int, k: int|
                    0 <= i < verdicts.len() && 0 <= k < verdicts[i].len() implies #[trigger] verdicts[i][k]
                    == Verdict::Finite by {
                    if i < last {
                        assert(fv[i][k] == Verdict::Finite);
                    }
                }
            } else {
                let k = choose|k: int|
                    0 <= k < verdicts.last().len() && #[trigger] verdicts.last()[k] != Verdict::Finite;
                assert(verdicts[last][k] != Verdict::Finite);
            }
        } else {
            let (i, k) = choose|i: int, k: int|
                0 <= i < fv.len() && 0 <= k < fv[i].len() && #[trigger] fv[i][k] != Verdict::Finite;
            assert(verdicts[i][k] != Verdict::Finite);
        }
    }
}

/// A reply is shown exactly where every sample in it is a number and nothing stopped its reading.
pub proof fn a_reply_is_shown_where_every_sample_is_a_number(scan: ScanView, verdicts: Seq<Seq<Verdict>>)
    requires
        judges(verdicts, scan.series),
    ensures
        judged(scan, verdicts) is Ok <==> scan.fault is None && forall|i: int, k: int|
            0 <= i < verdicts.len() && 0 <= k < verdicts[i].len() ==> #[trigger] verdicts[i][k] == Verdict::Finite,
{
    lemma_series_complaint(scan.series, verdicts);
}

/// Whether a target of a panel is to be queried: it is not hidden and has an expression.
pub open spec fn is_asked(raw: JsonView) -> bool {
    !is_hidden(raw) && (str_at(raw, "expr"@) matches Some(s) && trimmed(s).len() > 0)
}

/// Whether a query is that of a target: under its name, with its expression in which the
/// variables have their values, and with its legend.
pub open spec fn is_query_of(
    t: TargetView,
    raw: JsonView,
    values: Seq<(Seq<char>, Seq<char>)>,
) -> bool {
    &&& str_at(raw, "refId"@) matches Some(id) ==> t.ref_id == id
    &&& str_at(raw, "expr"@) matches Some(expr) && interpolated(expr, values) == Ok::<Seq<char>, Seq<char>>(t.expression)
    &&& t.legend_format == str_at(raw, "legendFormat"@)
}

proof fn lemma_targets(list: Seq<JsonView>, ds: (Seq<char>, Seq<char>), values: Seq<(Seq<char>, Seq<char>)>)
    ensures
        targets_in(list, ds, values) matches Ok(v) ==> v.len() == list.filter(|t: JsonView| is_asked(t)).len()
            && forall|k: int|
            0 <= k < v.len() ==> is_query_of(
                #[trigger] v[k],
                list.filter(|t: JsonView| is_asked(t))[k],
                values,
            ) && goes_to(list.filter(|t: JsonView| is_asked(t))[k], ds, values) is Ok,
    decreases list.len(),
{
    reveal(Seq::filter);
    if list.len() > 0 {
        lemma_targets(list.drop_last(), ds, values);
        if let Ok(v) = targets_in(list, ds, values) {
            let before = targets_in(list.drop_last(), ds, values)->Ok_0;
            let f = list.filter(|t: JsonView| is_asked(t));
            let g = list.drop_last().filter(|t: JsonView| is_asked(t));
            assert forall|k: int| 0 <= k < v.len() implies is_query_of(#[trigger] v[k], f[k], values) && goes_to(
                f[k],
                ds,
                values,
            ) is Ok by {
                if k < before.len() {
                    assert(v[k] == before[k] && f[k] == g[k]);
                }
            }
        }
    }
}

/// The queries of a panel are those of its targets that are not hidden and have an expression, in
/// their order, with the variables in them replaced.
pub proof fn every_visible_target_is_queried(
    panel: PanelView,
    ds: (Seq<char>, Seq<char>),
    values: Seq<(Seq<char>, Seq<char>)>,
)
    ensures
        panel_targets(panel, ds, values) matches Ok(v) ==> v.len() > 0 && v.len() == panel.targets.filter(
            |t: JsonView| is_asked(t),
        ).len() && forall|k: int|
            0 <= k < v.len() ==> is_query_of(
                #[trigger] v[k],
                panel.targets.filter(|t: JsonView| is_asked(t))[k],
                values,
            ),
{
    lemma_targets(panel.targets, ds, values);
}

/// A datasource is taken where it is one of Prometheus, in any case, with its own name and kind.
pub proof fn a_datasource_must_be_prometheus(ds: JsonView, uid: Seq<char>, kind: Seq<char>, name: Seq<char>)
    requires
        str_at(ds, "type"@) == Some(kind),
        str_at(ds, "name"@) == Some(name),
    ensures
        match prometheus_in(ds, uid) {
            Ok(d) => ascii_lowered(kind) == ascii_lowered("prometheus"@) && d.uid == uid && d.name == name && d.kind
                == kind,
            Err(e) => ascii_lowered(kind) != ascii_lowered("prometheus"@) && holds(e, quoted(kind)),
        },
{
    if let Err(e) = prometheus_in(ds, uid) {
        let front = "unsupported datasource type "@;
        let rest = "; dashboard v1 supports Prometheus only"@;
        a_whole_holds_its_middle(front, quoted(kind), rest);
        assert(e =~= front + quoted(kind) + rest);
    }
}

/// The URL that is printed of a dashboard is the base URL and the path of the dashboard.
pub proof fn the_printed_url_leads_to_the_dashboard(
    base: UrlView,
    host: Seq<char>,
    uid: Seq<char>,
    slug: Seq<char>,
)
    requires
        base.host == Some(host),
        base.path.len() == 0 || base.path.last() != '/',
    ensures
        base.port is None ==> canonical_url(base, uid, slug) == base.scheme + "://"@ + host + base.path + "/d/"@ + uid
            + "/"@ + slug,
        base.port matches Some(p) ==> canonical_url(base, uid, slug) == base.scheme + "://"@ + (host + ":"@ + decimal(
            p as nat,
        )) + base.path + "/d/"@ + uid + "/"@ + slug,
{
}

/// What is selected has the title of the dashboard, and the range and the panel that were asked
/// for.
pub proof fn a_selection_is_what_was_asked_for(
    envelope: JsonView,
    dashboard: JsonView,
    reference: RefView,
    options: OptionsView,
    now: i64,
)
    requires
        member(envelope, "dashboard"@) == Some(dashboard),
    ensures
        selection_of(envelope, reference, options, now) matches Ok(s) ==> (str_at(dashboard, "title"@) matches Some(t)
            ==> s.title == t) && crate::dashboard::panels::meant_panel(
            crate::dashboard::panels::dashboard_panels(dashboard),
            options.panel,
            reference.panel_id,
        ) == Ok::<PanelView, Seq<char>>(s.panel) && crate::dashboard::range::range_of(
            crate::dashboard::range::AskedView {
                since: options.since,
                start: options.start,
                end: options.end,
                url_from: reference.from,
                url_to: reference.to,
                step: options.step,
            },
            now,
        ) == Ok::<(i64, i64, i64), Seq<char>>((s.start, s.end, s.step)) && crate::dashboard::variables::variables_of(
            dashboard,
            reference.variables,
            options.vars,
            s.step,
            (s.end - s.start) as i64,
        ) == Ok::<Seq<(Seq<char>, Seq<char>)>, Seq<char>>(s.variables) && panel_targets(
            s.panel,
            s.datasource,
            s.variables,
        ) == Ok::<Seq<TargetView>, Seq<char>>(s.targets),
{
}

/// A target without a name is a question mark, a datasource without a name is unnamed, and a
/// dashboard without a title is untitled.
pub proof fn what_has_no_name_is_marked(
    raw: JsonView,
    ds: (Seq<char>, Seq<char>),
    values: Seq<(Seq<char>, Seq<char>)>,
    source: JsonView,
    uid: Seq<char>,
    envelope: JsonView,
    reference: RefView,
    options: OptionsView,
    now: i64,
)
    ensures
        str_at(raw, "refId"@) is None ==> (target_of(raw, ds, values) matches Ok(Some(t)) ==> t.ref_id == "?"@),
        str_at(source, "name"@) is None ==> (prometheus_in(source, uid) matches Ok(d) ==> d.name == "(unnamed)"@),
        member(envelope, "dashboard"@) matches Some(d) ==> str_at(d, "title"@) is None ==> (selection_of(
            envelope,
            reference,
            options,
            now,
        ) matches Ok(s) ==> s.title == "(untitled)"@),
        member(envelope, "dashboard"@) is None ==> selection_of(envelope, reference, options, now) is Err,
{
}

} // verus!
