//! Laws of what is asked for and printed of a panel of a dashboard.

use super::requests::{carries, lacks, lemma_carries};
use super::texts::a_whole_holds_its_middle;
use crate::dashboard::report::{
    all_target_lines, panel_lines, panel_output, panel_value, query_params, query_plan, series_line, series_value,
    table_value, target_lines, target_value, DashboardOutput, SelectionView, SeriesOutput, TargetOutput,
};
use crate::dashboard::series::legend_text;
use crate::dashboard::table::{entry_at, in_order};
use crate::dashboard::url::{url_below, UrlView};
use crate::json::{first_field_counts, json_int, member, member2, str_at, JsonView};
use crate::number::{decimal, int_text};
use crate::order::text_before;
use crate::text::{ends, holds, opt_text};
use crate::views::OutputView;
use vstd::prelude::*;

verus! {

/// Whether a JSON value holds the entries of a table, each under its name, and nothing else.
pub open spec fn tells_of_table(j: JsonView, t: Seq<(Seq<char>, Seq<char>)>) -> bool {
    forall|name: Seq<char>| str_at(j, name) == #[trigger] entry_at(t, name)
}

proof fn lemma_table_value(t: Seq<(Seq<char>, Seq<char>)>, name: Seq<char>)
    requires
        in_order(t),
    ensures
        str_at(table_value(t), name) == entry_at(t, name),
    decreases t.len(),
{
    let o = table_value(t)->Object_0;
    if t.len() == 0 {
        first_field_counts(o, name, 0);
    } else {
        let front = t.drop_last();
        assert(in_order(front)) by {
            assert forall|i: int, j: int| 0 <= i < j < front.len() implies text_before(
                #[trigger] front[i].0,
                #[trigger] front[j].0,
            ) by {
                assert(text_before(t[i].0, t[j].0));
            }
        }
        lemma_table_value(front, name);
        assert(o.drop_last() =~= table_value(front)->Object_0);
        assert(o.last() == (t.last().0, JsonView::Str(t.last().1)));
        if t.last().0 == name {
            let n = t.len() - 1;
            assert forall|i: int| 0 <= i < n implies (#[trigger] o[i]).0 != name by {
                assert(text_before(t[i].0, t[n].0));
                assert(o[i].0 == t[i].0);
                crate::order::text_before_irreflexive(name);
            }
            first_field_counts(o, name, n);
        }
    }
}

/// Whether a JSON value tells of a series: its labels, and in its summary the first, the last, the
/// smallest, the average and the largest value, each under its own name, and how many points there
/// are.
pub open spec fn tells_of_series(j: JsonView, s: SeriesOutput) -> bool {
    &&& member2(j, "summary"@, "first"@) == Some(s.first_value@)
    &&& member2(j, "summary"@, "last"@) == Some(s.last_value@)
    &&& member2(j, "summary"@, "min"@) == Some(s.min_value@)
    &&& member2(j, "summary"@, "average"@) == Some(s.average_value@)
    &&& member2(j, "summary"@, "max"@) == Some(s.max_value@)
    &&& member2(j, "summary"@, "point_count"@) == Some(json_int(s.points as int))
    &&& s.labels.wf() ==> (member(j, "labels"@) matches Some(labels) && tells_of_table(labels, s.labels@))
}

/// In the JSON of a series every figure stands under its own name, and so does every label.
pub proof fn every_figure_of_a_series_stands_under_its_name(s: SeriesOutput)
    ensures
        tells_of_series(series_value(s), s),
{
    let o = series_value(s)->Object_0;
    reveal_strlit("labels");
    reveal_strlit("summary");
    assert(o[0].0 == "labels"@ && o[1].0 == "summary"@);
    first_field_counts(o, "labels"@, 0);
    first_field_counts(o, "summary"@, 1);
    let p = o[1].1->Object_0;
    reveal_strlit("first");
    reveal_strlit("last");
    reveal_strlit("min");
    reveal_strlit("average");
    reveal_strlit("max");
    reveal_strlit("point_count");
    assert("min"@[1] != "max"@[1]);
    assert(p[0].0 == "first"@ && p[1].0 == "last"@ && p[2].0 == "min"@ && p[3].0 == "average"@ && p[4].0 == "max"@ && p[5].0 == "point_count"@);
    first_field_counts(p, "first"@, 0);
    first_field_counts(p, "last"@, 1);
    first_field_counts(p, "min"@, 2);
    first_field_counts(p, "average"@, 3);
    first_field_counts(p, "max"@, 4);
    first_field_counts(p, "point_count"@, 5);
    if s.labels.wf() {
        let labels = table_value(s.labels@);
        assert forall|name: Seq<char>| str_at(labels, name) == #[trigger] entry_at(s.labels@, name) by {
            lemma_table_value(s.labels@, name);
        }
    }
}

/// Whether a JSON value tells of a query: its name, its expression, its legend where it has one,
/// and each of its series in their order.
pub open spec fn tells_of_target(j: JsonView, t: TargetOutput) -> bool {
    &&& str_at(j, "ref_id"@) == Some(t.ref_id@)
    &&& str_at(j, "expression"@) == Some(t.expression@)
    &&& str_at(j, "legend_format"@) == opt_text(t.legend_format)
    &&& t.legend_format is None ==> member(j, "legend_format"@) == Some(JsonView::Null)
    &&& member(j, "series"@) matches Some(JsonView::Array(a)) && a.len() == t.series@.len() && forall|k: int|
        0 <= k < a.len() ==> tells_of_series(#[trigger] a[k], t.series@[k])
}

/// The JSON of a query tells of it and of each of its series.
pub proof fn the_json_of_a_query_tells_of_it(t: TargetOutput)
    ensures
        tells_of_target(target_value(t), t),
{
    let o = target_value(t)->Object_0;
    reveal_strlit("ref_id");
    reveal_strlit("expression");
    reveal_strlit("legend_format");
    reveal_strlit("series");
    assert("ref_id"@[0] != "series"@[0]);
    assert(o[0].0 == "ref_id"@ && o[1].0 == "expression"@ && o[2].0 == "legend_format"@ && o[3].0 == "series"@);
    first_field_counts(o, "ref_id"@, 0);
    first_field_counts(o, "expression"@, 1);
    first_field_counts(o, "legend_format"@, 2);
    first_field_counts(o, "series"@, 3);
    let a = o[3].1->Array_0;
    assert forall|k: int| 0 <= k < a.len() implies tells_of_series(#[trigger] a[k], t.series@[k]) by {
        every_figure_of_a_series_stands_under_its_name(t.series@[k]);
    }
}

/// The JSON of a panel tells of the dashboard, the panel, the datasource and the range, each thing
/// under its own name.
pub proof fn the_json_of_a_panel_tells_where_it_is_from(o: DashboardOutput, query_only: bool)
    ensures
        panel_output(o, true, query_only) matches OutputView::Value(j) && member2(j, "dashboard"@, "uid"@) == Some(
            JsonView::Str(o.uid@),
        ) && member2(j, "dashboard"@, "title"@) == Some(JsonView::Str(o.title@)) && member2(j, "dashboard"@, "url"@)
            == Some(JsonView::Str(o.url@)) && member2(j, "panel"@, "id"@) == Some(json_int(o.panel.id as int))
            && member2(j, "panel"@, "title"@) == Some(JsonView::Str(o.panel.title@)) && member2(j, "panel"@, "type"@)
            == Some(JsonView::Str(o.panel.kind@)) && member2(j, "panel"@, "unit"@) == Some(
            match opt_text(o.panel.unit) {
                Some(u) => JsonView::Str(u),
                None => JsonView::Null,
            },
        ),
{
    let f = panel_value(o)->Object_0;
    reveal_strlit("dashboard");
    reveal_strlit("panel");
    reveal_strlit("datasource");
    reveal_strlit("range");
    reveal_strlit("variables");
    reveal_strlit("targets");
    assert("panel"@[0] != "range"@[0]);
    assert("dashboard"@[0] != "variables"@[0]);
    assert(f[0].0 == "dashboard"@ && f[1].0 == "panel"@ && f[2].0 == "datasource"@ && f[3].0 == "range"@ && f[4].0 == "variables"@ && f[5].0 == "targets"@);
    first_field_counts(f, "dashboard"@, 0);
    first_field_counts(f, "panel"@, 1);
    first_field_counts(f, "datasource"@, 2);
    first_field_counts(f, "range"@, 3);
    first_field_counts(f, "variables"@, 4);
    first_field_counts(f, "targets"@, 5);
    let a = f[0].1->Object_0;
    reveal_strlit("uid");
    reveal_strlit("title");
    reveal_strlit("url");
    assert("uid"@[1] != "url"@[1]);
    assert(a[0].0 == "uid"@ && a[1].0 == "title"@ && a[2].0 == "url"@);
    first_field_counts(a, "uid"@, 0);
    first_field_counts(a, "title"@, 1);
    first_field_counts(a, "url"@, 2);
    let b = f[1].1->Object_0;
    reveal_strlit("id");
    reveal_strlit("title");
    reveal_strlit("type");
    reveal_strlit("unit");
    assert("type"@[0] != "unit"@[0]);
    assert(b[0].0 == "id"@ && b[1].0 == "title"@ && b[2].0 == "type"@ && b[3].0 == "unit"@);
    first_field_counts(b, "id"@, 0);
    first_field_counts(b, "title"@, 1);
    first_field_counts(b, "type"@, 2);
    first_field_counts(b, "unit"@, 3);
}

/// The JSON of a panel tells of the datasource, of the range that was asked for, of the variables
/// and of each query in their order.
pub proof fn the_json_of_a_panel_tells_what_was_asked(o: DashboardOutput, query_only: bool)
    ensures
        panel_output(o, true, query_only) matches OutputView::Value(j) && member2(j, "datasource"@, "uid"@) == Some(
            JsonView::Str(o.datasource.uid@),
        ) && member2(j, "datasource"@, "name"@) == Some(JsonView::Str(o.datasource.name@)) && member2(
            j,
            "datasource"@,
            "type"@,
        ) == Some(JsonView::Str(o.datasource.kind@)) && member2(j, "range"@, "start"@) == Some(JsonView::Str(o.start@))
            && member2(j, "range"@, "end"@) == Some(JsonView::Str(o.end@)) && member2(j, "range"@, "step_seconds"@)
            == Some(json_int(o.step_seconds as int)) && (o.variables.wf() ==> (member(j, "variables"@) matches Some(v)
            && tells_of_table(v, o.variables@))) && (member(j, "targets"@) matches Some(JsonView::Array(a)) && a.len()
            == o.targets@.len() && forall|k: int| 0 <= k < a.len() ==> tells_of_target(#[trigger] a[k], o.targets@[k])),
{
    let f = panel_value(o)->Object_0;
    reveal_strlit("dashboard");
    reveal_strlit("panel");
    reveal_strlit("datasource");
    reveal_strlit("range");
    reveal_strlit("variables");
    reveal_strlit("targets");
    assert("panel"@[0] != "range"@[0]);
    assert("dashboard"@[0] != "variables"@[0]);
    assert(f[0].0 == "dashboard"@ && f[1].0 == "panel"@ && f[2].0 == "datasource"@ && f[3].0 == "range"@ && f[4].0 == "variables"@ && f[5].0 == "targets"@);
    first_field_counts(f, "dashboard"@, 0);
    first_field_counts(f, "panel"@, 1);
    first_field_counts(f, "datasource"@, 2);
    first_field_counts(f, "range"@, 3);
    first_field_counts(f, "variables"@, 4);
    first_field_counts(f, "targets"@, 5);
    let c = f[2].1->Object_0;
    reveal_strlit("uid");
    reveal_strlit("name");
    reveal_strlit("type");
    assert("name"@[0] != "type"@[0]);
    assert(c[0].0 == "uid"@ && c[1].0 == "name"@ && c[2].0 == "type"@);
    first_field_counts(c, "uid"@, 0);
    first_field_counts(c, "name"@, 1);
    first_field_counts(c, "type"@, 2);
    let d = f[3].1->Object_0;
    reveal_strlit("start");
    reveal_strlit("end");
    reveal_strlit("step_seconds");
    assert(d[0].0 == "start"@ && d[1].0 == "end"@ && d[2].0 == "step_seconds"@);
    first_field_counts(d, "start"@, 0);
    first_field_counts(d, "end"@, 1);
    first_field_counts(d, "step_seconds"@, 2);
    if o.variables.wf() {
        let v = table_value(o.variables@);
        assert forall|name: Seq<char>| str_at(v, name) == #[trigger] entry_at(o.variables@, name) by {
            lemma_table_value(o.variables@, name);
        }
    }
    let a = f[5].1->Array_0;
    assert forall|k: int| 0 <= k < a.len() implies tells_of_target(#[trigger] a[k], o.targets@[k]) by {
        the_json_of_a_query_tells_of_it(o.targets@[k]);
    }
}

proof fn lemma_chain(a: Seq<char>, b: Seq<char>, c: Seq<char>)
    ensures
        a + b + c == a + (b + c),
{
    assert(a + b + c =~= a + (b + c));
}

proof fn lemma_holds_each(a: Seq<char>, b: Seq<char>, c: Seq<char>, d: Seq<char>, e: Seq<char>, f: Seq<char>)
    ensures
        holds(a + b + c + d + e + f, b),
        holds(a + b + c + d + e + f, c),
        holds(a + b + c + d + e + f, d),
        holds(a + b + c + d + e + f, e),
        ends(a + b + c + d + e + f, f),
{
    let whole = a + b + c + d + e + f;
    let none = Seq::<char>::empty();
    a_whole_holds_its_middle(a + b + c + d + e, none, f);
    assert(a + b + c + d + e + none =~= a + b + c + d + e);
    a_whole_holds_its_middle(a + b + c + d, e, f);
    a_whole_holds_its_middle(a + b + c, d, e + f);
    assert(whole =~= a + b + c + d + (e + f));
    a_whole_holds_its_middle(a + b, c, d + e + f);
    assert(whole =~= a + b + c + (d + e + f));
    a_whole_holds_its_middle(a, b, c + d + e + f);
    assert(whole =~= a + b + (c + d + e + f));
}

/// The line on a series names each of its figures.
pub proof fn the_line_on_a_series_names_its_figures(template: Option<Seq<char>>, s: SeriesOutput)
    ensures
        holds(series_line(template, s), "  last="@ + s.last@),
        holds(series_line(template, s), "  min="@ + s.min@),
        holds(series_line(template, s), "  sample_avg="@ + s.average@),
        holds(series_line(template, s), "  max="@ + s.max@),
        ends(series_line(template, s), "  points="@ + decimal(s.points as nat)),
{
    let a = "  "@ + legend_text(template, s.labels@);
    let b = "  last="@ + s.last@;
    let c = "  min="@ + s.min@;
    let d = "  sample_avg="@ + s.average@;
    let e = "  max="@ + s.max@;
    let f = "  points="@ + decimal(s.points as nat);
    lemma_chain(a, "  last="@, s.last@);
    lemma_chain(a + b, "  min="@, s.min@);
    lemma_chain(a + b + c, "  sample_avg="@, s.average@);
    lemma_chain(a + b + c + d, "  max="@, s.max@);
    lemma_chain(a + b + c + d + e, "  points="@, decimal(s.points as nat));
    lemma_holds_each(a, b, c, d, e, f);
}

proof fn lemma_target_lines_stay(v: Seq<TargetOutput>, query_only: bool, k: int)
    requires
        0 <= k < v.len(),
    ensures
        exists|at: int|
            0 <= at && at + target_lines(v[k], query_only).len() <= all_target_lines(v, query_only).len()
                && #[trigger] all_target_lines(v, query_only).subrange(at, at + target_lines(v[k], query_only).len())
                == target_lines(v[k], query_only),
    decreases v.len(),
{
    let all = all_target_lines(v, query_only);
    let front = v.drop_last();
    let before = all_target_lines(front, query_only);
    let mine = target_lines(v[k], query_only);
    if k < front.len() {
        lemma_target_lines_stay(front, query_only, k);
        assert(front[k] == v[k]);
        let at = choose|at: int|
            0 <= at && at + mine.len() <= before.len() && #[trigger] before.subrange(at, at + mine.len()) == mine;
        assert(all.subrange(at, at + mine.len()) =~= before.subrange(at, at + mine.len()));
    } else {
        let at = before.len() as int;
        assert(all.subrange(at, at + mine.len()) =~= mine);
    }
}

/// As text a panel is printed with the titles, the datasource, the range and the step, and with
/// the lines on every query, in one piece.
pub proof fn the_text_of_a_panel_tells_of_every_query(o: DashboardOutput, query_only: bool, k: int)
    requires
        0 <= k < o.targets@.len(),
    ensures
        panel_output(o, false, query_only) matches OutputView::Lines(v) && v.len() >= 5 && ends(v[0], o.title@) && ends(
            v[1],
            int_text(o.panel.id as int) + " — "@ + o.panel.title@,
        ) && ends(v[2], o.datasource.name@) && ends(v[3], o.start@ + " .. "@ + o.end@) && ends(
            v[4],
            int_text(o.step_seconds as int) + "s"@,
        ) && exists|at: int|
            5 <= at && at + target_lines(o.targets@[k], query_only).len() <= v.len() && #[trigger] v.subrange(
                at,
                at + target_lines(o.targets@[k], query_only).len(),
            ) == target_lines(o.targets@[k], query_only),
{
    let v = panel_lines(o, query_only);
    let all = all_target_lines(o.targets@, query_only);
    let mine = target_lines(o.targets@[k], query_only);
    let none = Seq::<char>::empty();
    a_whole_holds_its_middle("Dashboard:  "@, none, o.title@);
    assert("Dashboard:  "@ + none + o.title@ =~= v[0]);
    let id = int_text(o.panel.id as int) + " — "@ + o.panel.title@;
    a_whole_holds_its_middle("Panel:      "@, none, id);
    assert("Panel:      "@ + none + id =~= v[1]);
    a_whole_holds_its_middle("Datasource: "@, none, o.datasource.name@);
    assert("Datasource: "@ + none + o.datasource.name@ =~= v[2]);
    let range = o.start@ + " .. "@ + o.end@;
    a_whole_holds_its_middle("Range:      "@, none, range);
    assert("Range:      "@ + none + range =~= v[3]);
    let step = int_text(o.step_seconds as int) + "s"@;
    a_whole_holds_its_middle("Step:       "@, none, step);
    assert("Step:       "@ + none + step =~= v[4]);
    lemma_target_lines_stay(o.targets@, query_only, k);
    let at = choose|at: int|
        0 <= at && at + mine.len() <= all.len() && #[trigger] all.subrange(at, at + mine.len()) == mine;
    assert(v.subrange(at + 5, at + 5 + mine.len()) =~= all.subrange(at, at + mine.len()));
}

/// The lines on a query begin with its name and its expression.
pub proof fn the_lines_on_a_query_begin_with_it(t: TargetOutput, query_only: bool)
    requires
        !t.expression@.contains('\n'),
    ensures
        target_lines(t, query_only)[0] == "\nTarget "@ + t.ref_id@ + ":\n  "@ + t.expression@,
{
    assert forall|i: int| 0 <= i < t.expression@.len() implies t.expression@[i] != '\n' by {
        assert(t.expression@.contains(t.expression@[i]));
    }
    lemma_nothing_to_replace(t.expression@, '\n', "\n  "@);
}

/// After the query its lines have one for each of its series, in their order, unless only queries
/// are wanted; a query without series has no data.
pub proof fn the_lines_on_a_query_show_every_series(t: TargetOutput, query_only: bool)
    ensures
        query_only ==> target_lines(t, query_only).len() == 1,
        !query_only && t.series@.len() == 0 ==> target_lines(t, query_only).last() == "  no data"@,
        !query_only && t.series@.len() > 0 ==> target_lines(t, query_only).len() == 2 + t.series@.len() && forall|k: int|
            0 <= k < t.series@.len() ==> #[trigger] target_lines(t, query_only)[2 + k] == series_line(
                opt_text(t.legend_format),
                t.series@[k],
            ),
{
}

proof fn lemma_nothing_to_replace(s: Seq<char>, c: char, by: Seq<char>)
    requires
        forall|i: int| 0 <= i < s.len() ==> s[i] != c,
    ensures
        crate::text::with_replaced(s, c, by) == s,
    decreases s.len(),
{
    if s.len() > 0 {
        lemma_nothing_to_replace(s.drop_last(), c, by);
        assert(s.drop_last().push(s.last()) =~= s);
    }
}

/// Whether a request asks for an expression over a range, of an organization.
pub open spec fn asks_for(
    params: Seq<(Seq<char>, Seq<char>)>,
    expression: Seq<char>,
    start: i64,
    end: i64,
    step: i64,
    org: Option<Seq<char>>,
) -> bool {
    &&& carries(params, "query"@, expression)
    &&& carries(params, "start"@, int_text(start as int))
    &&& carries(params, "end"@, int_text(end as int))
    &&& carries(params, "step"@, int_text(step as int) + "s"@)
    &&& match org {
        Some(o) => carries(params, "orgId"@, o),
        None => lacks(params, "orgId"@),
    }
}

proof fn lemma_query_params(expression: Seq<char>, start: i64, end: i64, step: i64, org: Option<Seq<char>>)
    ensures
        asks_for(query_params(expression, start, end, step, org), expression, start, end, step, org),
{
    let params = query_params(expression, start, end, step, org);
    reveal_strlit("query");
    reveal_strlit("start");
    reveal_strlit("end");
    reveal_strlit("step");
    reveal_strlit("orgId");
    assert("query"@[0] != "start"@[0]);
    assert("query"@[0] != "orgId"@[0]);
    assert("start"@[0] != "orgId"@[0]);
    assert(params[0] == ("query"@, expression));
    assert(params[1] == ("start"@, int_text(start as int)));
    assert(params[2] == ("end"@, int_text(end as int)));
    assert(params[3] == ("step"@, int_text(step as int) + "s"@));
    assert("start"@.len() == 5 && "end"@.len() == 3 && "step"@.len() == 4 && "orgId"@.len() == 5);
    if let Some(o) = org {
        assert(params[4] == ("orgId"@, o));
        lemma_carries(params, 4, "orgId"@, o);
    }
    lemma_carries(params, 0, "query"@, expression);
    lemma_carries(params, 1, "start"@, int_text(start as int));
    lemma_carries(params, 2, "end"@, int_text(end as int));
    lemma_carries(params, 3, "step"@, int_text(step as int) + "s"@);
}

/// The requests for the series of a panel are one for each of its queries, in their order: each
/// asks for the expression of its query, over the range and at the step of the panel, of the
/// organization that is given.
pub proof fn every_query_of_a_panel_is_asked(
    base: UrlView,
    selection: SelectionView,
    uid: Seq<char>,
    org: Option<Seq<char>>,
)
    ensures
        query_plan(base, selection, uid, org, true).len() == 0,
        query_plan(base, selection, uid, org, false).len() == selection.targets.len(),
        forall|k: int|
            0 <= k < selection.targets.len() ==> (#[trigger] query_plan(base, selection, uid, org, false)[k] matches Ok(r)
                ==> asks_for(
                r.params,
                selection.targets[k].expression,
                selection.start,
                selection.end,
                selection.step,
                org,
            ) && (url_below(base, "/api/datasources/proxy/uid/"@ + uid + "/api/v1/query_range"@) matches Ok(u) && r.path
                == u.text)),
{
    let plan = query_plan(base, selection, uid, org, false);
    assert forall|k: int| 0 <= k < selection.targets.len() implies (#[trigger] plan[k] matches Ok(r) ==> asks_for(
        r.params,
        selection.targets[k].expression,
        selection.start,
        selection.end,
        selection.step,
        org,
    ) && (url_below(base, "/api/datasources/proxy/uid/"@ + uid + "/api/v1/query_range"@) matches Ok(u) && r.path
        == u.text)) by {
        lemma_query_params(
            selection.targets[k].expression,
            selection.start,
            selection.end,
            selection.step,
            org,
        );
    }
}

} // verus!
