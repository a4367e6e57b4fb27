//! Reports: from a dashboard and a panel of it to what is printed of its series.

use super::panels::{
    collect_panels, dashboard_panels, meant_panel, read_str_or, select_panel, str_or, Panel, PanelView,
};
use super::range::{iso_seconds, iso_text, range_of, resolve_range, Asked, AskedView};
use super::series::{legend, legend_text};
use super::table::Table;
use super::targets::{panel_targets, resolve_targets, target_views, Target, TargetView};
use super::url::{
    authority, authority_of, grafana_url, url_below, DashboardRef, RefView, UrlParts, UrlView,
};
use super::variables::{datasource_in, datasource_parts, resolve_variables, variables_of};
use crate::json::{
    array, fields, int_value, items, json_int, member, object, push_field, push_item, size_value, str_value,
    Json, JsonView,
};
use crate::live::request::{Request, RequestView};
use crate::number::{decimal, int_text, int_to_text, size_to_text};
use crate::text::{
    append_texts, ascii_lowered, cut_back, opt_str, opt_text, owned, pairs, push_pair, push_text, quote,
    quoted, replace_char, texts, to_ascii_lower, trim_back, with_replaced, CharSet,
};
use crate::views::{Output, OutputView};
use vstd::prelude::*;

verus! {

/// The number of an organization as a parameter, where there is one.
pub open spec fn org_param(org: Option<Seq<char>>) -> Seq<(Seq<char>, Seq<char>)> {
    match org {
        Some(o) => seq![("orgId"@, o)],
        None => Seq::<(Seq<char>, Seq<char>)>::empty(),
    }
}

/// The request for a path below the base URL.
pub open spec fn request_below(
    base: UrlView,
    path: Seq<char>,
    params: Seq<(Seq<char>, Seq<char>)>,
) -> Result<RequestView, Seq<char>> {
    match url_below(base, path) {
        Ok(u) => Ok(RequestView { path: u.text, params }),
        Err(e) => Err(e),
    }
}

/// The view of a request or of why there is none.
pub open spec fn request_outcome(r: Result<Request, String>) -> Result<RequestView, Seq<char>> {
    match r {
        Ok(q) => Ok(q@),
        Err(e) => Err(e@),
    }
}

fn make_request(base: &UrlParts, path: &str, params: Vec<(String, String)>) -> (r: Result<Request, String>)
    ensures
        request_outcome(r) == request_below(base@, path@, pairs(params@)),
{
    match grafana_url(base, path) {
        Ok(u) => Ok(Request { path: u.text, params }),
        Err(e) => Err(e),
    }
}

fn org_params(org: &Option<String>) -> (r: Vec<(String, String)>)
    ensures
        pairs(r@) == org_param(opt_text(*org)),
{
    let mut params: Vec<(String, String)> = Vec::new();
    if let Some(o) = org {
        push_pair(&mut params, "orgId", o.as_str());
    }
    assert(pairs(params@) =~= org_param(opt_text(*org)));
    params
}

/// Makes the request for a dashboard.
pub fn dashboard_request(base: &UrlParts, reference: &DashboardRef) -> (r: Result<Request, String>)
    ensures
        request_outcome(r) == request_below(
            base@,
            "/api/dashboards/uid/"@ + reference.uid@,
            org_param(opt_text(reference.org_id)),
        ),
{
    let mut path = owned("/api/dashboards/uid/");
    path.append(reference.uid.as_str());
    make_request(base, path.as_str(), org_params(&reference.org_id))
}

/// Makes the request for a datasource.
pub fn datasource_request(base: &UrlParts, uid: &str, org: &Option<String>) -> (r: Result<Request, String>)
    ensures
        request_outcome(r) == request_below(
            base@,
            "/api/datasources/uid/"@ + uid@,
            org_param(opt_text(*org)),
        ),
{
    let mut path = owned("/api/datasources/uid/");
    path.append(uid);
    make_request(base, path.as_str(), org_params(org))
}

/// The parameters of a query over a range.
pub open spec fn query_params(
    expression: Seq<char>,
    start: i64,
    end: i64,
    step: i64,
    org: Option<Seq<char>>,
) -> Seq<(Seq<char>, Seq<char>)> {
    seq![
        ("query"@, expression),
        ("start"@, int_text(start as int)),
        ("end"@, int_text(end as int)),
        ("step"@, int_text(step as int) + "s"@),
    ] + org_param(org)
}

/// Makes the request for the series of a query.
pub fn query_prometheus(
    base: &UrlParts,
    uid: &str,
    expression: &str,
    start: i64,
    end: i64,
    step: i64,
    org: &Option<String>,
) -> (r: Result<Request, String>)
    ensures
        request_outcome(r) == request_below(
            base@,
            "/api/datasources/proxy/uid/"@ + uid@ + "/api/v1/query_range"@,
            query_params(expression@, start, end, step, opt_text(*org)),
        ),
{
    let mut path = owned("/api/datasources/proxy/uid/");
    path.append(uid);
    path.append("/api/v1/query_range");
    let mut s = int_to_text(step);
    s.append("s");
    let mut params: Vec<(String, String)> = Vec::new();
    push_pair(&mut params, "query", expression);
    push_pair(&mut params, "start", int_to_text(start).as_str());
    push_pair(&mut params, "end", int_to_text(end).as_str());
    push_pair(&mut params, "step", s.as_str());
    if let Some(o) = org {
        push_pair(&mut params, "orgId", o.as_str());
    }
    assert(pairs(params@) =~= query_params(expression@, start, end, step, opt_text(*org)));
    make_request(base, path.as_str(), params)
}

/// The requests for the series of a panel: one for each of its queries, in their order and all
/// over the one range, or none where only the queries are wanted.
pub open spec fn query_plan(
    base: UrlView,
    selection: SelectionView,
    uid: Seq<char>,
    org: Option<Seq<char>>,
    query_only: bool,
) -> Seq<Result<RequestView, Seq<char>>> {
    if query_only {
        Seq::<Result<RequestView, Seq<char>>>::empty()
    } else {
        selection.targets.map_values(
            |t: TargetView|
                request_below(
                    base,
                    "/api/datasources/proxy/uid/"@ + uid + "/api/v1/query_range"@,
                    query_params(t.expression, selection.start, selection.end, selection.step, org),
                ),
        )
    }
}

/// The views of requests or of why there are none.
pub open spec fn request_outcomes(v: Seq<Result<Request, String>>) -> Seq<Result<RequestView, Seq<char>>> {
    v.map_values(|r: Result<Request, String>| request_outcome(r))
}

/// Makes the requests for the series of a panel.
pub fn planned_queries(
    base: &UrlParts,
    selection: &Selection,
    uid: &str,
    org: &Option<String>,
    query_only: bool,
) -> (r: Vec<Result<Request, String>>)
    ensures
        request_outcomes(r@) == query_plan(base@, selection@, uid@, opt_text(*org), query_only),
        query_only ==> r@.len() == 0,
        !query_only ==> r@.len() == selection.targets@.len(),
{
    let ghost whole = query_plan(base@, selection@, uid@, opt_text(*org), query_only);
    let mut out: Vec<Result<Request, String>> = Vec::new();
    if query_only {
        assert(request_outcomes(out@) =~= whole);
        return out;
    }
    for i in 0..selection.targets.len()
        invariant
            !query_only,
            whole == query_plan(base@, selection@, uid@, opt_text(*org), query_only),
            whole.len() == selection.targets@.len(),
            out@.len() == i,
            request_outcomes(out@) == whole.take(i as int),
    {
        let t = &selection.targets[i];
        let q = query_prometheus(base, uid, t.expression.as_str(), selection.start, selection.end, selection.step, org);
        assert(selection@.targets[i as int] == t@);
        let ghost so_far = request_outcomes(out@);
        let ghost one = request_outcome(q);
        out.push(q);
        assert(request_outcomes(out@) =~= so_far.push(one));
        assert(whole.take(i as int + 1) =~= so_far.push(whole[i as int]));
    }
    assert(whole.take(selection.targets@.len() as int) =~= whole);
    out
}

/// What is asked for on the command line, besides the URL.
pub struct Options<'a> {
    pub panel: Option<&'a str>,
    pub since: Option<&'a str>,
    pub start: Option<&'a str>,
    pub end: Option<&'a str>,
    pub step: Option<&'a str>,
    pub vars: &'a Vec<String>,
}

/// The model of what is asked for on the command line.
pub struct OptionsView {
    pub panel: Option<Seq<char>>,
    pub since: Option<Seq<char>>,
    pub start: Option<Seq<char>>,
    pub end: Option<Seq<char>>,
    pub step: Option<Seq<char>>,
    pub vars: Seq<Seq<char>>,
}

impl<'a> View for Options<'a> {
    type V = OptionsView;

    open spec fn view(&self) -> OptionsView {
        OptionsView {
            panel: opt_str(self.panel),
            since: opt_str(self.since),
            start: opt_str(self.start),
            end: opt_str(self.end),
            step: opt_str(self.step),
            vars: texts(self.vars@),
        }
    }
}

/// A panel that is to be looked at: over which range, with which variables, and which queries go
/// to which datasource.
pub struct Selection {
    pub title: String,
    pub panel: Panel,
    pub start: i64,
    pub end: i64,
    pub step: i64,
    pub variables: Table,
    pub datasource: (String, String),
    pub targets: Vec<Target>,
}

/// The model of a panel that is to be looked at.
#[verifier::ext_equal]
pub struct SelectionView {
    pub title: Seq<char>,
    pub panel: PanelView,
    pub start: i64,
    pub end: i64,
    pub step: i64,
    pub variables: Seq<(Seq<char>, Seq<char>)>,
    pub datasource: (Seq<char>, Seq<char>),
    pub targets: Seq<TargetView>,
}

impl View for Selection {
    type V = SelectionView;

    open spec fn view(&self) -> SelectionView {
        SelectionView {
            title: self.title@,
            panel: self.panel@,
            start: self.start,
            end: self.end,
            step: self.step,
            variables: self.variables@,
            datasource: (self.datasource.0@, self.datasource.1@),
            targets: target_views(self.targets@),
        }
    }
}

/// What is asked for on the range, on the command line and in the URL.
pub open spec fn asked_range(reference: RefView, options: OptionsView) -> AskedView {
    AskedView {
        since: options.since,
        start: options.start,
        end: options.end,
        url_from: reference.from,
        url_to: reference.to,
        step: options.step,
    }
}

/// The queries of a panel over a range, with everything that they need.
pub open spec fn selected_queries(
    dashboard: JsonView,
    panel: PanelView,
    range: (i64, i64, i64),
    reference: RefView,
    options: OptionsView,
) -> Result<SelectionView, Seq<char>> {
    match variables_of(dashboard, reference.variables, options.vars, range.2, (range.1 - range.0) as i64) {
        Err(e) => Err(e),
        Ok(variables) => match datasource_in(panel.datasource, variables) {
            Err(e) => Err(e),
            Ok(datasource) => match panel_targets(panel, datasource, variables) {
                Err(e) => Err(e),
                Ok(targets) => Ok(
                    SelectionView {
                        title: str_or(dashboard, "title"@, "(untitled)"@),
                        panel,
                        start: range.0,
                        end: range.1,
                        step: range.2,
                        variables,
                        datasource,
                        targets,
                    },
                ),
            },
        },
    }
}

/// The panel of a reply that is to be looked at, or why there is none.
pub open spec fn selection_of(
    envelope: JsonView,
    reference: RefView,
    options: OptionsView,
    now: i64,
) -> Result<SelectionView, Seq<char>> {
    match member(envelope, "dashboard"@) {
        None => Err("Grafana dashboard response has no dashboard object"@),
        Some(dashboard) => match meant_panel(dashboard_panels(dashboard), options.panel, reference.panel_id) {
            Err(e) => Err(e),
            Ok(panel) => match range_of(asked_range(reference, options), now) {
                Err(e) => Err(e),
                Ok(range) => selected_queries(dashboard, panel, range, reference, options),
            },
        },
    }
}

fn borrow(o: &Option<String>) -> (r: Option<&str>)
    ensures
        opt_str(r) == opt_text(*o),
{
    match o {
        Some(s) => Some(s.as_str()),
        None => None,
    }
}

/// Selects the panel of a reply that is to be looked at.
pub fn select(envelope: &Json, reference: &DashboardRef, options: &Options, now: i64) -> (r: Result<
    Selection,
    String,
>)
    requires
        now >= 0,
    ensures
        match r {
            Ok(s) => selection_of(envelope@, reference@, options@, now) == Ok::<SelectionView, Seq<char>>(s@)
                && s.variables.wf() && s.start < s.end && 0 < s.step <= s.end - s.start,
            Err(e) => selection_of(envelope@, reference@, options@, now) == Err::<SelectionView, Seq<char>>(e@),
        },
{
    let dashboard = match envelope.get("dashboard") {
        Some(d) => d,
        None => {
            return Err(owned("Grafana dashboard response has no dashboard object"));
        },
    };
    let panels = collect_panels(dashboard);
    let panel = match select_panel(&panels, options.panel, reference.panel_id) {
        Ok(p) => p,
        Err(e) => {
            return Err(e);
        },
    };
    let asked = Asked {
        since: options.since,
        start: options.start,
        end: options.end,
        url_from: borrow(&reference.from),
        url_to: borrow(&reference.to),
        step: options.step,
    };
    let (start, end, step) = match resolve_range(&asked, now) {
        Ok(t) => t,
        Err(e) => {
            return Err(e);
        },
    };
    proof {
        super::range::ranges_are_sound(asked@, now);
    }
    let variables = match resolve_variables(dashboard, &reference.variables, options.vars, step, end - start) {
        Ok(v) => v,
        Err(e) => {
            return Err(e);
        },
    };
    let datasource = match datasource_parts(&panel.datasource, &variables) {
        Ok(d) => d,
        Err(e) => {
            return Err(e);
        },
    };
    let targets = match resolve_targets(&panel, &datasource, &variables) {
        Ok(t) => t,
        Err(e) => {
            return Err(e);
        },
    };
    let title = read_str_or(dashboard, "title", "(untitled)");
    Ok(Selection { title, panel, start, end, step, variables, datasource, targets })
}

/// A datasource, as it is printed.
pub struct DatasourceInfo {
    pub uid: String,
    pub name: String,
    pub kind: String,
}

/// The model of a datasource.
#[verifier::ext_equal]
pub struct DatasourceView {
    pub uid: Seq<char>,
    pub name: Seq<char>,
    pub kind: Seq<char>,
}

impl View for DatasourceInfo {
    type V = DatasourceView;

    open spec fn view(&self) -> DatasourceView {
        DatasourceView { uid: self.uid@, name: self.name@, kind: self.kind@ }
    }
}

/// The datasource of a reply, which must be one of Prometheus.
pub open spec fn prometheus_in(ds: JsonView, uid: Seq<char>) -> Result<DatasourceView, Seq<char>> {
    let kind = str_or(ds, "type"@, ""@);
    if ascii_lowered(kind) != ascii_lowered("prometheus"@) {
        Err(
            "unsupported datasource type "@ + quoted(kind) + "; dashboard v1 supports Prometheus only"@,
        )
    } else {
        Ok(DatasourceView { uid, name: str_or(ds, "name"@, "(unnamed)"@), kind })
    }
}

/// Reads the datasource of a reply.
pub fn read_datasource(ds: &Json, uid: &str) -> (r: Result<DatasourceInfo, String>)
    ensures
        match r {
            Ok(d) => prometheus_in(ds@, uid@) == Ok::<DatasourceView, Seq<char>>(d@),
            Err(e) => prometheus_in(ds@, uid@) == Err::<DatasourceView, Seq<char>>(e@),
        },
{
    let kind = read_str_or(ds, "type", "");
    if !(*to_ascii_lower(kind.as_str()).as_str() == *to_ascii_lower("prometheus").as_str()) {
        let mut e = owned("unsupported datasource type ");
        e.append(quote(kind.as_str()).as_str());
        e.append("; dashboard v1 supports Prometheus only");
        return Err(e);
    }
    Ok(DatasourceInfo { uid: owned(uid), name: read_str_or(ds, "name", "(unnamed)"), kind })
}

/// A series with its figures: as they are printed, and as JSON.
pub struct SeriesOutput {
    pub labels: Table,
    pub last: String,
    pub min: String,
    pub average: String,
    pub max: String,
    pub points: usize,
    pub first_value: Json,
    pub last_value: Json,
    pub min_value: Json,
    pub average_value: Json,
    pub max_value: Json,
}

/// A query with its series.
pub struct TargetOutput {
    pub ref_id: String,
    pub expression: String,
    pub legend_format: Option<String>,
    pub series: Vec<SeriesOutput>,
}

/// What is printed of a panel.
pub struct DashboardOutput {
    pub uid: String,
    pub title: String,
    pub url: String,
    pub panel: Panel,
    pub datasource: DatasourceInfo,
    pub start: String,
    pub end: String,
    pub step_seconds: i64,
    pub variables: Table,
    pub targets: Vec<TargetOutput>,
}

/// The URL of a dashboard without anything that says how to look at it.
pub open spec fn canonical_url(base: UrlView, uid: Seq<char>, slug: Seq<char>) -> Seq<char> {
    base.scheme + "://"@ + authority_of(base) + cut_back(base.path, CharSet::Only('/')) + "/d/"@ + uid + "/"@
        + slug
}

/// Gathers what is printed of a panel; `otherwise` stands for a time that the calendar lacks.
pub fn assemble(
    base: &UrlParts,
    reference: &DashboardRef,
    selection: Selection,
    datasource: DatasourceInfo,
    targets: Vec<TargetOutput>,
    otherwise: &str,
) -> (r: DashboardOutput)
    ensures
        r.uid@ == reference.uid@,
        r.title@ == selection.title@,
        r.url@ == canonical_url(base@, reference.uid@, reference.slug@),
        r.panel == selection.panel,
        r.datasource == datasource,
        r.start@ == iso_text(selection.start, otherwise@),
        r.end@ == iso_text(selection.end, otherwise@),
        r.step_seconds == selection.step,
        r.variables == selection.variables,
        r.targets == targets,
{
    let mut url = owned(base.scheme.as_str());
    url.append("://");
    url.append(authority(base).as_str());
    url.append(trim_back(base.path.as_str(), CharSet::Only('/')).as_str());
    url.append("/d/");
    url.append(reference.uid.as_str());
    url.append("/");
    url.append(reference.slug.as_str());
    DashboardOutput {
        uid: owned(reference.uid.as_str()),
        title: selection.title,
        url,
        panel: selection.panel,
        datasource,
        start: iso_seconds(selection.start, otherwise),
        end: iso_seconds(selection.end, otherwise),
        step_seconds: selection.step,
        variables: selection.variables,
        targets,
    }
}

/// The line on a series.
pub open spec fn series_line(template: Option<Seq<char>>, s: SeriesOutput) -> Seq<char> {
    "  "@ + legend_text(template, s.labels@) + "  last="@ + s.last@ + "  min="@ + s.min@ + "  sample_avg="@
        + s.average@ + "  max="@ + s.max@ + "  points="@ + decimal(s.points as nat)
}

/// The lines on a query: the query itself and, unless only queries are asked for, its series.
pub open spec fn target_lines(t: TargetOutput, query_only: bool) -> Seq<Seq<char>> {
    seq!["\nTarget "@ + t.ref_id@ + ":\n  "@ + with_replaced(t.expression@, '\n', "\n  "@)] + if query_only {
        Seq::<Seq<char>>::empty()
    } else {
        seq!["\nSeries:"@] + if t.series@.len() == 0 {
            seq!["  no data"@]
        } else {
            t.series@.map_values(|s: SeriesOutput| series_line(opt_text(t.legend_format), s))
        }
    }
}

/// The lines on queries.
pub open spec fn all_target_lines(v: Seq<TargetOutput>, query_only: bool) -> Seq<Seq<char>>
    decreases v.len(),
{
    if v.len() == 0 {
        Seq::<Seq<char>>::empty()
    } else {
        all_target_lines(v.drop_last(), query_only) + target_lines(v.last(), query_only)
    }
}

/// The lines on a panel.
pub open spec fn panel_lines(o: DashboardOutput, query_only: bool) -> Seq<Seq<char>> {
    seq![
        "Dashboard:  "@ + o.title@,
        "Panel:      "@ + int_text(o.panel.id as int) + " — "@ + o.panel.title@,
        "Datasource: "@ + o.datasource.name@,
        "Range:      "@ + o.start@ + " .. "@ + o.end@,
        "Step:       "@ + int_text(o.step_seconds as int) + "s"@,
    ] + all_target_lines(o.targets@, query_only)
}

fn print_series(template: &Option<String>, s: &SeriesOutput) -> (r: String)
    ensures
        r@ == series_line(opt_text(*template), *s),
{
    let mut t = owned("  ");
    t.append(legend(borrow(template), &s.labels).as_str());
    t.append("  last=");
    t.append(s.last.as_str());
    t.append("  min=");
    t.append(s.min.as_str());
    t.append("  sample_avg=");
    t.append(s.average.as_str());
    t.append("  max=");
    t.append(s.max.as_str());
    t.append("  points=");
    t.append(size_to_text(s.points).as_str());
    t
}

fn print_target(t: &TargetOutput, query_only: bool) -> (r: Vec<String>)
    ensures
        texts(r@) == target_lines(*t, query_only),
{
    let mut out: Vec<String> = Vec::new();
    let mut s = owned("\nTarget ");
    s.append(t.ref_id.as_str());
    s.append(":\n  ");
    s.append(replace_char(t.expression.as_str(), '\n', "\n  ").as_str());
    let ghost head = s@;
    push_text(&mut out, s);
    assert(texts(out@) =~= seq![head]);
    if query_only {
        assert(texts(out@) =~= seq![head] + Seq::<Seq<char>>::empty());
        return out;
    }
    push_text(&mut out, owned("\nSeries:"));
    let n: usize = t.series.len();
    if n == 0 {
        push_text(&mut out, owned("  no data"));
        assert(texts(out@) =~= seq![head] + (seq!["\nSeries:"@] + seq!["  no data"@]));
        return out;
    }
    let ghost whole = t.series@.map_values(|s: SeriesOutput| series_line(opt_text(t.legend_format), s));
    assert(texts(out@) =~= seq![head] + (seq!["\nSeries:"@] + whole.take(0)));
    for i in 0..n
        invariant
            n == t.series@.len(),
            whole == t.series@.map_values(|s: SeriesOutput| series_line(opt_text(t.legend_format), s)),
            texts(out@) == seq![head] + (seq!["\nSeries:"@] + whole.take(i as int)),
    {
        let ghost so_far = texts(out@);
        push_text(&mut out, print_series(&t.legend_format, &t.series[i]));
        assert(seq![head] + (seq!["\nSeries:"@] + whole.take(i as int + 1)) =~= so_far.push(whole[i as int]));
    }
    assert(whole.take(n as int) =~= whole);
    out
}

/// Prints a panel as lines.
pub fn print_text(o: &DashboardOutput, query_only: bool) -> (r: Vec<String>)
    ensures
        texts(r@) == panel_lines(*o, query_only),
{
    let mut a = owned("Dashboard:  ");
    a.append(o.title.as_str());
    let mut b = owned("Panel:      ");
    b.append(int_to_text(o.panel.id).as_str());
    b.append(" — ");
    b.append(o.panel.title.as_str());
    let mut c = owned("Datasource: ");
    c.append(o.datasource.name.as_str());
    let mut d = owned("Range:      ");
    d.append(o.start.as_str());
    d.append(" .. ");
    d.append(o.end.as_str());
    let mut e = owned("Step:       ");
    e.append(int_to_text(o.step_seconds).as_str());
    e.append("s");
    let ghost head = seq![a@, b@, c@, d@, e@];
    let mut out: Vec<String> = Vec::new();
    push_text(&mut out, a);
    push_text(&mut out, b);
    push_text(&mut out, c);
    push_text(&mut out, d);
    push_text(&mut out, e);
    let ghost all = o.targets@;
    assert(texts(out@) =~= head + all_target_lines(all.take(0), query_only));
    let n: usize = o.targets.len();
    for i in 0..n
        invariant
            n == o.targets@.len(),
            all == o.targets@,
            texts(out@) == head + all_target_lines(all.take(i as int), query_only),
    {
        let ghost so_far = all_target_lines(all.take(i as int), query_only);
        assert(all.take(i as int + 1).drop_last() =~= all.take(i as int));
        assert(all.take(i as int + 1).last() == all[i as int]);
        let more = print_target(&o.targets[i], query_only);
        assert((head + so_far) + texts(more@) =~= head + (so_far + texts(more@)));
        append_texts(&mut out, more);
    }
    assert(all.take(n as int) =~= all);
    out
}

/// A table as JSON.
pub open spec fn table_value(t: Seq<(Seq<char>, Seq<char>)>) -> JsonView {
    JsonView::Object(t.map_values(|e: (Seq<char>, Seq<char>)| (e.0, JsonView::Str(e.1))))
}

fn pack_table(t: &Table) -> (r: Json)
    ensures
        r@ == table_value(t@),
{
    let ghost whole = t@.map_values(|e: (Seq<char>, Seq<char>)| (e.0, JsonView::Str(e.1)));
    let mut o: Vec<(String, Json)> = Vec::new();
    let n: usize = t.entries.len();
    for i in 0..n
        invariant
            n == t.entries@.len(),
            whole == t@.map_values(|e: (Seq<char>, Seq<char>)| (e.0, JsonView::Str(e.1))),
            fields(o@) == whole.take(i as int),
    {
        let ghost so_far = fields(o@);
        push_field(&mut o, t.entries[i].0.as_str(), str_value(t.entries[i].1.as_str()));
        assert(whole.take(i as int + 1) =~= so_far.push(whole[i as int]));
    }
    assert(whole.take(n as int) =~= whole);
    object(o)
}

/// A text that may be missing as JSON.
pub open spec fn opt_value(o: Option<Seq<char>>) -> JsonView {
    match o {
        Some(s) => JsonView::Str(s),
        None => JsonView::Null,
    }
}

fn pack_opt(o: &Option<String>) -> (r: Json)
    ensures
        r@ == opt_value(opt_text(*o)),
{
    match o {
        Some(s) => str_value(s.as_str()),
        None => Json::Null,
    }
}

/// A series as JSON.
pub open spec fn series_value(s: SeriesOutput) -> JsonView {
    JsonView::Object(
        seq![
            ("labels"@, table_value(s.labels@)),
            (
                "summary"@,
                JsonView::Object(
                    seq![
                        ("first"@, s.first_value@),
                        ("last"@, s.last_value@),
                        ("min"@, s.min_value@),
                        ("average"@, s.average_value@),
                        ("max"@, s.max_value@),
                        ("point_count"@, json_int(s.points as int)),
                    ],
                ),
            ),
        ],
    )
}

fn pack_series(s: &SeriesOutput) -> (r: Json)
    ensures
        r@ == series_value(*s),
{
    let mut m: Vec<(String, Json)> = Vec::new();
    push_field(&mut m, "first", s.first_value.copy());
    push_field(&mut m, "last", s.last_value.copy());
    push_field(&mut m, "min", s.min_value.copy());
    push_field(&mut m, "average", s.average_value.copy());
    push_field(&mut m, "max", s.max_value.copy());
    push_field(&mut m, "point_count", size_value(s.points));
    let ghost want = series_value(*s)->Object_0;
    assert(fields(m@) =~= (want[1].1)->Object_0);
    let mut o: Vec<(String, Json)> = Vec::new();
    push_field(&mut o, "labels", pack_table(&s.labels));
    push_field(&mut o, "summary", object(m));
    assert(fields(o@) =~= want);
    object(o)
}

/// A query as JSON.
pub open spec fn target_value(t: TargetOutput) -> JsonView {
    JsonView::Object(
        seq![
            ("ref_id"@, JsonView::Str(t.ref_id@)),
            ("expression"@, JsonView::Str(t.expression@)),
            ("legend_format"@, opt_value(opt_text(t.legend_format))),
            ("series"@, JsonView::Array(t.series@.map_values(|s: SeriesOutput| series_value(s)))),
        ],
    )
}

fn pack_target(t: &TargetOutput) -> (r: Json)
    ensures
        r@ == target_value(*t),
{
    let ghost whole = t.series@.map_values(|s: SeriesOutput| series_value(s));
    let mut v: Vec<Json> = Vec::new();
    let n: usize = t.series.len();
    for i in 0..n
        invariant
            n == t.series@.len(),
            whole == t.series@.map_values(|s: SeriesOutput| series_value(s)),
            items(v@) == whole.take(i as int),
    {
        let ghost so_far = items(v@);
        push_item(&mut v, pack_series(&t.series[i]));
        assert(whole.take(i as int + 1) =~= so_far.push(whole[i as int]));
    }
    assert(whole.take(n as int) =~= whole);
    let mut o: Vec<(String, Json)> = Vec::new();
    push_field(&mut o, "ref_id", str_value(t.ref_id.as_str()));
    push_field(&mut o, "expression", str_value(t.expression.as_str()));
    push_field(&mut o, "legend_format", pack_opt(&t.legend_format));
    push_field(&mut o, "series", array(v));
    assert(fields(o@) =~= target_value(*t)->Object_0);
    object(o)
}

/// The dashboard, the panel and the datasource of a report as JSON.
pub open spec fn heading_fields(o: DashboardOutput) -> Seq<(Seq<char>, JsonView)> {
    seq![
        (
            "dashboard"@,
            JsonView::Object(
                seq![
                    ("uid"@, JsonView::Str(o.uid@)),
                    ("title"@, JsonView::Str(o.title@)),
                    ("url"@, JsonView::Str(o.url@)),
                ],
            ),
        ),
        (
            "panel"@,
            JsonView::Object(
                seq![
                    ("id"@, json_int(o.panel.id as int)),
                    ("title"@, JsonView::Str(o.panel.title@)),
                    ("type"@, JsonView::Str(o.panel.kind@)),
                    ("unit"@, opt_value(opt_text(o.panel.unit))),
                ],
            ),
        ),
        (
            "datasource"@,
            JsonView::Object(
                seq![
                    ("uid"@, JsonView::Str(o.datasource.uid@)),
                    ("name"@, JsonView::Str(o.datasource.name@)),
                    ("type"@, JsonView::Str(o.datasource.kind@)),
                ],
            ),
        ),
        (
            "range"@,
            JsonView::Object(
                seq![
                    ("start"@, JsonView::Str(o.start@)),
                    ("end"@, JsonView::Str(o.end@)),
                    ("step_seconds"@, json_int(o.step_seconds as int)),
                ],
            ),
        ),
    ]
}

fn pack_heading(o: &DashboardOutput) -> (r: Vec<(String, Json)>)
    ensures
        fields(r@) == heading_fields(*o),
{
    let ghost want = heading_fields(*o);
    let mut d: Vec<(String, Json)> = Vec::new();
    push_field(&mut d, "uid", str_value(o.uid.as_str()));
    push_field(&mut d, "title", str_value(o.title.as_str()));
    push_field(&mut d, "url", str_value(o.url.as_str()));
    assert(fields(d@) =~= (want[0].1)->Object_0);
    let mut p: Vec<(String, Json)> = Vec::new();
    push_field(&mut p, "id", int_value(o.panel.id));
    push_field(&mut p, "title", str_value(o.panel.title.as_str()));
    push_field(&mut p, "type", str_value(o.panel.kind.as_str()));
    push_field(&mut p, "unit", pack_opt(&o.panel.unit));
    assert(fields(p@) =~= (want[1].1)->Object_0);
    let mut s: Vec<(String, Json)> = Vec::new();
    push_field(&mut s, "uid", str_value(o.datasource.uid.as_str()));
    push_field(&mut s, "name", str_value(o.datasource.name.as_str()));
    push_field(&mut s, "type", str_value(o.datasource.kind.as_str()));
    assert(fields(s@) =~= (want[2].1)->Object_0);
    let mut g: Vec<(String, Json)> = Vec::new();
    push_field(&mut g, "start", str_value(o.start.as_str()));
    push_field(&mut g, "end", str_value(o.end.as_str()));
    push_field(&mut g, "step_seconds", int_value(o.step_seconds));
    assert(fields(g@) =~= (want[3].1)->Object_0);
    let mut r: Vec<(String, Json)> = Vec::new();
    push_field(&mut r, "dashboard", object(d));
    push_field(&mut r, "panel", object(p));
    push_field(&mut r, "datasource", object(s));
    push_field(&mut r, "range", object(g));
    assert(fields(r@) =~= want);
    r
}

/// A panel as JSON.
pub open spec fn panel_value(o: DashboardOutput) -> JsonView {
    JsonView::Object(
        heading_fields(o) + seq![
            ("variables"@, table_value(o.variables@)),
            ("targets"@, JsonView::Array(o.targets@.map_values(|t: TargetOutput| target_value(t)))),
        ],
    )
}

fn pack_panel(o: &DashboardOutput) -> (r: Json)
    ensures
        r@ == panel_value(*o),
{
    let ghost whole = o.targets@.map_values(|t: TargetOutput| target_value(t));
    let mut v: Vec<Json> = Vec::new();
    let n: usize = o.targets.len();
    for i in 0..n
        invariant
            n == o.targets@.len(),
            whole == o.targets@.map_values(|t: TargetOutput| target_value(t)),
            items(v@) == whole.take(i as int),
    {
        let ghost so_far = items(v@);
        push_item(&mut v, pack_target(&o.targets[i]));
        assert(whole.take(i as int + 1) =~= so_far.push(whole[i as int]));
    }
    assert(whole.take(n as int) =~= whole);
    let mut r = pack_heading(o);
    push_field(&mut r, "variables", pack_table(&o.variables));
    push_field(&mut r, "targets", array(v));
    assert(fields(r@) =~= panel_value(*o)->Object_0);
    object(r)
}

/// What is printed of a panel.
pub open spec fn panel_output(o: DashboardOutput, json_out: bool, query_only: bool) -> OutputView {
    if json_out {
        OutputView::Value(panel_value(o))
    } else {
        OutputView::Lines(panel_lines(o, query_only))
    }
}

/// Prints a panel.
pub fn report_panel(o: &DashboardOutput, json_out: bool, query_only: bool) -> (r: Output)
    ensures
        r@ == panel_output(*o, json_out, query_only),
{
    if json_out {
        Output::Value(pack_panel(o))
    } else {
        Output::Lines(print_text(o, query_only))
    }
}

} // verus!
