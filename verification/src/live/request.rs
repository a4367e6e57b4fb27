//! Requests: what is asked of Loki for each command.

use super::duration::{secs_in, try_duration_secs};
use super::scope::{apply_ns, apply_ns_opt, matcher_for, ns_matcher, resolve_ns, scoped_option, scoped_query, scoped_to};
use super::window::{bad_duration, tiling_warning, warn_tiling, window, window_bounds, window_label, TimeRangeView, Window};
use crate::cli::{Ns, TimeRange};
use crate::number::{decimal, int_text, int_to_text, size_to_text};
use crate::text::{opt_str, opt_text, owned, pairs, push_pair, quoted, texts};
use vstd::prelude::*;

verus! {

/// A request to Grafana: a path, and the parameters of the query.
pub struct Request {
    pub path: String,
    pub params: Vec<(String, String)>,
}

/// The model of a request.
#[verifier::ext_equal]
pub struct RequestView {
    pub path: Seq<char>,
    pub params: Seq<(Seq<char>, Seq<char>)>,
}

impl View for Request {
    type V = RequestView;

    open spec fn view(&self) -> RequestView {
        RequestView { path: self.path@, params: pairs(self.params@) }
    }
}

/// The path of a datasource behind its proxy.
pub open spec fn proxy_path(id: i64, subpath: Seq<char>) -> Seq<char> {
    "/api/datasources/proxy/"@ + int_text(id as int) + subpath
}

fn proxy(id: i64, subpath: &str) -> (r: String)
    ensures
        r@ == proxy_path(id, subpath@),
{
    let mut s = owned("/api/datasources/proxy/");
    s.append(int_to_text(id).as_str());
    s.append(subpath);
    s
}

/// The bounds of a window as parameters.
pub open spec fn bounds(start: i64, end: i64) -> Seq<(Seq<char>, Seq<char>)> {
    seq![("start"@, int_text(start as int)), ("end"@, int_text(end as int))]
}

/// The request for log lines, the newest first.
pub open spec fn live_request(id: i64, query: Seq<char>, start: i64, end: i64, limit: nat) -> RequestView {
    RequestView {
        path: proxy_path(id, "/loki/api/v1/query_range"@),
        params: seq![("query"@, query)] + bounds(start, end) + seq![
            ("limit"@, decimal(limit)),
            ("direction"@, "backward"@),
        ],
    }
}

/// The request for the points of a metric.
pub open spec fn metric_request(id: i64, query: Seq<char>, start: i64, end: i64, step: i64) -> RequestView {
    RequestView {
        path: proxy_path(id, "/loki/api/v1/query_range"@),
        params: seq![("query"@, query)] + bounds(start, end) + seq![("step"@, int_text(step as int) + "s"@)],
    }
}

/// A query as a parameter, where there is one.
pub open spec fn query_param(query: Option<Seq<char>>) -> Seq<(Seq<char>, Seq<char>)> {
    match query {
        Some(q) => seq![("query"@, q)],
        None => Seq::<(Seq<char>, Seq<char>)>::empty(),
    }
}

/// The request for the names of labels.
pub open spec fn labels_request(id: i64, selector: Option<Seq<char>>, start: i64, end: i64) -> RequestView {
    RequestView {
        path: proxy_path(id, "/loki/api/v1/labels"@),
        params: bounds(start, end) + query_param(selector),
    }
}

/// The request for the values of a label.
pub open spec fn values_request(
    id: i64,
    label: Seq<char>,
    query: Option<Seq<char>>,
    start: i64,
    end: i64,
) -> RequestView {
    RequestView {
        path: proxy_path(id, "/loki/api/v1/label/"@ + label + "/values"@),
        params: bounds(start, end) + query_param(query),
    }
}

/// A request that is ready to be sent, with the query and the window that it asks for.
pub struct Plan {
    pub query: Option<String>,
    pub label: String,
    pub request: Request,
}

/// The model of a request that is ready to be sent.
#[verifier::ext_equal]
pub struct PlanView {
    pub query: Option<Seq<char>>,
    pub label: Seq<char>,
    pub request: RequestView,
}

impl View for Plan {
    type V = PlanView;

    open spec fn view(&self) -> PlanView {
        PlanView { query: opt_text(self.query), label: self.label@, request: self.request@ }
    }
}

/// The view of a plan or of why there is none.
pub open spec fn planned(r: Result<Plan, String>) -> Result<PlanView, Seq<char>> {
    match r {
        Ok(p) => Ok(p@),
        Err(e) => Err(e@),
    }
}

/// The plan for log lines.
pub open spec fn live_plan(
    id: i64,
    query: Seq<char>,
    ns: Seq<Seq<char>>,
    limit: nat,
    time: TimeRangeView,
    now: i64,
) -> Result<PlanView, Seq<char>> {
    match scoped_query(query, ns) {
        Err(e) => Err(e),
        Ok(q) => match window_bounds(time, now) {
            Err(e) => Err(e),
            Ok((start, end)) => Ok(
                PlanView {
                    query: Some(q),
                    label: window_label(time),
                    request: live_request(id, q, start, end, limit),
                },
            ),
        },
    }
}

/// Plans the request for log lines.
pub fn plan_live(id: i64, query: &str, ns: &Ns, limit: usize, time: &TimeRange, now: i64) -> (r: Result<
    Plan,
    String,
>)
    ensures
        planned(r) == live_plan(id, query@, texts(ns.namespace@), limit as nat, time@, now),
{
    let q = match apply_ns(query, ns) {
        Ok(q) => q,
        Err(e) => {
            return Err(e);
        },
    };
    let w = match window(time, now) {
        Ok(w) => w,
        Err(e) => {
            return Err(e);
        },
    };
    let mut params: Vec<(String, String)> = Vec::new();
    push_pair(&mut params, "query", q.as_str());
    push_pair(&mut params, "start", int_to_text(w.start).as_str());
    push_pair(&mut params, "end", int_to_text(w.end).as_str());
    push_pair(&mut params, "limit", size_to_text(limit).as_str());
    push_pair(&mut params, "direction", "backward");
    let request = Request { path: proxy(id, "/loki/api/v1/query_range"), params };
    assert(request@ =~= live_request(id, q@, w.start, w.end, limit as nat));
    Ok(Plan { query: Some(q), label: w.label, request })
}

/// The step of a metric in seconds: at least one.
pub open spec fn step_of(step: Seq<char>) -> Result<i64, Seq<char>> {
    match secs_in(step) {
        Some(v) => Ok(
            if v > 1 {
                v
            } else {
                1
            },
        ),
        None => Err("duration out of range "@ + quoted(step)),
    }
}

/// A plan for the points of a metric.
pub struct MetricPlan {
    pub plan: Plan,
    pub step: i64,
    pub warning: Option<String>,
}

/// The model of a plan for the points of a metric.
#[verifier::ext_equal]
pub struct MetricPlanView {
    pub plan: PlanView,
    pub step: i64,
    pub warning: Option<Seq<char>>,
}

impl View for MetricPlan {
    type V = MetricPlanView;

    open spec fn view(&self) -> MetricPlanView {
        MetricPlanView { plan: self.plan@, step: self.step, warning: opt_text(self.warning) }
    }
}

/// The plan for the points of a metric.
pub open spec fn metric_plan(
    id: i64,
    query: Seq<char>,
    ns: Seq<Seq<char>>,
    step: Seq<char>,
    time: TimeRangeView,
    now: i64,
) -> Result<MetricPlanView, Seq<char>> {
    match scoped_query(query, ns) {
        Err(e) => Err(e),
        Ok(q) => match window_bounds(time, now) {
            Err(e) => Err(e),
            Ok((start, end)) => match step_of(step) {
                Err(e) => Err(e),
                Ok(s) => Ok(
                    MetricPlanView {
                        plan: PlanView {
                            query: Some(q),
                            label: window_label(time),
                            request: metric_request(id, q, start, end, s),
                        },
                        step: s,
                        warning: tiling_warning(q, s),
                    },
                ),
            },
        },
    }
}

/// Plans the request for the points of a metric.
pub fn plan_metric(id: i64, query: &str, ns: &Ns, step: &str, time: &TimeRange, now: i64) -> (r: Result<
    MetricPlan,
    String,
>)
    ensures
        match r {
            Ok(p) => metric_plan(id, query@, texts(ns.namespace@), step@, time@, now) == Ok::<
                MetricPlanView,
                Seq<char>,
            >(p@),
            Err(e) => metric_plan(id, query@, texts(ns.namespace@), step@, time@, now) == Err::<
                MetricPlanView,
                Seq<char>,
            >(e@),
        },
{
    let q = match apply_ns(query, ns) {
        Ok(q) => q,
        Err(e) => {
            return Err(e);
        },
    };
    let w = match window(time, now) {
        Ok(w) => w,
        Err(e) => {
            return Err(e);
        },
    };
    let s: i64 = match try_duration_secs(step) {
        Some(v) => if v > 1 {
            v
        } else {
            1
        },
        None => {
            return Err(bad_duration(step));
        },
    };
    let mut text = int_to_text(s);
    text.append("s");
    let mut params: Vec<(String, String)> = Vec::new();
    push_pair(&mut params, "query", q.as_str());
    push_pair(&mut params, "start", int_to_text(w.start).as_str());
    push_pair(&mut params, "end", int_to_text(w.end).as_str());
    push_pair(&mut params, "step", text.as_str());
    let request = Request { path: proxy(id, "/loki/api/v1/query_range"), params };
    assert(request@ =~= metric_request(id, q@, w.start, w.end, s));
    let warning = warn_tiling(q.as_str(), s);
    Ok(MetricPlan { plan: Plan { query: Some(q), label: w.label, request }, step: s, warning })
}

/// The selector of the namespaces that labels are looked up in.
pub open spec fn label_selector(ns: Seq<Seq<char>>) -> Result<Option<Seq<char>>, Seq<char>> {
    match scoped_to(""@, ns) {
        Some(nss) => match matcher_for(nss) {
            Ok(m) => Ok(Some("{"@ + m + "}"@)),
            Err(e) => Err(e),
        },
        None => Ok(None),
    }
}

/// The plan for the names of labels.
pub open spec fn labels_plan(id: i64, ns: Seq<Seq<char>>, time: TimeRangeView, now: i64) -> Result<
    PlanView,
    Seq<char>,
> {
    match window_bounds(time, now) {
        Err(e) => Err(e),
        Ok((start, end)) => match label_selector(ns) {
            Err(e) => Err(e),
            Ok(q) => Ok(
                PlanView { query: q, label: window_label(time), request: labels_request(id, q, start, end) },
            ),
        },
    }
}

fn bound_params(w: &Window, query: &Option<String>) -> (r: Vec<(String, String)>)
    ensures
        pairs(r@) == bounds(w.start, w.end) + query_param(opt_text(*query)),
{
    let mut params: Vec<(String, String)> = Vec::new();
    push_pair(&mut params, "start", int_to_text(w.start).as_str());
    push_pair(&mut params, "end", int_to_text(w.end).as_str());
    if let Some(q) = query {
        push_pair(&mut params, "query", q.as_str());
    }
    assert(pairs(params@) =~= bounds(w.start, w.end) + query_param(opt_text(*query)));
    params
}

/// Plans the request for the names of labels.
pub fn plan_labels(id: i64, ns: &Ns, time: &TimeRange, now: i64) -> (r: Result<Plan, String>)
    ensures
        planned(r) == labels_plan(id, texts(ns.namespace@), time@, now),
{
    let w = match window(time, now) {
        Ok(w) => w,
        Err(e) => {
            return Err(e);
        },
    };
    let query: Option<String> = match resolve_ns("", ns) {
        Some(nss) => match ns_matcher(&nss) {
            Ok(m) => {
                let mut s = owned("{");
                s.append(m.as_str());
                s.append("}");
                Some(s)
            },
            Err(e) => {
                return Err(e);
            },
        },
        None => None,
    };
    let params = bound_params(&w, &query);
    Ok(Plan { query, label: w.label, request: Request { path: proxy(id, "/loki/api/v1/labels"), params } })
}

/// The plan for the values of a label.
pub open spec fn values_plan(
    id: i64,
    label: Seq<char>,
    query: Option<Seq<char>>,
    ns: Seq<Seq<char>>,
    time: TimeRangeView,
    now: i64,
) -> Result<PlanView, Seq<char>> {
    match scoped_option(query, ns) {
        Err(e) => Err(e),
        Ok(q) => match window_bounds(time, now) {
            Err(e) => Err(e),
            Ok((start, end)) => Ok(
                PlanView {
                    query: q,
                    label: window_label(time),
                    request: values_request(id, label, q, start, end),
                },
            ),
        },
    }
}

/// Plans the request for the values of a label.
pub fn plan_values(id: i64, label: &str, query: Option<&str>, ns: &Ns, time: &TimeRange, now: i64) -> (r: Result<
    Plan,
    String,
>)
    ensures
        planned(r) == values_plan(id, label@, opt_str(query), texts(ns.namespace@), time@, now),
{
    let query = match apply_ns_opt(query, ns) {
        Ok(q) => q,
        Err(e) => {
            return Err(e);
        },
    };
    let w = match window(time, now) {
        Ok(w) => w,
        Err(e) => {
            return Err(e);
        },
    };
    let mut sub = owned("/loki/api/v1/label/");
    sub.append(label);
    sub.append("/values");
    let params = bound_params(&w, &query);
    Ok(Plan { query, label: w.label, request: Request { path: proxy(id, sub.as_str()), params } })
}

} // verus!
