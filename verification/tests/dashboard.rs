use gflog::dashboard::follow::{on_answer, on_redirect, on_refreshed, on_response, resolve_reference, Hop, Step};
use gflog::dashboard::panels::{collect_panels, panel_error, queryable, select_panel};
use gflog::dashboard::range::{iso_seconds, parse_time, positive_duration, resolve_range, Asked};
use gflog::dashboard::report::{
    assemble, dashboard_request, datasource_request, planned_queries, query_prometheus, read_datasource, report_panel, select,
    Options, SeriesOutput, TargetOutput,
};
use gflog::dashboard::series::{judge, label_set, legend, ordered_labels, parse_prometheus, Scan, Verdict};
use gflog::dashboard::table::Table;
use gflog::dashboard::targets::resolve_targets;
use gflog::dashboard::url::{
    authority, grafana_path, grafana_url, parse_base, parse_dashboard_url, parse_panel_id, same_origin,
    DashboardRef, UrlParts,
};
use gflog::dashboard::variables::{datasource_parts, interpolate, json_value, resolve_variables};
use gflog::json::{read_json, Json};
use gflog::views::{render, Output};
use reqwest::StatusCode;

fn url(text: &str) -> UrlParts {
    parse_base(text).ok().unwrap()
}

fn base() -> UrlParts {
    url("https://grafana.example.com")
}

fn table(entries: &[(&str, &str)]) -> Table {
    let mut t = Table::new();
    for (k, v) in entries {
        t.insert(k, v);
    }
    t
}

fn asked<'a>(since: Option<&'a str>, end: Option<&'a str>, step: Option<&'a str>) -> Asked<'a> {
    Asked { since, start: None, end, url_from: None, url_to: None, step }
}

fn next_hop(step: Result<Step, String>) -> Hop {
    match step {
        Ok(Step::Get(h)) => h,
        _ => panic!("nothing to get"),
    }
}

fn found(step: Result<Step, String>) -> DashboardRef {
    match step {
        Ok(Step::Done(d)) => d,
        Ok(_) => panic!("still on the way"),
        Err(e) => panic!("{}", e),
    }
}

fn error<T>(r: Result<T, String>) -> String {
    r.err().unwrap()
}

/// What each sample is as a number.
fn verdicts(scan: &Scan) -> Vec<Vec<Verdict>> {
    scan.series
        .iter()
        .map(|s| {
            s.values
                .iter()
                .map(|v| match v.parse::<f64>() {
                    Ok(x) if x.is_finite() => Verdict::Finite,
                    Ok(_) => Verdict::NonFinite,
                    Err(_) => Verdict::Invalid,
                })
                .collect()
        })
        .collect()
}

fn num(text: &str) -> Json {
    Json::Number { whole: None, text: text.to_string() }
}

fn figures(labels: Table, points: usize) -> SeriesOutput {
    SeriesOutput {
        labels,
        last: "1 s".into(),
        min: "2 s".into(),
        average: "3 s".into(),
        max: "4 s".into(),
        points,
        first_value: num("0.5"),
        last_value: num("1.5"),
        min_value: num("2.5"),
        average_value: num("3.5"),
        max_value: num("4.5"),
    }
}

/// A panel with one query of these series, as the JSON that is printed.
fn panel_json(series: Vec<SeriesOutput>) -> String {
    let b = base();
    let r = found(resolve_reference("/d/u/s?var-ds=prom&from=0&to=3600", &b));
    let none = Vec::new();
    let options = Options { panel: None, since: None, start: None, end: None, step: None, vars: &none };
    let s = select(&envelope(), &r, &options, 100_000).ok().unwrap();
    let ds = read_datasource(&read_json(r#"{"type":"prometheus"}"#), "prom").ok().unwrap();
    let targets = vec![TargetOutput { ref_id: "X".into(), expression: "up".into(), legend_format: None, series }];
    let o = assemble(&b, &r, s, ds, targets, "?");
    render(report_panel(&o, true, false)).unwrap().join("\n")
}

#[test]
fn parses_direct_dashboard_url_and_variables() {
    let r = parse_dashboard_url(
        &url("https://grafana.example.com/d/uid/slug?orgId=1&viewPanel=panel-21&var-Namespace=production&from=now-2d&to=now"),
        &base(),
    )
    .ok()
    .unwrap();
    assert_eq!(r.uid, "uid");
    assert_eq!(r.org_id.as_deref(), Some("1"));
    assert_eq!(r.panel_id, Some(21));
    assert_eq!(r.variables.get("Namespace").unwrap(), "production");
    assert_eq!(r.from.as_deref(), Some("now-2d"));
}

#[test]
fn rejects_other_origin() {
    assert!(parse_dashboard_url(&url("https://evil.example/d/u/s"), &base()).is_err());
}

#[test]
fn follows_same_origin_goto_redirect() {
    let b = base();
    let mut requests = Vec::new();
    let hop = next_hop(resolve_reference("/goto/key", &b));
    requests.push(hop.url.text.clone());
    let reference = found(on_response(
        hop,
        &b,
        StatusCode::FOUND.as_u16(),
        Some("/d/uid/slug?viewPanel=panel-21&var-Namespace=production"),
        true,
    ));
    assert_eq!(requests, ["https://grafana.example.com/goto/key"]);
    assert_eq!(reference.uid, "uid");
    assert_eq!(reference.panel_id, Some(21));
}

#[test]
fn refuses_cross_origin_redirect_before_following_it() {
    let b = base();
    let mut requests = Vec::new();
    let hop = next_hop(resolve_reference("/goto/key", &b));
    requests.push(hop.url.text.clone());
    let error = error(on_response(
        hop,
        &b,
        StatusCode::FOUND.as_u16(),
        Some("https://evil.example/d/uid/slug"),
        true,
    ));
    assert_eq!(requests.len(), 1);
    assert!(error.contains("credentials were not forwarded"));
}

#[test]
fn origin_includes_effective_port() {
    assert!(same_origin(&url("https://grafana.example.com/a"), &url("https://grafana.example.com:443/b")));
    assert!(!same_origin(&url("https://grafana.example.com/a"), &url("https://grafana.example.com:8443/b")));
}

#[test]
fn recursively_collects_and_selects_panels() {
    let d = read_json(
        r#"{"panels":[{"id":1,"type":"row","panels":[{"id":21,"title":"Latency","type":"timeseries","datasource":{"uid":"prom"},"targets":[{"refId":"B","expr":"up"}]}]}]}"#,
    );
    let panels = collect_panels(&d);
    assert_eq!(select_panel(&panels, Some("panel-21"), None).ok().unwrap().title, "Latency");
    assert_eq!(select_panel(&panels, Some("Latency"), None).ok().unwrap().id, 21);
}

#[test]
fn interpolates_without_changing_promql() {
    let values = table(&[("services", "example-service|background-worker"), ("Namespace", "production")]);
    let q = "max(metric{module=~\"$services\",quantile=\"1.0\",namespace=~\"${Namespace}\"}) by (method) > 0";
    assert_eq!(
        interpolate(q, &values).unwrap(),
        "max(metric{module=~\"example-service|background-worker\",quantile=\"1.0\",namespace=~\"production\"}) by (method) > 0"
    );
}

#[test]
fn reports_unresolved_and_unsupported_variables() {
    assert!(interpolate("$Missing", &Table::new()).unwrap_err().contains("--var Missing=value"));
    assert!(interpolate("${Name:regex}", &Table::new()).unwrap_err().contains("unsupported"));
}

#[test]
fn variable_precedence_is_cli_then_url_then_dashboard() {
    let dashboard = read_json(
        r#"{"templating":{"list":[
            {"name":"Namespace","current":{"value":"qa"}},
            {"name":"services","options":[{"selected":true,"value":["a","b"]}]}
        ]}}"#,
    );
    let url = table(&[("Namespace", "staging")]);
    let vars = resolve_variables(&dashboard, &url, &vec!["Namespace=production".into()], 30, 3600).ok().unwrap();
    assert_eq!(vars.get("Namespace").unwrap(), "production");
    assert_eq!(vars.get("services").unwrap(), "a|b");
}

#[test]
fn resolves_grafana_builtins_and_all_values() {
    let dashboard = read_json(r#"{"templating":{"list":[{"name":"services","current":{"value":"$__all"}}]}}"#);
    let vars = resolve_variables(&dashboard, &Table::new(), &Vec::new(), 30, 3600).ok().unwrap();
    let query = "rate(requests_total[$__rate_interval]) and $__interval and $__range and $services";
    assert_eq!(interpolate(query, &vars).unwrap(), "rate(requests_total[30s]) and 30s and 3600s and .*");
}

#[test]
fn preserves_grafana_subpath_in_api_and_dashboard_urls() {
    let base = url("https://grafana.example.com/grafana");
    assert_eq!(
        grafana_url(&base, "/api/dashboards/uid/abc").ok().unwrap().text,
        "https://grafana.example.com/grafana/api/dashboards/uid/abc"
    );
    let reference =
        parse_dashboard_url(&url("https://grafana.example.com/grafana/d/abc/stats"), &base).ok().unwrap();
    assert_eq!(reference.uid, "abc");
}

#[test]
fn follows_subpath_goto_redirect() {
    let base = url("https://grafana.example.com/grafana");
    let hop = next_hop(resolve_reference("/grafana/goto/key", &base));
    let reference = found(on_response(
        hop,
        &base,
        StatusCode::FOUND.as_u16(),
        Some("/grafana/d/uid/slug"),
        true,
    ));
    assert_eq!(reference.uid, "uid");
}

#[test]
fn resolves_range_and_derived_step() {
    let (start, end, step) = resolve_range(&asked(Some("2d"), Some("172800"), None), 1_750_000_000).unwrap();
    assert_eq!((start, end, step), (0, 172800, 346));
}

#[test]
fn parses_matrix_summary_without_points() {
    let v = read_json(
        r#"{"status":"success","data":{"resultType":"matrix","result":[{"metric":{"b":"2","a":"1"},"values":[[1,"1"],[2,"3"]]}]}}"#,
    );
    let scan = parse_prometheus(&v).ok().unwrap();
    let order = judge(&scan, &verdicts(&scan)).unwrap();
    let series = &scan.series[order[0]];
    let samples: Vec<f64> = series.values.iter().map(|s| s.parse().unwrap()).collect();
    assert_eq!(samples.iter().sum::<f64>() / samples.len() as f64, 2.0);
    assert_eq!(series.values.len(), 2);
    assert_eq!(label_set(&series.labels), "{a=\"1\", b=\"2\"}");
    let json = panel_json(vec![figures(series.labels.copy(), samples.len())]);
    assert!(!json.contains("points"));
    assert!(json.contains("\"point_count\": 2"));
}

#[test]
fn rejects_non_finite_samples() {
    let v = read_json(
        r#"{"status":"success","data":{"resultType":"matrix","result":[{"metric":{},"values":[[1,"NaN"]]}]}}"#,
    );
    let scan = parse_prometheus(&v).ok().unwrap();
    assert!(judge(&scan, &verdicts(&scan)).unwrap_err().contains("non-finite"));
}

#[test]
fn preserves_prometheus_error_fields() {
    let v = read_json(r#"{"status":"error","errorType":"bad_data","error":"invalid query"}"#);
    assert_eq!(error(parse_prometheus(&v)), "Prometheus query failed (bad_data): invalid query");
}

#[test]
fn urls_are_taken_apart() {
    let u = url("HTTPS://Grafana.Example.com:8443/a/b?x=1&y=%20z#f");
    assert_eq!(u.scheme, "https");
    assert_eq!(u.host.as_deref(), Some("grafana.example.com"));
    assert_eq!(u.port, Some(8443));
    assert_eq!(u.path, "/a/b");
    assert_eq!(u.pairs[1], ("y".to_string(), " z".to_string()));
    assert_eq!(authority(&u), "grafana.example.com:8443");
    assert_eq!(authority(&base()), "grafana.example.com");
    assert_eq!(error(parse_base("nonsense")), "invalid Grafana URL: relative URL without a base");
}

#[test]
fn paths_are_relative_to_the_base() {
    let sub = url("https://grafana.example.com/grafana/");
    assert_eq!(grafana_path(&url("https://grafana.example.com/grafana/d/x"), &sub).as_deref(), Some("/d/x"));
    assert_eq!(grafana_path(&url("https://grafana.example.com/grafana"), &sub).as_deref(), Some(""));
    assert_eq!(grafana_path(&url("https://grafana.example.com/grafanax/d/x"), &sub), None);
    assert_eq!(grafana_path(&url("https://grafana.example.com/d/x"), &base()).as_deref(), Some("/d/x"));
}

#[test]
fn bad_dashboard_urls_are_told_why() {
    let sub = url("https://grafana.example.com/grafana");
    assert_eq!(
        error(parse_dashboard_url(&url("https://grafana.example.com/other/d/u/s"), &sub)),
        "dashboard URL is outside the configured Grafana subpath"
    );
    assert_eq!(
        error(parse_dashboard_url(&url("https://grafana.example.com/login?x"), &base())),
        "Grafana URL resolved to /login; refresh credentials"
    );
    assert_eq!(
        error(parse_dashboard_url(&url("https://grafana.example.com/d//s"), &base())),
        "URL did not resolve to /d/<uid>/<slug>"
    );
    assert_eq!(
        error(parse_dashboard_url(&url("https://grafana.example.com/d/u/s?viewPanel=x"), &base())),
        "invalid panel ID \"x\""
    );
    assert_eq!(
        error(parse_dashboard_url(&url("https://evil.example/d/u/s"), &base())),
        "dashboard URL must use the configured Grafana origin"
    );
    assert_eq!(parse_panel_id("panel-7"), Ok(7));
    assert_eq!(parse_panel_id("-7"), Ok(-7));
    assert_eq!(parse_panel_id("panel-x"), Err("invalid panel ID \"panel-x\"".to_string()));
}

#[test]
fn later_pairs_of_a_query_win() {
    let r = parse_dashboard_url(
        &url("https://grafana.example.com/d/u/s?var-a=1&var-a=2&var-=x&to=t&orgId=3"),
        &base(),
    )
    .ok()
    .unwrap();
    assert_eq!(r.variables.get("a").unwrap(), "2");
    assert_eq!(r.variables.entries.len(), 1);
    assert_eq!(r.slug, "s");
    assert_eq!(r.to.as_deref(), Some("t"));
    assert_eq!(r.org_id.as_deref(), Some("3"));
}

#[test]
fn dashboards_may_be_named_directly() {
    assert_eq!(found(resolve_reference("/d/u/s", &base())).uid, "u");
    assert_eq!(found(resolve_reference("https://grafana.example.com/d/u/s", &base())).slug, "s");
    assert_eq!(
        error(resolve_reference("https://evil.example/goto/x", &base())),
        "dashboard URL must use the configured Grafana origin"
    );
    assert!(error(resolve_reference("https://[", &base())).starts_with("invalid dashboard URL: "));
}

#[test]
fn refused_hops_are_refreshed_once() {
    let b = base();
    let hop = next_hop(resolve_reference("/goto/k", &b));
    let (hop, status) = match on_response(hop, &b, 401, None, false) {
        Ok(Step::Refresh { hop, status }) => (hop, status),
        _ => panic!("no refresh"),
    };
    let again = next_hop(on_refreshed(hop, &status, true));
    assert!(again.retried);
    assert_eq!(
        error(on_response(again, &b, 403, None, false)),
        "Grafana authentication failed (403 Forbidden)"
    );
    let hop = next_hop(resolve_reference("/goto/k", &b));
    assert_eq!(
        error(on_response(hop, &b, 401, None, true)),
        "Grafana authentication failed (401 Unauthorized)"
    );
    let hop = next_hop(resolve_reference("/goto/k", &b));
    assert_eq!(error(on_refreshed(hop, "401 Unauthorized", false)), "Grafana authentication failed (401 Unauthorized)");
}

#[test]
fn replies_that_lead_nowhere_end_the_way() {
    let b = base();
    let hop = || next_hop(resolve_reference("/goto/k", &b));
    assert_eq!(
        error(on_response(hop(), &b, 200, None, true)),
        "Grafana /goto returned HTTP 200 OK instead of a dashboard redirect"
    );
    assert_eq!(error(on_response(hop(), &b, 302, None, true)), "Grafana redirect has no Location header");
    assert!(error(on_response(hop(), &b, 302, Some("https://["), true)).starts_with("invalid Grafana redirect: "));
    assert_eq!(
        error(on_response(hop(), &b, 302, Some("/login"), true)),
        "Grafana redirect ended at /login; refresh credentials"
    );
    assert_eq!(
        error(on_response(hop(), &b, 302, Some("/goto/k"), true)),
        "Grafana /goto redirect loop detected"
    );
}

#[test]
fn a_status_is_named_as_it_is_written() {
    let b = base();
    let hop = || next_hop(resolve_reference("/goto/k", &b));
    assert_eq!(
        error(on_answer(hop(), &b, 500, "500 Oops", None, true)),
        "Grafana /goto returned HTTP 500 Oops instead of a dashboard redirect"
    );
    assert_eq!(
        error(on_response(hop(), &b, 599, None, true)),
        "Grafana /goto returned HTTP 599 <unknown status code> instead of a dashboard redirect"
    );
    assert_eq!(
        error(on_response(hop(), &b, 7, None, true)),
        "Grafana /goto returned HTTP 7 instead of a dashboard redirect"
    );
}

#[test]
fn at_most_eight_requests_are_made() {
    let b = base();
    let mut hop = next_hop(resolve_reference("/goto/k", &b));
    let mut requests = 1;
    for i in 0..7 {
        let next = url(&format!("https://grafana.example.com/goto/{}", i));
        hop = next_hop(on_redirect(hop, &b, next));
        assert!(same_origin(&hop.url, &b));
        requests += 1;
    }
    assert_eq!(requests, 8);
    assert_eq!(hop.left, 0);
    assert_eq!(
        error(on_redirect(hop, &b, url("https://grafana.example.com/goto/last"))),
        "URL did not resolve to /d/<uid>/<slug>"
    );
}

fn panels_json() -> Json {
    read_json(
        r#"{"title":"T","panels":[
            {"id":1,"title":"A","type":"graph","datasource":"p","targets":[{"expr":"up","refId":"X","legendFormat":"{{job}}"}]},
            {"id":2,"title":"B","type":"row","datasource":"p","targets":[{"expr":"up"}]},
            {"id":3,"title":"A","type":"graph","datasource":"p","targets":[{"expr":"up"},{"expr":"down","hide":true}]},
            {"id":4,"title":"C","type":"graph","datasource":"p","targets":[{"expr":" "},{"expr":"x","hide":true}]},
            {"id":5,"title":"D","type":"graph","targets":[{"expr":"up"}]},
            {"id":1,"title":"again","type":"graph"},
            {"title":"no id","panels":[{"id":6,"fieldConfig":{"defaults":{"unit":"s"}}}]}]}"#,
    )
}

#[test]
fn panels_are_collected_once_each() {
    let ps = collect_panels(&panels_json());
    let ids: Vec<i64> = ps.iter().map(|p| p.id).collect();
    assert_eq!(ids, vec![1, 2, 3, 4, 5, 6]);
    let can: Vec<bool> = ps.iter().map(queryable).collect();
    assert_eq!(can, vec![true, false, true, false, false, false]);
    assert_eq!(ps[5].title, "(untitled)");
    assert_eq!(ps[5].kind, "unknown");
    assert_eq!(ps[5].unit.as_deref(), Some("s"));
}

#[test]
fn panels_that_are_not_meant_are_refused() {
    let ps = collect_panels(&panels_json());
    assert_eq!(
        error(select_panel(&ps, None, None)),
        "select a panel with --panel. Queryable panels:\n  1 — A\n  3 — A"
    );
    assert_eq!(error(select_panel(&ps, Some("9"), Some(1))), "panel 9 not found. Queryable panels:\n  1 — A\n  3 — A");
    assert_eq!(error(select_panel(&ps, Some("2"), None)), "panel 2 is not queryable");
    assert_eq!(error(select_panel(&ps, Some("A"), None)), "panel title \"A\" is ambiguous; matching IDs: 1, 3");
    assert!(error(select_panel(&ps, Some("B"), None)).starts_with("panel title \"B\" not found. "));
    assert_eq!(select_panel(&ps, None, Some(3)).ok().unwrap().id, 3);
    assert_eq!(panel_error(&Vec::new(), "m"), "m. Queryable panels:\n  ");
}

#[test]
fn values_of_variables_as_text() {
    assert_eq!(json_value(&read_json("\"\"")), None);
    assert_eq!(json_value(&read_json("7")), Some("7".to_string()));
    assert_eq!(json_value(&read_json("true")), Some("true".to_string()));
    assert_eq!(json_value(&read_json("[\"a\",\"\",[1,false]]")), Some("a|1|false".to_string()));
    assert_eq!(json_value(&read_json("[]")), None);
    assert_eq!(json_value(&read_json("{}")), None);
}

#[test]
fn bad_assignments_are_refused() {
    let none = Table::new();
    let vars = |v: &[&str]| resolve_variables(&Json::Null, &none, &v.iter().map(|s| s.to_string()).collect(), 1, 2);
    assert_eq!(error(vars(&["a=1", "b"])), "invalid --var \"b\"; expected NAME=VALUE");
    assert_eq!(error(vars(&["=1"])), "--var name cannot be empty");
    let t = vars(&["a=1=2", "__all=x"]).ok().unwrap();
    assert_eq!(t.get("a").unwrap(), "1=2");
    assert_eq!(t.get("__all").unwrap(), ".*");
    assert_eq!(t.get("__range").unwrap(), "2s");
}

#[test]
fn variables_nest_but_do_not_go_round() {
    let t = table(&[("a", "$b"), ("b", "${c}!"), ("c", "x"), ("p", "$q"), ("q", "<$p>"), ("self", "$self")]);
    assert_eq!(interpolate("$a", &t).unwrap(), "x!");
    assert_eq!(interpolate("no variables", &t).unwrap(), "no variables");
    assert_eq!(interpolate("$self", &t).unwrap(), "$self");
    assert_eq!(
        interpolate("$p", &t).unwrap_err(),
        "dashboard variable interpolation cycle or excessive nesting"
    );
    assert_eq!(
        interpolate("$z $y $z", &t).unwrap_err(),
        "unresolved dashboard variables: y, z. Supply --var y=value --var z=value"
    );
    assert_eq!(
        interpolate("${a:csv}", &t).unwrap_err(),
        "unsupported Grafana interpolation \"${a:csv}\"; v1 supports $Name and ${Name}"
    );
}

#[test]
fn datasources_of_panels() {
    let t = table(&[("ds", "uid1")]);
    let parts = |s: &str| datasource_parts(&read_json(s), &t);
    assert_eq!(parts("\"$ds\"").unwrap(), ("uid1".to_string(), "prometheus".to_string()));
    assert_eq!(parts(r#"{"uid":"u","type":"Loki"}"#).unwrap(), ("u".to_string(), "Loki".to_string()));
    assert_eq!(parts("null").unwrap_err(), "selected panel has no concrete datasource");
    assert_eq!(parts("{}").unwrap_err(), "selected panel datasource UID is empty");
    assert_eq!(parts(r#"{"uid":"u","type":"mixed"}"#).unwrap_err(), "unsupported panel datasource type \"mixed\"");
    assert_eq!(parts(r#"{"uid":"u","type":"__expr__"}"#).unwrap_err(), "unsupported panel datasource type \"__expr__\"");
    assert!(parts("\"$nope\"").unwrap_err().contains("--var nope=value"));
}

#[test]
fn targets_of_panels() {
    let d = read_json(
        r#"{"panels":[{"id":1,"datasource":"p","targets":[
            {"expr":"rate(x[$i])","refId":"A","legendFormat":"{{job}}"},
            {"expr":"y","datasource":{"uid":"p","type":"PROMETHEUS"}},
            {"expr":"hidden","hide":true}]},
          {"id":2,"datasource":"p","targets":[{"expr":"y","datasource":{"uid":"other"}}]},
          {"id":3,"datasource":"p","targets":[]}]}"#,
    );
    let ps = collect_panels(&d);
    let ds = ("p".to_string(), "prometheus".to_string());
    let t = table(&[("i", "1m")]);
    let v = resolve_targets(&ps[0], &ds, &t).ok().unwrap();
    assert_eq!(v.len(), 2);
    assert_eq!(v[0].expression, "rate(x[1m])");
    assert_eq!(v[0].ref_id, "A");
    assert_eq!(v[0].legend_format.as_deref(), Some("{{job}}"));
    assert_eq!(v[1].ref_id, "?");
    assert_eq!(
        error(resolve_targets(&ps[1], &ds, &t)),
        "mixed or multiple target datasources are unsupported in dashboard v1"
    );
    assert_eq!(error(resolve_targets(&ps[2], &ds, &t)), "selected panel has no enabled PromQL targets");
    assert!(error(resolve_targets(&ps[0], &ds, &Table::new())).contains("--var i=value"));
}

#[test]
fn times_of_dashboards() {
    let now = 1_750_000_000;
    assert_eq!(parse_time(" now ", now), Ok(now));
    assert_eq!(parse_time("now-2h30m", now), Ok(now - 9_000));
    assert_eq!(parse_time("1700000000", now), Ok(1_700_000_000));
    assert_eq!(parse_time("1700000000123", now), Ok(1_700_000_000));
    assert_eq!(parse_time("1970-01-01T02:00:00+01:00", now), Ok(3_600));
    assert_eq!(parse_time("1970-01-01T01:00:00.5", now), Ok(3_600));
    assert_eq!(parse_time("1970-01-01T01:00:00", now), Ok(3_600));
    assert_eq!(parse_time("1970-01-01T01:00", now), Ok(3_600));
    assert_eq!(parse_time("1970-01-02", now), Ok(86_400));
    assert_eq!(
        parse_time("now-1y", now).unwrap_err(),
        "unsupported Grafana date math \"now-1y\"; use --start/--since"
    );
    assert_eq!(parse_time("99999999999999999999", now).unwrap_err(), "invalid timestamp \"99999999999999999999\"");
    assert_eq!(parse_time("then", now).unwrap_err(), "cannot parse time \"then\"");
}

#[test]
fn ranges_come_from_the_command_line_or_the_url() {
    let now = 100_000;
    let from_url =
        Asked { since: None, start: None, end: None, url_from: Some("now-1h"), url_to: Some("90000"), step: None };
    assert_eq!(resolve_range(&from_url, now).unwrap_err(), "range start must be before end");
    let from_url = Asked { url_to: None, ..from_url };
    assert_eq!(resolve_range(&from_url, now).unwrap(), (96_400, 100_000, 8));
    let end_only = Asked { end: Some("50000"), ..from_url };
    assert_eq!(resolve_range(&end_only, now).unwrap(), (46_400, 50_000, 8));
    let start = Asked { start: Some("40000"), ..end_only };
    assert_eq!(resolve_range(&start, now).unwrap(), (40_000, 50_000, 20));
    assert_eq!(resolve_range(&asked(Some("10s"), None, Some("1m")), now).unwrap_err(), "--step 60s exceeds range 10s");
    assert_eq!(resolve_range(&asked(Some("x"), None, None), now).unwrap_err(), "invalid --since duration \"x\"");
    assert_eq!(resolve_range(&asked(None, None, Some("0s")), now).unwrap_err(), "--step must be positive");
    assert_eq!(resolve_range(&asked(Some("600d"), None, None), 100_000_000).unwrap().2, 3_600);
    assert_eq!(positive_duration("1h", "--x"), Ok(3_600));
    let far = Asked { start: Some("now-9223372036854775807s"), ..asked(None, Some("9223372036854"), None) };
    assert_eq!(resolve_range(&far, 5).unwrap_err(), "time range out of bounds");
}

#[test]
fn seconds_are_written_as_timestamps() {
    assert_eq!(iso_seconds(0, "?"), "1970-01-01T00:00:00Z");
    assert_eq!(iso_seconds(1_700_000_000, "?"), "2023-11-14T22:13:20Z");
    assert_eq!(iso_seconds(i64::MAX, "?"), "?");
}

#[test]
fn faults_in_replies_come_in_the_order_of_the_reply() {
    let reply = |result: &str| {
        read_json(&format!(r#"{{"status":"success","data":{{"resultType":"matrix","result":{}}}}}"#, result))
    };
    let verdict = |result: &str| {
        let scan = parse_prometheus(&reply(result)).ok().unwrap();
        judge(&scan, &verdicts(&scan))
    };
    assert_eq!(verdict(r#"[{"values":[[1,"1"],[2]]}]"#).unwrap_err(), "malformed Prometheus sample");
    assert_eq!(verdict(r#"[{"values":[[1,"x"],[2]]}]"#).unwrap_err(), "invalid Prometheus sample value \"x\"");
    assert_eq!(verdict(r#"[{"values":[[1,2]]}]"#).unwrap_err(), "Prometheus sample value is not a string");
    assert_eq!(verdict(r#"[{"values":[[1,"inf"]]},{}]"#).unwrap_err(), "non-finite Prometheus sample value \"inf\"");
    assert_eq!(verdict(r#"[{"values":[]},{}]"#).unwrap_err(), "Prometheus series has no values array");
    assert_eq!(
        verdict(r#"[{"metric":{"a":"2"},"values":[[1,"1"]]},{"values":[]},{"metric":{"a":"1"},"values":[[1,"1"]]}]"#)
            .unwrap(),
        vec![2, 0]
    );
    assert_eq!(error(parse_prometheus(&reply("7"))), "Prometheus response has no data.result array");
    assert_eq!(
        error(parse_prometheus(&read_json(r#"{"status":"success","data":{"resultType":"vector"}}"#))),
        "Prometheus range query returned unsupported result type \"vector\""
    );
    assert_eq!(error(parse_prometheus(&Json::Null)), "Prometheus query failed (unknown): unknown error");
}

#[test]
fn legends_are_filled_from_labels() {
    let t = table(&[("job", "api"), ("pod", "p1")]);
    assert_eq!(legend(Some("{{job}}/{{ pod }} {{zone}}"), &t), "api/p1 {{zone}}");
    assert_eq!(legend(Some(""), &t), "{job=\"api\", pod=\"p1\"}");
    assert_eq!(legend(None, &Table::new()), "{}");
    let m = vec![("b".to_string(), Json::Str("1".into())), ("a".to_string(), Json::Null)];
    assert_eq!(label_set(&ordered_labels(&m)), "{a=\"\", b=\"1\"}");
}

#[test]
fn tables_keep_names_in_order() {
    let mut t = table(&[("c", "3"), ("a", "1"), ("b", "2"), ("a", "one")]);
    let names: Vec<&str> = t.entries.iter().map(|e| e.0.as_str()).collect();
    assert_eq!(names, vec!["a", "b", "c"]);
    assert_eq!(t.get("a").unwrap(), "one");
    assert!(!t.contains_key("d"));
    t.extend(&vec![("d".to_string(), "4".to_string()), ("b".to_string(), "two".to_string())]);
    assert_eq!(t.get("b").unwrap(), "two");
    assert_eq!(t.get("c").unwrap(), "3");
    assert_eq!(t.copy().entries.len(), 4);
}

#[test]
fn requests_stay_below_the_base() {
    let b = url("https://grafana.example.com/g/");
    let r = found(resolve_reference("/g/d/u/s?orgId=4", &b));
    let q = dashboard_request(&b, &r).ok().unwrap();
    assert_eq!(q.path, "https://grafana.example.com/g/api/dashboards/uid/u");
    assert_eq!(q.params, vec![("orgId".to_string(), "4".to_string())]);
    let q = datasource_request(&b, "ds", &None).ok().unwrap();
    assert_eq!(q.path, "https://grafana.example.com/g/api/datasources/uid/ds");
    assert!(q.params.is_empty());
    let q = query_prometheus(&b, "ds", "up", 1, 2, 3, &r.org_id).ok().unwrap();
    assert_eq!(q.path, "https://grafana.example.com/g/api/datasources/proxy/uid/ds/api/v1/query_range");
    let params: Vec<(&str, &str)> = q.params.iter().map(|(a, b)| (a.as_str(), b.as_str())).collect();
    assert_eq!(params, vec![("query", "up"), ("start", "1"), ("end", "2"), ("step", "3s"), ("orgId", "4")]);
}

#[test]
fn every_query_is_made_once_over_the_one_range() {
    let b = base();
    let r = found(resolve_reference("/d/u/s?from=0&to=3600", &b));
    let none = Vec::new();
    let options = Options { panel: None, since: None, start: None, end: None, step: Some("30s"), vars: &none };
    let j = read_json(
        r#"{"dashboard":{"panels":[{"id":1,"title":"A","type":"graph","datasource":{"uid":"p","type":"prometheus"},
            "targets":[{"expr":"a","refId":"X"},{"expr":"h","refId":"H","hide":true},{"expr":"b","refId":"Y"}]}]}}"#,
    );
    let s = select(&j, &r, &options, 100_000).ok().unwrap();
    let plans = planned_queries(&b, &s, "p", &Some("4".to_string()), false);
    assert_eq!(plans.len(), 2);
    for (plan, expression) in plans.into_iter().zip(["a", "b"]) {
        let one = query_prometheus(&b, "p", expression, s.start, s.end, 30, &Some("4".to_string())).ok().unwrap();
        let plan = plan.ok().unwrap();
        assert_eq!(plan.params[0], ("query".to_string(), expression.to_string()));
        assert_eq!((plan.path, plan.params), (one.path, one.params));
    }
    assert!(planned_queries(&b, &s, "p", &None, true).is_empty());
}

#[test]
fn no_url_is_got_a_second_time() {
    let b = base();
    let mut hop = next_hop(resolve_reference("/goto/k", &b));
    for at in ["/goto/l", "/goto/m", "/goto/n"] {
        hop = next_hop(on_response(hop, &b, 302, Some(at), true));
        assert!(hop.url.text.ends_with(at));
    }
    assert_eq!(hop.seen.len(), 4);
    for at in ["/goto/l", "/goto/m", "/goto/n", "/goto/k"] {
        let again = Hop { url: url(&hop.url.text), seen: hop.seen.clone(), left: hop.left, retried: hop.retried };
        assert_eq!(error(on_response(again, &b, 302, Some(at), true)), "Grafana /goto redirect loop detected");
    }
}

#[test]
fn only_prometheus_is_supported() {
    let d = read_datasource(&read_json(r#"{"type":"Prometheus","name":"Main"}"#), "u").ok().unwrap();
    assert_eq!((d.uid.as_str(), d.name.as_str(), d.kind.as_str()), ("u", "Main", "Prometheus"));
    assert_eq!(read_datasource(&read_json(r#"{"type":"prometheus"}"#), "u").ok().unwrap().name, "(unnamed)");
    assert_eq!(
        error(read_datasource(&read_json(r#"{"type":"loki"}"#), "u")),
        "unsupported datasource type \"loki\"; dashboard v1 supports Prometheus only"
    );
}

fn envelope() -> Json {
    read_json(
        r#"{"dashboard":{"title":"T","panels":[{"id":1,"title":"A","type":"graph","datasource":"$ds",
            "fieldConfig":{"defaults":{"unit":"s"}},
            "targets":[{"expr":"rate(x[$__interval])\n> 0","refId":"X","legendFormat":"{{job}}"}]}]}}"#,
    )
}

#[test]
fn a_panel_is_selected_and_printed() {
    let b = base();
    let r = found(resolve_reference("/d/u/s?var-ds=prom&from=0&to=3600", &b));
    let none = Vec::new();
    let options = Options { panel: None, since: None, start: None, end: None, step: None, vars: &none };
    let s = select(&envelope(), &r, &options, 100_000).ok().unwrap();
    assert_eq!((s.start, s.end, s.step), (0, 3600, 8));
    assert_eq!(s.datasource.0, "prom");
    assert_eq!(s.targets[0].expression, "rate(x[8s])\n> 0");
    let ds = read_datasource(&read_json(r#"{"type":"prometheus","name":"Main"}"#), "prom").ok().unwrap();
    let series = figures(table(&[("job", "api")]), 5);
    let targets = vec![TargetOutput {
        ref_id: s.targets[0].ref_id.clone(),
        expression: s.targets[0].expression.clone(),
        legend_format: s.targets[0].legend_format.clone(),
        series: vec![series],
    }];
    let o = assemble(&b, &r, s, ds, targets, "?");
    assert_eq!(o.url, "https://grafana.example.com/d/u/s");
    let text = match report_panel(&o, false, false) {
        Output::Lines(v) => v,
        _ => panic!("no lines"),
    };
    assert_eq!(
        text,
        vec![
            "Dashboard:  T",
            "Panel:      1 — A",
            "Datasource: Main",
            "Range:      1970-01-01T00:00:00Z .. 1970-01-01T01:00:00Z",
            "Step:       8s",
            "\nTarget X:\n  rate(x[8s])\n  > 0",
            "\nSeries:",
            "  api  last=1 s  min=2 s  sample_avg=3 s  max=4 s  points=5",
        ]
    );
    assert!(matches!(report_panel(&o, false, true), Output::Lines(v) if v.len() == 6));
    let j = match report_panel(&o, true, false) {
        Output::Value(j) => j,
        _ => panic!("no value"),
    };
    assert_eq!(j.get("panel").unwrap().get_str("unit").unwrap(), "s");
    assert_eq!(j.get("variables").unwrap().get_str("ds").unwrap(), "prom");
    let t = match j.get("targets") {
        Some(Json::Array(a)) => &a[0],
        _ => panic!("no targets"),
    };
    let s = match t.get("series") {
        Some(Json::Array(a)) => &a[0],
        _ => panic!("no series"),
    };
    assert!(s.get("points").is_none());
    assert!(matches!(
        s.get("summary").unwrap().get("point_count"),
        Some(Json::Number { whole: Some(5), .. })
    ));
}

#[test]
fn a_target_without_series_has_no_data() {
    let b = base();
    let r = found(resolve_reference("/d/u/s?var-ds=prom&from=0&to=3600", &b));
    let none = Vec::new();
    let options = Options { panel: Some("A"), since: None, start: None, end: None, step: None, vars: &none };
    let s = select(&envelope(), &r, &options, 100_000).ok().unwrap();
    let ds = read_datasource(&read_json(r#"{"type":"prometheus"}"#), "prom").ok().unwrap();
    let targets =
        vec![TargetOutput { ref_id: "X".into(), expression: "up".into(), legend_format: None, series: Vec::new() }];
    let o = assemble(&b, &r, s, ds, targets, "?");
    assert!(matches!(report_panel(&o, false, false), Output::Lines(v) if v[7] == "  no data"));
    assert_eq!(
        error(select(&Json::Null, &r, &options, 0)),
        "Grafana dashboard response has no dashboard object"
    );
}
