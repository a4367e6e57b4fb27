use gflog::cli::{Filter, Ns, TimeRange, View};
use gflog::json::{read_json, Json};
use gflog::live::address::{base, is_local_host, normalize_url, show_url, url_stored, url_to_store};
use gflog::live::auth::{
    accept_credential, clip, cmd_cookie, cmd_token, cookie_header, is_auth_err, keeps_rotated, note_removal,
    note_stored,
    resolve_auth, rotate, rotation_not_needed, sanitize_cookie, sanitize_token, save_rotated, session_value,
    start_rotation, token_value, Auth, Credential, CredentialAction, Input, Place, Removal, RotationStart,
};
use gflog::live::call::{
    cached_datasource, loki_datasource, loki_list, on_refresh, on_reply, pack_source, report_auth, source_text, Next, Stage,
};
use gflog::live::duration::{duration_secs, parse_compound_secs, try_duration_secs, unit_secs};
use gflog::live::reply::{
    label_set, pack_metric, pack_series, read_names, read_records, read_result_type, read_series, report_labels,
    report_live, report_metric, report_values, sort_newest, SeriesLine,
};
use gflog::live::request::{plan_labels, plan_live, plan_metric, plan_values};
use gflog::live::scope::{
    apply_ns, apply_ns_opt, inject_ns, ns_matcher, ns_note, ns_ok, resolve_ns, selector_has_namespace,
};
use gflog::live::window::{iso_from_ns, to_ns, warn_tiling, window};
use gflog::views::Output;
use reqwest::StatusCode;

const NOW: i64 = 1_750_000_000_000_000_000;

fn range(since: &str, start: Option<&str>, end: &str) -> TimeRange {
    TimeRange { since: since.to_string(), start: start.map(|s| s.to_string()), end: end.to_string() }
}

fn ns(names: &[&str]) -> Ns {
    Ns { namespace: names.iter().map(|s| s.to_string()).collect() }
}

fn pairs(v: &[(String, String)]) -> Vec<(&str, &str)> {
    v.iter().map(|(a, b)| (a.as_str(), b.as_str())).collect()
}

fn lines(o: &Output) -> Vec<&str> {
    match o {
        Output::Lines(v) => v.iter().map(|s| s.as_str()).collect(),
        _ => panic!("no lines"),
    }
}

#[test]
fn to_ns_now_and_empty() {
    assert_eq!(to_ns("now", NOW).unwrap(), NOW);
    assert_eq!(to_ns("", NOW).unwrap(), NOW);
}

#[test]
fn to_ns_relative_windows() {
    assert_eq!(to_ns("30m", NOW).unwrap(), NOW - 1_800 * 1_000_000_000);
    assert_eq!(to_ns("2h", NOW).unwrap(), NOW - 7_200 * 1_000_000_000);
    assert_eq!(to_ns("1d", NOW).unwrap(), NOW - 86_400 * 1_000_000_000);
}

#[test]
fn to_ns_epoch_seconds_vs_nanos() {
    assert_eq!(to_ns("1700000000", NOW).unwrap(), 1_700_000_000 * 1_000_000_000);
    assert_eq!(to_ns("1700000000000000000", NOW).unwrap(), 1_700_000_000_000_000_000);
}

#[test]
fn to_ns_honors_offsets_and_takes_bare_times_as_utc() {
    assert_eq!(to_ns("1970-01-01T00:00:10Z", NOW).unwrap(), 10_000_000_000);
    assert_eq!(to_ns("1970-01-01T02:00:00+02:00", NOW).unwrap(), 0);
    assert_eq!(to_ns("1970-01-01T00:00:10", NOW).unwrap(), 10_000_000_000);
    assert_eq!(to_ns("1970-01-01T00:00:10.75", NOW).unwrap(), 10_000_000_000);
    assert_eq!(to_ns(" -5m ", NOW).unwrap(), NOW - 300 * 1_000_000_000);
}

#[test]
fn to_ns_complains_about_what_is_no_time() {
    assert_eq!(to_ns(" soon ", NOW).unwrap_err(), "cannot parse time \"soon\"");
    assert_eq!(to_ns("99999999999999", NOW).unwrap_err(), "time out of range \"99999999999999\"");
    assert_eq!(to_ns("9000000000000w", NOW).unwrap_err(), "time out of range \"9000000000000w\"");
}

#[test]
fn duration_secs_units() {
    assert_eq!(duration_secs("30m"), 1_800);
    assert_eq!(duration_secs("2h"), 7_200);
    assert_eq!(duration_secs("1d"), 86_400);
    assert_eq!(duration_secs("45s"), 45);
}

#[test]
fn durations_may_have_several_terms() {
    assert_eq!(duration_secs("2h30m"), 9_000);
    assert_eq!(parse_compound_secs("1w1d1h1m1s"), Some(694_861));
    assert_eq!(
        parse_compound_secs("2h30m").unwrap(),
        parse_compound_secs("2h").unwrap() + parse_compound_secs("30m").unwrap()
    );
    assert_eq!(parse_compound_secs(" 5m "), Some(300));
    assert_eq!(parse_compound_secs(""), None);
    assert_eq!(parse_compound_secs("5"), None);
    assert_eq!(parse_compound_secs("m"), None);
    assert_eq!(parse_compound_secs("5x"), None);
    assert_eq!(parse_compound_secs("5m3"), None);
    assert_eq!(parse_compound_secs("99999999999999999999s"), None);
    assert_eq!(parse_compound_secs("9223372036854775807w"), None);
    assert_eq!(parse_compound_secs("9223372036854775807s1s"), None);
}

#[test]
fn other_durations_count_in_hours_or_as_zero() {
    assert_eq!(try_duration_secs("90"), Some(32_400));
    assert_eq!(try_duration_secs("-5m"), Some(-300));
    assert_eq!(try_duration_secs("abc"), Some(0));
    assert_eq!(try_duration_secs("  "), None);
    assert_eq!(try_duration_secs("9223372036854775807w"), None);
    assert_eq!(unit_secs('w'), Some(604_800));
    assert_eq!(unit_secs('y'), None);
}

#[test]
fn windows_reach_back_from_their_end() {
    let w = window(&range("30m", None, "now"), NOW).unwrap();
    assert_eq!((w.start, w.end), (NOW - 1_800_000_000_000, NOW));
    assert_eq!(w.label, "30m..now");
    let w = window(&range("30m", Some("1700000000"), "1700000060"), NOW).unwrap();
    assert_eq!((w.start, w.end), (1_700_000_000_000_000_000, 1_700_000_060_000_000_000));
    assert_eq!(w.label, "1700000000..1700000060");
    assert_eq!(window(&range("1h", None, "x"), NOW).err().unwrap(), "cannot parse time \"x\"");
    assert_eq!(window(&range("", None, "now"), NOW).err().unwrap(), "duration out of range \"\"");
}

#[test]
fn nanoseconds_are_written_to_the_millisecond() {
    assert_eq!(iso_from_ns(0), "1970-01-01T00:00:00.000Z");
    assert_eq!(iso_from_ns(1_700_000_000_123_456_789), "2023-11-14T22:13:20.123Z");
    assert_eq!(iso_from_ns(-1_500_000_000), "1969-12-31T23:59:59.-500Z");
}

#[test]
fn a_range_that_is_not_the_step_is_warned_about() {
    let q = "sum(count_over_time({a=\"b\"} |~ \"[0-9]+\" [2h30m]))";
    assert_eq!(warn_tiling(q, 9_000), None);
    assert_eq!(
        warn_tiling(q, 60).unwrap(),
        "warning: range 9000s is longer than --step 60s — windows overlap, and summing the points over-counts"
    );
    assert_eq!(
        warn_tiling("rate({a=\"b\"}[1m])", 120).unwrap(),
        "warning: range 60s is shorter than --step 120s — windows leave gaps, and summing the points undercounts"
    );
    assert_eq!(warn_tiling("{a=\"b\"}", 60), None);
}

#[test]
fn is_auth_err_matches_401_403_only() {
    assert!(is_auth_err(StatusCode::UNAUTHORIZED.as_u16()));
    assert!(is_auth_err(StatusCode::FORBIDDEN.as_u16()));
    assert!(!is_auth_err(StatusCode::OK.as_u16()));
    assert!(!is_auth_err(StatusCode::INTERNAL_SERVER_ERROR.as_u16()));
}

#[test]
fn sanitize_cookie_forms() {
    assert_eq!(sanitize_cookie("abc123"), "abc123");
    assert_eq!(sanitize_cookie("grafana_session=abc123; Path=/"), "abc123");
    assert_eq!(sanitize_cookie("  'tok' "), "tok");
    assert_eq!(sanitize_cookie("\u{feff}grafana_session=xyz"), "xyz");
}

#[test]
fn sanitize_token_strips_bearer_and_quotes() {
    assert_eq!(sanitize_token("Bearer glsa_abc"), "glsa_abc");
    assert_eq!(sanitize_token("  \"glsa_xyz\"  "), "glsa_xyz");
    assert_eq!(sanitize_token("glsa_plain"), "glsa_plain");
}

#[test]
fn the_last_word_is_the_cookie() {
    assert_eq!(sanitize_cookie("the cookie is \"tok\"; x"), "x");
    assert_eq!(sanitize_cookie("copy 'tok;rest'"), "tok");
    assert_eq!(sanitize_cookie("   "), "");
    assert_eq!(sanitize_token("bearer  x "), "x");
    assert_eq!(sanitize_token("' \u{feff}'"), "");
}

#[test]
fn normalize_url_accepts_https_and_local_http() {
    assert_eq!(normalize_url("https://g.example.com/").unwrap(), "https://g.example.com");
    assert_eq!(normalize_url("  https://g.example.com  ").unwrap(), "https://g.example.com");
    assert_eq!(normalize_url("http://localhost:3000").unwrap(), "http://localhost:3000");
    assert_eq!(normalize_url("http://127.0.0.1").unwrap(), "http://127.0.0.1");
}

#[test]
fn normalize_url_rejects_cleartext_and_schemeless() {
    assert!(normalize_url("http://grafana.example.com").is_err());
    assert!(normalize_url("ftp://x").is_err());
    assert!(normalize_url("grafana.example.com").is_err());
    assert!(normalize_url("").is_err());
    assert!(normalize_url("https://").is_err());
}

#[test]
fn rejected_urls_are_told_why() {
    assert_eq!(normalize_url(" / ").unwrap_err(), "empty URL");
    assert_eq!(normalize_url("ftp://x/").unwrap_err(), "URL must start with https:// (got \"ftp://x\")");
    assert_eq!(
        normalize_url("http://g.example.com/x").unwrap_err(),
        "refusing http:// for non-local host \"g.example.com\" — your token/cookie would be sent in cleartext. Use https://"
    );
    assert_eq!(normalize_url("https:///x").unwrap_err(), "URL has no host");
    assert!(is_local_host("dev.localhost:80"));
    assert!(!is_local_host("localhost.example.com"));
}

#[test]
fn the_host_is_what_follows_the_credentials() {
    for raw in [
        "http://localhost:pw@evil.example.com",
        "http://localhost@evil.example.com",
        "http://127.0.0.1:80@evil.example.com:3000/x",
        "http://a@localhost@evil.example.com",
        "http://evil.example.com?@localhost",
        "http://evil.example.com#@localhost",
        "http://evil.example.com\\@localhost",
        "http://evil.example.com/@localhost",
    ] {
        assert!(normalize_url(raw).is_err(), "{raw}");
    }
    assert_eq!(normalize_url("http://me:pw@localhost:3000/").unwrap(), "http://me:pw@localhost:3000");
    assert_eq!(normalize_url("http://127.0.0.1:3000/grafana").unwrap(), "http://127.0.0.1:3000/grafana");
    assert!(!is_local_host("localhost:pw@evil.example.com"));
}

#[test]
fn the_base_url_comes_from_the_environment_or_the_file() {
    assert_eq!(base(Some("https://a/"), Some("https://b"), "f").unwrap(), "https://a");
    assert_eq!(base(Some("  "), Some(" https://b\n"), "f").unwrap(), "https://b");
    assert_eq!(
        base(None, Some(" ftp://b"), "f").unwrap_err(),
        "invalid Grafana URL (ftp://b): URL must start with https:// (got \"ftp://b\")"
    );
    assert_eq!(
        base(None, None, "/cfg/url").unwrap_err(),
        "no Grafana URL set. Set one:\n  gflog url https://grafana.example.com\nor export GRAFANA_URL (checked $GRAFANA_URL and /cfg/url)"
    );
}

#[test]
fn urls_are_stored_and_shown() {
    assert_eq!(url_to_store("https://a/").unwrap(), "https://a");
    assert_eq!(url_to_store("a").unwrap_err(), "rejected URL: URL must start with https:// (got \"a\")");
    assert_eq!(url_stored("/f", "https://a"), "wrote /f = https://a");
    assert_eq!(show_url(Some(" https://a\n")), "https://a");
    assert_eq!(show_url(Some("\n")), "no URL set — run `gflog url <https://...>` or export GRAFANA_URL");
}

#[test]
fn credentials_are_resolved_in_order() {
    assert_eq!(token_value(Some(" e "), Some("f")), Some("e".to_string()));
    assert_eq!(token_value(Some("  "), Some("f\n")), Some("f".to_string()));
    assert_eq!(token_value(None, Some(" \n")), None);
    assert!(matches!(resolve_auth(Some("t"), Some("c"), "tf", "cf"), Ok(Auth::Bearer(t)) if t == "t"));
    assert!(matches!(resolve_auth(None, Some(" c "), "tf", "cf"), Ok(Auth::Cookie(c)) if c == "grafana_session=c"));
    assert!(matches!(resolve_auth(None, Some("n=c"), "tf", "cf"), Ok(Auth::Cookie(c)) if c == "n=c"));
    let e = resolve_auth(None, None, "tf", "cf").err().unwrap();
    assert!(e.starts_with("no credentials. Set one:"));
    assert!(e.ends_with("looked in $GRAFANA_TOKEN, tf, cf"));
    assert_eq!(cookie_header(Some("x"), "cf").unwrap(), "grafana_session=x");
    assert!(cookie_header(None, "cf").unwrap_err().starts_with("no cookie at cf\n"));
}

#[test]
fn rotated_cookies_are_stored_unless_they_say_nothing_new() {
    let save = |headers: &[&str], cookie| save_rotated(&headers.iter().map(|h| h.to_string()).collect(), cookie);
    assert_eq!(save(&[" grafana_session=new; Path=/"], Some("old")), vec!["new"]);
    assert!(save(&["grafana_session=old; Path=/"], Some("grafana_session=old")).is_empty());
    assert!(save(&["grafana_session=deleted", "grafana_session=; Path=/", "other=new"], None).is_empty());
    assert_eq!(
        save(&["grafana_session=a", "grafana_session=a", "x=y", "grafana_session=b", "grafana_session=old"], Some("old")),
        vec!["a", "b", "old"]
    );
    assert_eq!(session_value(Some("a=b=c \n")), "c");
    assert_eq!(session_value(None), "");
}

#[test]
fn sessions_are_rotated_only_without_a_token() {
    assert!(matches!(start_rotation(true, Some("c")), RotationStart::NotNeeded));
    assert!(matches!(start_rotation(false, None), RotationStart::Impossible));
    match start_rotation(false, Some("n=c")) {
        RotationStart::Post { path, body, cookie, before } => {
            assert_eq!(path, "/api/user/auth-tokens/rotate");
            assert_eq!(body, "{}");
            assert_eq!(cookie, "n=c");
            assert_eq!(before, "c");
        }
        _ => panic!("nothing to post"),
    }
    assert!(keeps_rotated(200) && keeps_rotated(299));
    assert!(!keeps_rotated(199) && !keeps_rotated(300) && !keeps_rotated(401));
    assert_eq!(rotation_not_needed(), "using a Bearer token — session rotation not applicable");
    assert_eq!(rotate(200, "a", Some("a")), (true, "session refreshed (unchanged)".to_string()));
    assert_eq!(
        rotate(204, "a", Some("abcdefgh")),
        (true, "session refreshed (new token …cdefgh)".to_string())
    );
    assert_eq!(
        rotate(500, "a", None),
        (false, "rotate failed (500) — session likely fully expired, re-copy the cookie".to_string())
    );
}

#[test]
fn commands_on_credentials_choose_their_source() {
    assert!(matches!(cmd_token(Some("x".into()), true, true, true), CredentialAction::Clear));
    assert!(matches!(cmd_token(None, false, true, false), CredentialAction::Test));
    assert!(matches!(cmd_cookie(None, false, true), CredentialAction::Test));
    assert!(matches!(
        cmd_cookie(Some("x".into()), true, false),
        CredentialAction::Store(Input::Argument(v)) if v == "x"
    ));
    assert!(matches!(cmd_cookie(None, true, false), CredentialAction::Store(Input::Stdin)));
    assert!(matches!(cmd_token(None, false, false, false), CredentialAction::Store(Input::Clipboard)));
}

#[test]
fn credentials_are_accepted_or_refused() {
    assert_eq!(accept_credential(Credential::Token, Place::Stdin, "Bearer t\n").unwrap(), "t");
    assert_eq!(accept_credential(Credential::Cookie, Place::Argument, "a=b").unwrap(), "a=b");
    assert_eq!(
        accept_credential(Credential::Cookie, Place::Clipboard, " ").unwrap_err(),
        "clipboard empty — pass the value as an argument or pipe it with --stdin"
    );
    assert_eq!(
        accept_credential(Credential::Token, Place::Clipboard, "").unwrap_err(),
        "clipboard empty — pass the token as an argument or pipe it with --stdin"
    );
    assert_eq!(
        accept_credential(Credential::Cookie, Place::Stdin, " ").unwrap_err(),
        "could not parse a cookie token from stdin"
    );
    assert_eq!(
        accept_credential(Credential::Token, Place::Argument, "\"\"").unwrap_err(),
        "could not parse a token from argument"
    );
    assert_eq!(note_stored("/f", Place::Clipboard, "abcdefgh"), "wrote /f from clipboard (token …cdefgh, 8 chars)");
    assert_eq!(note_removal("/f", &Removal::Removed).unwrap(), "removed /f — reverted to cookie auth");
    assert_eq!(note_removal("/f", &Removal::Missing).unwrap(), "no token file to remove");
    assert_eq!(note_removal("/f", &Removal::Failed("no".into())).unwrap_err(), "cannot remove /f: no");
}

#[test]
fn a_refused_call_refreshes_once_and_asks_twice() {
    let stage = match on_reply(&Stage::Asked, 401, "no", "/p", false) {
        Next::Refresh(s) => s,
        _ => panic!("no refresh"),
    };
    assert!(matches!(on_refresh(&stage, false), Next::Fail(e) if e.starts_with("auth failed (401). session expired")));
    let again = match on_refresh(&stage, true) {
        Next::Ask(s) => s,
        _ => panic!("not asked again"),
    };
    assert!(matches!(on_reply(&again, 403, "no", "/p", false), Next::Fail(e) if e.starts_with("auth failed (403). ")));
    assert!(matches!(on_reply(&again, 500, "no", "/p", false), Next::Fail(e) if e.starts_with("auth failed (500). ")));
    assert!(matches!(on_reply(&again, 200, "[1]", "/p", false), Next::Accept(Json::Array(a)) if a.len() == 1));
}

#[test]
fn a_refused_token_is_never_refreshed() {
    match on_reply(&Stage::Asked, 401, &"x".repeat(400), "/p", true) {
        Next::Fail(e) => {
            assert!(e.starts_with("auth failed (401). token rejected — check/replace it:\n  gflog token --test\nxxx"));
            assert_eq!(e.lines().last().unwrap().len(), 300);
        }
        _ => panic!("no failure"),
    }
}

#[test]
fn other_failures_end_a_call() {
    assert!(matches!(on_reply(&Stage::Asked, 500, "oops", "/p", false), Next::Fail(e) if e == "HTTP 500 from /p\noops"));
    assert!(matches!(on_reply(&Stage::Asked, 200, "oops", "/p", false), Next::Accept(Json::Null)));
}

#[test]
fn loki_datasources_are_listed_and_chosen() {
    let v = read_json(
        r#"[{"type":"loki","url":"u","id":1,"name":"Main Logs"},{"type":"loki","url":"","id":2,"name":"b"},
            {"type":"prometheus","url":"u","id":3,"name":"c"},{"type":"loki","url":"u","id":4,"name":"Audit"},
            {"type":"loki","url":"u","name":"no id"}]"#,
    );
    let ds = loki_list(&v);
    assert_eq!(ds, vec![(1, "Main Logs".to_string()), (4, "Audit".to_string())]);
    assert_eq!(loki_datasource(&ds, None).unwrap(), (1, "Main Logs".to_string()));
    assert_eq!(loki_datasource(&ds, Some("AUD")).unwrap(), (4, "Audit".to_string()));
    assert_eq!(
        loki_datasource(&ds, Some("x")).unwrap_err(),
        "no Loki datasource matching \"x\". available: Main Logs, Audit"
    );
    assert_eq!(
        loki_datasource(&loki_list(&Json::Null), None).unwrap_err(),
        "no usable Loki datasource found in this Grafana"
    );
}

#[test]
fn the_cache_is_used_only_where_nothing_else_is_asked_for() {
    let cache = r#"{"id":7,"name":"n"}"#;
    assert_eq!(cached_datasource(None, false, Some(cache)), Some((7, "n".to_string())));
    assert_eq!(cached_datasource(None, true, Some(cache)), None);
    assert_eq!(cached_datasource(Some("n"), false, Some(cache)), None);
    assert_eq!(cached_datasource(None, false, Some("{}")), None);
    assert_eq!(cached_datasource(None, false, None), None);
    let j = pack_source(7, "n");
    assert!(matches!(j.get("id"), Some(Json::Number { whole: Some(7), .. })));
    assert_eq!(j.get_str("name").unwrap(), "n");
    assert_eq!(source_text(7, "n"), cache);
    for (id, name) in [(-5, "a\"b\\\n\u{e9}"), (0, ""), (i64::MIN, "x"), (i64::MAX, "y")] {
        assert_eq!(cached_datasource(None, false, Some(&source_text(id, name))), Some((id, name.to_string())));
    }
    assert_eq!(cached_datasource(None, false, Some(&source_text(7, "n"))), Some((7, "n".to_string())));
}

#[test]
fn credentials_are_reported_on() {
    let body = r#"[{"type":"loki","url":"u","id":1,"name":"a"},{"type":"loki","url":"u","id":2,"name":"b"}]"#;
    assert_eq!(
        report_auth(200, body, "https://g", true),
        (true, "auth OK via Bearer token — 2 usable Loki datasource(s): a, b".to_string())
    );
    assert_eq!(
        report_auth(200, "[]", "https://g", false).1,
        "auth OK via session cookie — 0 usable Loki datasource(s): (none with a URL)"
    );
    assert_eq!(
        report_auth(401, "", "https://g", true),
        (
            false,
            "auth FAILED (401) via Bearer token — token rejected/expired — set a fresh one with `gflog token`.".to_string()
        )
    );
    assert_eq!(
        report_auth(403, "", "https://g", false).1,
        "auth FAILED (403) via session cookie — cookie expired/rotated. Copy a fresh grafana_session from the browser (https://g) and run `cookie` again."
    );
    assert_eq!(report_auth(502, "bad", "https://g", false), (false, "unexpected HTTP 502: bad".to_string()));
}

#[test]
fn ns_ok_allows_safe_rejects_injection() {
    assert!(ns_ok("prod"));
    assert!(ns_ok("prod-eu_1.x"));
    assert!(ns_ok("prod*"));
    assert!(!ns_ok(""));
    assert!(!ns_ok("a\"} |bar"));
    assert!(!ns_ok("a|b"));
    assert!(!ns_ok("a b"));
    assert!(!ns_ok("a\\b"));
}

#[test]
fn ns_matcher_joins_with_alternation() {
    assert_eq!(ns_matcher(&vec!["a".into(), "b".into()]).unwrap(), r#"namespace=~"a|b""#);
}

#[test]
fn inject_ns_into_empty_and_nonempty_selectors() {
    assert_eq!(inject_ns("{}", r#"namespace=~"a""#), r#"{namespace=~"a"}"#);
    assert_eq!(inject_ns(r#"{service="x"}"#, r#"namespace=~"a""#), r#"{namespace=~"a", service="x"}"#);
    assert_eq!(inject_ns("no-selector", r#"namespace=~"a""#), r#"{namespace=~"a"}"#);
}

#[test]
fn selector_has_namespace_detects_matchers() {
    assert!(selector_has_namespace(r#"{namespace="prod"}"#));
    assert!(selector_has_namespace(r#"{namespace=~"a|b"}"#));
    assert!(selector_has_namespace(r#"{namespace!="x"}"#));
    assert!(!selector_has_namespace(r#"{service="x"}"#));
    assert!(!selector_has_namespace("no braces"));
}

#[test]
fn an_explicit_namespace_wins() {
    let q = r#"{namespace="own"}"#;
    assert_eq!(apply_ns(q, &ns(&["a"])).unwrap(), q);
    assert!(resolve_ns(q, &ns(&["a"])).is_none());
    assert_eq!(
        ns_note(q, &ns(&["a"])).unwrap(),
        "note: -q already sets a namespace matcher — keeping it, ignoring --namespace"
    );
    assert_eq!(ns_note(q, &ns(&[])), None);
    assert_eq!(apply_ns("{a=\"b\"}", &ns(&[])).unwrap(), "{a=\"b\"}");
    assert_eq!(apply_ns("{ } |= \"x\"", &ns(&["a", "b"])).unwrap(), r#"{namespace=~"a|b" } |= "x""#);
    assert_eq!(
        apply_ns("{}", &ns(&["ok", "a b"])).unwrap_err(),
        "invalid --namespace \"a b\": only [A-Za-z0-9._*-] allowed. For a custom matcher, put it in -q directly."
    );
    assert!(!selector_has_namespace("} {namespace=\"a\"}"));
}

#[test]
fn only_the_namespace_label_is_an_explicit_namespace() {
    assert_eq!(
        apply_ns(r#"{kube_namespace="x"}"#, &ns(&["a"])).unwrap(),
        r#"{namespace=~"a", kube_namespace="x"}"#
    );
    for q in [
        r#"{msg="namespace=x"}"#,
        r#"{msg=", namespace=\"x\""}"#,
        r#"{msg=`"`, other=", namespace=1"}"#,
        r#"{namespaces="x"}"#,
        r#"{app="x"} |= "namespace=""#,
        r#"{app="x"} | namespace="y""#,
    ] {
        assert!(!selector_has_namespace(q), "{q}");
    }
    for q in [
        r#"{path="a}b", namespace="x"}"#,
        r#"{path="a\"}b", namespace="x"}"#,
        r#"{path=`a}\`,namespace !~ "x"}"#,
        r#"sum(count_over_time({app="x", namespace =~"y"}[5m]))"#,
        "{\n  namespace = \"x\"\n}",
    ] {
        assert!(selector_has_namespace(q), "{q}");
        assert_eq!(apply_ns(q, &ns(&["a"])).unwrap(), q);
    }
}

#[test]
fn scoping_again_changes_nothing() {
    let names = ns(&["a", "b-*"]);
    for q in [
        "", "x", "{}", "{ }", r#"{app="x"}"#, r#"{app="}"}"#, r#"{app="x}"#, r#"{kube_namespace="x"} |= "}""#,
        r#""}" {app="x"}"#, r#"{msg="namespace=1"}"#,
    ] {
        let once = apply_ns(q, &names).unwrap();
        assert_ne!(once, q);
        assert_eq!(apply_ns(&once, &names).unwrap(), once);
    }
}

#[test]
fn a_missing_query_is_scoped_too() {
    assert_eq!(apply_ns_opt(None, &ns(&["a"])).unwrap(), Some(r#"{namespace=~"a"}"#.to_string()));
    assert_eq!(apply_ns_opt(None, &ns(&[])).unwrap(), None);
    assert_eq!(apply_ns_opt(Some("{x=\"y\"}"), &ns(&[])).unwrap(), Some("{x=\"y\"}".to_string()));
    assert!(apply_ns_opt(None, &ns(&["a\""])).is_err());
}

#[test]
fn clip_is_char_safe() {
    assert_eq!(clip("hello", 3), "hel");
    assert_eq!(clip("hi", 10), "hi");
    let s = "héllo wörld ☃";
    assert_eq!(clip(s, 2), "hé");
    let _ = clip(s, 8);
}

#[test]
fn label_set_sorted_and_empty() {
    let mut m: Vec<(String, Json)> = Vec::new();
    m.push(("b".into(), Json::Str("2".into())));
    m.push(("a".into(), Json::Str("1".into())));
    assert_eq!(label_set(&m), r#"{a="1", b="2"}"#);
    assert_eq!(label_set(&Vec::new()), "{}");
}

#[test]
fn requests_for_log_lines() {
    let p = plan_live(3, "{a=\"b\"}", &ns(&["n"]), 100, &range("1s", None, "10"), NOW).unwrap();
    assert_eq!(p.query.as_deref(), Some("{namespace=~\"n\", a=\"b\"}"));
    assert_eq!(p.label, "1s..10");
    assert_eq!(p.request.path, "/api/datasources/proxy/3/loki/api/v1/query_range");
    assert_eq!(
        pairs(&p.request.params),
        vec![
            ("query", "{namespace=~\"n\", a=\"b\"}"),
            ("start", "9000000000"),
            ("end", "10000000000"),
            ("limit", "100"),
            ("direction", "backward"),
        ]
    );
    assert!(plan_live(3, "{}", &ns(&["a b"]), 1, &range("1s", None, "10"), NOW).is_err());
    assert!(plan_live(3, "{}", &ns(&[]), 1, &range("1s", None, "x"), NOW).is_err());
}

#[test]
fn requests_for_metrics() {
    let p = plan_metric(1, "rate({a=\"b\"}[1m])", &ns(&[]), "2m", &range("1s", None, "10"), NOW).unwrap();
    assert_eq!(p.step, 120);
    assert!(p.warning.unwrap().contains("shorter"));
    assert_eq!(p.plan.request.params[3], ("step".to_string(), "120s".to_string()));
    let p = plan_metric(1, "x", &ns(&[]), "0s", &range("1s", None, "10"), NOW).unwrap();
    assert_eq!(p.step, 1);
    assert_eq!(
        plan_metric(1, "x", &ns(&[]), " ", &range("1s", None, "10"), NOW).err().unwrap(),
        "duration out of range \" \""
    );
}

#[test]
fn requests_for_labels_and_values() {
    let p = plan_labels(2, &ns(&["n"]), &range("1s", None, "10"), NOW).unwrap();
    assert_eq!(p.request.path, "/api/datasources/proxy/2/loki/api/v1/labels");
    assert_eq!(
        pairs(&p.request.params),
        vec![("start", "9000000000"), ("end", "10000000000"), ("query", "{namespace=~\"n\"}")]
    );
    let p = plan_labels(2, &ns(&[]), &range("1s", None, "10"), NOW).unwrap();
    assert_eq!(p.request.params.len(), 2);
    let p = plan_values(2, "app", Some("{a=\"b\"}"), &ns(&[]), &range("1s", None, "10"), NOW).unwrap();
    assert_eq!(p.request.path, "/api/datasources/proxy/2/loki/api/v1/label/app/values");
    assert_eq!(p.request.params[2].1, "{a=\"b\"}");
    assert!(plan_labels(2, &ns(&["\""]), &range("1s", None, "10"), NOW).is_err());
    assert!(plan_values(2, "app", None, &ns(&[]), &range("1s", None, "zz"), NOW).is_err());
}

const REPLY: &str = r#"{"data":{"resultType":"streams","result":[
    {"stream":{"app":"one","level":"warn"},"values":[["1000000000","first"],["3000000000","third"],"skipped"]},
    {"stream":{"app":"two"},"values":[["2000000000","{\"message\":\"second\",\"level\":\"error\"}"],["x"]]},
    {"values":7}]}}"#;

#[test]
fn replies_become_records_newest_first() {
    let recs = read_records(&read_json(REPLY));
    assert_eq!(recs.len(), 4);
    let sorted = sort_newest(&recs);
    let ts: Vec<&str> = sorted.iter().map(|r| r.ts.as_str()).collect();
    assert_eq!(
        ts,
        vec![
            "1970-01-01T00:00:03.000Z",
            "1970-01-01T00:00:02.000Z",
            "1970-01-01T00:00:01.000Z",
            "1970-01-01T00:00:00.000Z",
        ]
    );
    assert_eq!(sorted[1].msg, "second");
    assert_eq!(sorted[1].level, "ERROR");
    assert_eq!(sorted[3].msg, "");
    assert_eq!(read_records(&Json::Null).len(), 0);
}

#[test]
fn log_lines_are_reported_with_a_header() {
    let filter = Filter { service: Some("one".into()), logger: None, match_: None, after: None, before: None };
    let r = report_live(&read_json(REPLY), "ds", "{q}", "1h..now", &filter, &View::Errors { warn: true, level: None }, false, false);
    assert_eq!(r.header, "# loki[ds] q='{q}' window=1h..now  (2 of 4 lines after filter)\n");
    assert_eq!(lines(&r.output.unwrap())[0], "2 record(s) at ['ERROR', 'FATAL', 'WARN']\n");
    let all = Filter { service: None, logger: None, match_: None, after: None, before: None };
    let r = report_live(&read_json(REPLY), "ds", "{q}", "1h..now", &all, &View::Summary, false, false);
    assert_eq!(r.header, "# loki[ds] q='{q}' window=1h..now  (4 lines)\n");
    let r = report_live(&read_json(REPLY), "ds", "{q}", "w", &all, &View::Timeline { buckets: usize::MAX }, false, false);
    assert_eq!(r.header, "# loki[ds] q='{q}' window=w  (4 lines)\n");
    assert!(r.output.is_none());
}

#[test]
fn metric_replies_become_series() {
    let j = read_json(
        r#"{"data":{"resultType":"matrix","result":[
            {"metric":{"b":"2","a":"1"},"values":[[1.5,"2"],["7","x"],[3]]},
            {"metric":{},"value":[9,"4"]},
            {}]}}"#,
    );
    assert_eq!(read_result_type(&j), "matrix");
    let s = read_series(&j);
    assert_eq!(s.len(), 3);
    assert_eq!(s[0].labels, "{a=\"1\", b=\"2\"}");
    assert_eq!(s[0].points.len(), 3);
    assert_eq!(s[0].points[0].time.as_deref(), Some("1.5"));
    assert_eq!(s[0].points[0].value.as_deref(), Some("2"));
    assert_eq!(s[0].points[1].time.as_deref(), Some("7"));
    assert_eq!(s[0].points[2].value, None);
    assert_eq!(s[1].points[0].value.as_deref(), Some("4"));
    assert_eq!(s[2].points.len(), 0);
    assert!(matches!(s[2].metric, Json::Null));
    assert_eq!(read_result_type(&Json::Null), "");
}

#[test]
fn metrics_are_reported_as_text_and_as_json() {
    let s = SeriesLine { labels: "{a=\"1\"}".into(), points: 2, sum: "3".into(), last: "1".into(), max: "2".into() };
    let r = report_metric("ds", "q", "1h..now", 60, &vec![s]);
    assert_eq!(r.header.as_deref(), Some("# loki[ds] metric q='q' window=1h..now step=60s  (1 series)\n"));
    assert_eq!(lines(&r.output), vec!["{a=\"1\"}", "  pts=2 sum=3 last=1 max=2"]);
    let r = report_metric("ds", "q", "1h..now", 60, &Vec::new());
    assert_eq!(lines(&r.output), vec!["no data"]);
    let one = pack_series(Json::Null, Json::Array(Vec::new()), Json::Null, Json::Null, Json::Null, Json::Null);
    let j = pack_metric("matrix", 60, vec![one]);
    assert_eq!(j.get_str("resultType").unwrap(), "matrix");
    assert_eq!(j.get_str("step").unwrap(), "60s");
    assert!(matches!(j.get("series"), Some(Json::Array(a)) if a.len() == 1 && a[0].get("points").is_some()));
}

#[test]
fn names_are_reported() {
    let j = read_json(r#"{"data":["a",1,"b"]}"#);
    assert_eq!(read_names(&j), vec!["a", "b"]);
    let r = report_labels(&j, "ds", "1h..now", false);
    assert_eq!(r.header.as_deref(), Some("# loki[ds] labels window=1h..now  (2 labels)\n"));
    assert_eq!(lines(&r.output), vec!["a", "b"]);
    let r = report_values(&j, "ds", "app", "1h..now", false);
    assert_eq!(r.header.as_deref(), Some("# loki[ds] values of 'app' window=1h..now  (2 values)\n"));
    let r = report_values(&j, "ds", "app", "1h..now", true);
    assert!(r.header.is_none());
    assert!(matches!(&r.output, Output::Value(v) if v.get_str("label").unwrap() == "app"));
    let r = report_labels(&Json::Null, "ds", "w", true);
    assert!(matches!(&r.output, Output::Value(v) if matches!(v.get("labels"), Some(Json::Array(a)) if a.is_empty())));
}
