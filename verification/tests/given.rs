use gflog::dashboard::range::choose_second;
use gflog::dashboard::series::fill_legend;
use gflog::dashboard::table::Table;
use gflog::dashboard::variables::{find_missing, make_fillings};
use gflog::json::{read_json, Json};
use gflog::live::auth::take_session;
use gflog::live::call::{read_source, report_auth_on};
use gflog::live::scope::scope_within;
use gflog::live::window::{choose_ns, fit, stamp};
use gflog::record::{fit_line, millis, Record};
use gflog::views::listing::list_found;
use gflog::views::shape::{measure, print_volume, Point};
use gflog::views::{cluster_by, Output};

fn groups(g: &[Option<&str>]) -> Vec<Option<String>> {
    g.iter().map(|s| s.map(|s| s.to_string())).collect()
}

fn rec(msg: &str) -> Record {
    Record {
        ts: String::new(),
        level: "INFO".into(),
        service: "s".into(),
        pod: String::new(),
        namespace: String::new(),
        logger: String::new(),
        thread: String::new(),
        trace: "0123456789abcdefXYZ".into(),
        msg: msg.into(),
        stack: String::new(),
    }
}

#[test]
fn a_time_is_taken_in_the_first_form_that_it_has() {
    let zoned = Some((10, 5));
    let bare = Some((20, 7));
    assert_eq!(choose_ns("x", 0, zoned, bare), Ok(10_000_000_005));
    assert_eq!(choose_ns("x", 0, None, bare), Ok(20_000_000_000));
    assert_eq!(choose_ns("1m", 60_000_000_000, zoned, bare), Ok(0));
    assert_eq!(choose_ns("7", 0, zoned, bare), Ok(7_000_000_000));
    assert_eq!(choose_ns("x", 0, None, None), Err("cannot parse time \"x\"".to_string()));
    assert_eq!(choose_ns("x", 0, Some((i64::MAX, 0)), None), Err("time out of range \"x\"".to_string()));
    assert_eq!(fit(7, "x"), Ok(7));
    assert_eq!(choose_second("x", 9, Some(1), Some(2)), Ok(1));
    assert_eq!(choose_second("x", 9, None, Some(2)), Ok(2));
    assert_eq!(choose_second("now", 9, Some(1), Some(2)), Ok(9));
}

#[test]
fn points_in_time_count_milliseconds() {
    assert_eq!(millis((2, 345_678_901)), 2_345);
    assert_eq!(millis((-1, 1_000_000)), -999);
    assert_eq!(stamp("T", 7), "T.007Z");
}

#[test]
fn a_session_cookie_that_was_found_is_taken() {
    assert_eq!(take_session(Some("v".to_string()), "other words"), "v");
    assert_eq!(take_session(None, "other \"words;x\""), "words");
}

#[test]
fn lines_are_cut_to_a_width() {
    assert_eq!(fit_line("abc".to_string(), 3), "abc");
    assert_eq!(fit_line("abcd".to_string(), 3), "ab…");
    assert_eq!(fit_line(String::new(), 0), "");
}

#[test]
fn matches_at_given_places_are_listed() {
    let recs = vec![rec("a"), rec("b")];
    match list_found(&recs, "p", &vec![1], 1, false, true) {
        Output::Lines(v) => assert_eq!(
            v,
            vec!["[1] ? INFO s trace=0123456789abcdef", "     b", "... stopped at 1 (use --limit)"]
        ),
        _ => panic!("no lines"),
    }
    match list_found(&recs, "p", &vec![0], 2, true, true) {
        Output::Value(j) => {
            assert_eq!(j.get_str("pattern").unwrap(), "p");
            assert!(matches!(j.get("truncated"), Some(Json::Bool(false))));
        }
        _ => panic!("no value"),
    }
}

#[test]
fn places_are_clustered_by_their_keys() {
    let keys = vec!["x".to_string(), "y".to_string(), "y".to_string()];
    let g = cluster_by(&keys, &vec![4, 7, 9]);
    assert_eq!(g[0].key, "y");
    assert_eq!(g[0].members, vec![7, 9]);
    assert_eq!(g[1].members, vec![4]);
}

#[test]
fn points_fall_into_buckets() {
    let pts = vec![
        Point { ms: 0, error: false },
        Point { ms: 999, error: true },
        Point { ms: 1_500, error: true },
        Point { ms: 3_000, error: false },
    ];
    let v = measure(&pts, 3);
    assert_eq!((v.first, v.last, v.width, v.points), (0, 3_000, 1_000, 4));
    assert_eq!(v.totals, vec![2, 1, 1]);
    assert_eq!(v.errors, vec![1, 1, 0]);
    assert_eq!(v.totals.iter().sum::<usize>(), pts.len());
    assert_eq!(print_volume(&v)[2], format!("01-01 00:00:01       1 {}  err 1", "█".repeat(20)));
}

#[test]
fn what_a_body_reads_as_is_reported_on() {
    let list = read_json(r#"[{"type":"loki","url":"u","id":1,"name":"a"}]"#);
    assert_eq!(
        report_auth_on(200, "body", &list, "b", false),
        (true, "auth OK via session cookie — 1 usable Loki datasource(s): a".to_string())
    );
    assert_eq!(read_source(&read_json(r#"{"id":3,"name":"n"}"#)), Some((3, "n".to_string())));
    assert_eq!(read_source(&read_json(r#"{"id":"3","name":"n"}"#)), None);
}

#[test]
fn namespaces_go_into_a_selector() {
    assert_eq!(scope_within("{a=\"b\"}", &vec!["x".to_string()]).unwrap(), "{namespace=~\"x\", a=\"b\"}");
    assert!(scope_within("{}", &vec!["x y".to_string()]).is_err());
}

#[test]
fn matches_are_filled_with_values() {
    let mut values = Table::new();
    values.insert("a", "1");
    let ms = vec![groups(&[Some("${a}"), Some("a"), None]), groups(&[Some("$z"), None, Some("z")])];
    assert_eq!(make_fillings(&ms, &values), vec!["1", ""]);
    let missing = find_missing(&ms, &values);
    assert_eq!(missing.entries, vec![("z".to_string(), "".to_string())]);
    assert_eq!(fill_legend(&groups(&[Some("{{a}}"), Some("a")]), &values), "1");
    assert_eq!(fill_legend(&groups(&[Some("{{b}}"), Some("b")]), &values), "{{b}}");
}
