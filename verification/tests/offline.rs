use gflog::cli::{Filter, View};
use gflog::json::read_json;
use gflog::offline::{export_patterns, load_text, newest, rec_from_value, report_file, resolve, Lookup};
use gflog::views::Output;

#[test]
fn exports_are_lists_or_objects() {
    let list = r#"[{"line":"one","date":"2026-01-01T00:00:00Z","fields":{"app":"a"}},{"line":"two"}]"#;
    let recs = load_text(list, "f").ok().unwrap();
    assert_eq!(recs.len(), 2);
    assert_eq!(recs[0].msg, "one");
    assert_eq!(recs[0].service, "a");
    assert_eq!(recs[0].ts, "2026-01-01T00:00:00Z");
    assert_eq!(recs[1].service, "?");
    assert_eq!(load_text(&format!("{{\"data\":{}}}", list), "f").ok().unwrap().len(), 2);
    assert_eq!(load_text(&format!("{{\"logs\":{}}}", list), "f").ok().unwrap().len(), 2);
    assert_eq!(load_text("{\"data\":7,\"logs\":[1,2]}", "f").ok().unwrap().len(), 1);
    assert_eq!(load_text("{\"line\":\"x\"}", "f").ok().unwrap()[0].msg, "x");
    assert_eq!(load_text("7", "f").ok().unwrap()[0].msg, "");
}

#[test]
fn what_is_no_json_is_told_where() {
    let e = load_text("{", "stdin").err().unwrap();
    assert!(e.starts_with("invalid JSON in stdin: EOF while parsing"));
}

#[test]
fn entries_become_records() {
    let r = rec_from_value(&read_json(r#"{"line":"{\"message\":\"m\"}","fields":{"level":"warn"}}"#));
    assert_eq!(r.msg, "m");
    assert_eq!(r.level, "WARN");
}

#[test]
fn the_newest_file_is_the_last_of_the_latest() {
    assert_eq!(newest(&vec![Some(1), Some(3), None, Some(3), Some(2)]), Some(3));
    assert_eq!(newest(&vec![None, None]), None);
    assert_eq!(newest(&Vec::new()), None);
}

#[test]
fn exports_are_looked_for_in_order() {
    let v = resolve(Some("a*.json"));
    assert_eq!(v.len(), 4);
    assert!(matches!(&v[0], Lookup::File(s) if s == "a*.json"));
    assert!(matches!(&v[1], Lookup::Glob(s) if s == "a*.json"));
    assert!(matches!(&v[2], Lookup::Download(s) if s == "a*.json"));
    assert!(matches!(&v[3], Lookup::Exports));
    assert_eq!(resolve(Some("a")).len(), 3);
    assert_eq!(resolve(None).len(), 1);
    assert_eq!(export_patterns(), vec!["Logs-*.json", "Explore-logs-*.json"]);
}

#[test]
fn exports_are_reported_with_a_header() {
    let text = r#"[{"line":"one","fields":{"app":"a"}},{"line":"two","fields":{"app":"b"}}]"#;
    let all = Filter { service: None, logger: None, match_: None, after: None, before: None };
    let r = report_file(load_text(text, "f").ok().unwrap(), "f.json", &all, &View::Show { index: 1 }, false, false);
    assert_eq!(r.header, "# f.json  (2 records)\n");
    let some = Filter { service: Some("B".into()), ..all };
    let r = report_file(load_text(text, "f").ok().unwrap(), "f.json", &some, &View::Show { index: 1 }, false, false);
    assert_eq!(r.header, "# f.json  (1 of 2 records after filter)\n");
    assert!(matches!(r.output, Some(Output::Failure(e)) if e == "index 1 out of range (0..1)"));
}
