use gflog::cli::{Filter, View};
use gflog::json::Json;
use gflog::record::Record;
use gflog::views::listing::{errors, grep, show, trace};
use gflog::views::shape::{fmt_ms, patterns, timeline};
use gflog::views::summary::summary;
use gflog::views::{
    apply_filter, body, cluster_errors, count_by, dispatch, level_set, pick, pick_all, record_json, render,
    try_dispatch, Key, Output, Want,
};

fn rec(service: &str, level: &str, logger: &str, msg: &str, ts: &str) -> Record {
    Record {
        ts: ts.into(),
        level: level.into(),
        service: service.into(),
        pod: String::new(),
        namespace: String::new(),
        logger: logger.into(),
        thread: String::new(),
        trace: String::new(),
        msg: msg.into(),
        stack: String::new(),
    }
}

fn empty_filter() -> Filter {
    Filter { service: None, logger: None, match_: None, after: None, before: None }
}

fn sample() -> Vec<Record> {
    vec![
        rec("auth-service", "ERROR", "a.b.Proc", "null pointer", "2026-06-04T09:00:01Z"),
        rec("billing-service", "WARN", "a.b.Pool", "timeout to db", "2026-06-04T09:00:02Z"),
        rec("auth-service", "INFO", "a.b.Boot", "started ok", "2026-06-04T09:05:00Z"),
    ]
}

fn lines(o: Output) -> Vec<String> {
    match o {
        Output::Lines(v) => v,
        Output::Value(_) => panic!("a value"),
        Output::Failure(e) => panic!("{}", e),
    }
}

fn value(o: Output) -> Json {
    match o {
        Output::Value(j) => j,
        _ => panic!("no value"),
    }
}

fn failure(o: Output) -> String {
    match o {
        Output::Failure(e) => e,
        _ => panic!("no failure"),
    }
}

/// A value as compact text, in the order of its fields.
fn compact(j: &Json) -> String {
    match j {
        Json::Null => "null".to_string(),
        Json::Bool(b) => b.to_string(),
        Json::Number { text, .. } => text.clone(),
        Json::Str(s) => format!("{:?}", s),
        Json::Array(a) => format!("[{}]", a.iter().map(compact).collect::<Vec<_>>().join(",")),
        Json::Object(o) => format!(
            "{{{}}}",
            o.iter().map(|(k, v)| format!("{}:{}", k, compact(v))).collect::<Vec<_>>().join(",")
        ),
    }
}

#[test]
fn filter_by_service_substring_ci() {
    let f = Filter { service: Some("AUTH".into()), ..empty_filter() };
    let out = apply_filter(sample(), &f);
    assert_eq!(out.len(), 2);
    assert!(out.iter().all(|r| r.service == "auth-service"));
}

#[test]
fn filter_by_match_on_message() {
    let f = Filter { match_: Some("timeout".into()), ..empty_filter() };
    let out = apply_filter(sample(), &f);
    assert_eq!(out.len(), 1);
    assert_eq!(out[0].service, "billing-service");
}

#[test]
fn filter_by_logger_and_time_bounds() {
    let f = Filter { logger: Some("Boot".into()), ..empty_filter() };
    assert_eq!(apply_filter(sample(), &f).len(), 1);

    let f = Filter { after: Some("2026-06-04T09:00:02".into()), ..empty_filter() };
    let out = apply_filter(sample(), &f);
    assert_eq!(out.len(), 2);

    let f = Filter { before: Some("2026-06-04T09:00:01Z".into()), ..empty_filter() };
    assert_eq!(apply_filter(sample(), &f).len(), 1);
}

#[test]
fn a_record_at_a_bound_stays() {
    for before in ["2026-06-04T09:00:02", "2026-06-04T09:00:02Z", "2026-06-04T09:00", "2026", ""] {
        let f = Filter { before: Some(before.into()), ..empty_filter() };
        let out = apply_filter(vec![rec("", "", "", "", "2026-06-04T09:00:02Z")], &f);
        assert_eq!(out.len(), 1);
        assert_eq!(out[0].ts, "2026-06-04T09:00:02Z");
        let f = Filter { after: Some(before.into()), ..empty_filter() };
        assert_eq!(apply_filter(vec![rec("", "", "", "", "2026-06-04T09:00:02Z")], &f).len(), 1);
    }
    for before in ["2026-06-04T09:00:01", "2026-06-04T09:00:01.999Z", "2025"] {
        let f = Filter { before: Some(before.into()), ..empty_filter() };
        assert!(apply_filter(vec![rec("", "", "", "", "2026-06-04T09:00:02Z")], &f).is_empty());
    }
    let f = Filter { before: Some(String::new()), ..empty_filter() };
    assert!(apply_filter(vec![rec("", "", "", "", "")], &f).is_empty());
}

#[test]
fn body_truncates_unless_full() {
    let long = "x".repeat(500);
    let truncated = body(&long, false, 120);
    assert_eq!(truncated.chars().count(), 120);
    assert!(truncated.ends_with('…'));
    let whole = body(&long, true, 120);
    assert_eq!(whole.chars().count(), 500);
    assert!(!whole.ends_with('…'));
}

#[test]
fn record_json_carries_full_msg_and_stack() {
    let mut r = rec("svc", "ERROR", "a.b.C", &"m".repeat(400), "2026-06-04T09:00:01Z");
    r.stack = "s".repeat(800);
    r.trace = "t1".into();
    let with_index = record_json(Some(7), &r);
    assert!(matches!(with_index.get("index"), Some(Json::Number { whole: Some(7), .. })));
    assert_eq!(with_index.get_str("msg").unwrap().len(), 400);
    assert_eq!(with_index.get_str("stack").unwrap().len(), 800);
    assert_eq!(with_index.get_str("trace").unwrap(), "t1");
    let no_index = record_json(None, &r);
    assert!(no_index.get("index").is_none());
}

#[test]
fn filters_compose() {
    let f = Filter { service: Some("auth".into()), match_: Some("null".into()), ..empty_filter() };
    let out = apply_filter(sample(), &f);
    assert_eq!(out.len(), 1);
    assert_eq!(out[0].level, "ERROR");
}

#[test]
fn one_filter_after_another_is_both_at_once() {
    let a = Filter { service: Some("auth".into()), ..empty_filter() };
    let b = Filter { match_: Some("NULL".into()), ..empty_filter() };
    let both = Filter { service: Some("auth".into()), match_: Some("NULL".into()), ..empty_filter() };
    let one = apply_filter(apply_filter(sample(), &a), &b);
    let two = apply_filter(sample(), &both);
    assert_eq!(one.len(), two.len());
    assert_eq!(one[0].msg, two[0].msg);
    assert_eq!(apply_filter(sample(), &empty_filter()).len(), 3);
}

#[test]
fn the_stack_is_searched_too_and_undated_records_fall_to_time_bounds() {
    let mut recs = sample();
    recs[2].stack = "at Foo.bar".into();
    recs[2].ts = String::new();
    let f = Filter { match_: Some("foo.BAR".into()), ..empty_filter() };
    assert_eq!(apply_filter(recs, &f)[0].level, "INFO");
    let mut undated = sample();
    undated[0].ts = String::new();
    let f = Filter { after: Some("".into()), ..empty_filter() };
    assert_eq!(apply_filter(undated, &f).len(), 2);
}

#[test]
fn counts_come_largest_first_and_keep_their_order() {
    let recs = vec![
        rec("a", "WARN", "", "", ""),
        rec("b", "INFO", "", "", ""),
        rec("c", "ERROR", "", "", ""),
        rec("d", "INFO", "", "", ""),
    ];
    let c = count_by(&recs, Key::Level);
    assert_eq!(c, vec![("INFO".to_string(), 2), ("WARN".to_string(), 1), ("ERROR".to_string(), 1)]);
    assert_eq!(count_by(&recs, Key::Service).len(), 4);
    assert_eq!(count_by(&recs, Key::Logger), vec![("".to_string(), 4)]);
}

#[test]
fn errors_cluster_by_signature() {
    let recs = vec![
        rec("a", "ERROR", "", "id 1", ""),
        rec("a", "INFO", "", "id 2", ""),
        rec("a", "WARN", "", "other", ""),
        rec("a", "FATAL", "", "id 333", ""),
    ];
    let (total, groups) = cluster_errors(&recs);
    assert_eq!(total, 3);
    assert_eq!(groups.len(), 2);
    assert_eq!(groups[0].key, "id <n>");
    assert_eq!(groups[0].members, vec![0, 3]);
    assert_eq!(groups[1].members, vec![2]);
    assert_eq!(groups.iter().map(|g| g.members.len()).sum::<usize>(), total);
}

#[test]
fn wanted_records_are_picked_in_order() {
    let recs = sample();
    assert_eq!(pick_all(&recs, &Want::All), vec![0, 1, 2]);
    assert_eq!(pick_all(&recs, &Want::Alarm), vec![0, 1]);
    assert_eq!(pick(&recs, &Want::All, 2), vec![0, 1]);
}

#[test]
fn levels_are_listed_or_standard() {
    assert_eq!(level_set(false, None), vec!["ERROR", "FATAL"]);
    assert_eq!(level_set(true, None), vec!["ERROR", "FATAL", "WARN"]);
    assert_eq!(level_set(true, Some("warn, info")), vec!["WARN", "INFO"]);
}

#[test]
fn summary_in_text() {
    let out = lines(summary(&sample(), false, false));
    assert_eq!(
        out,
        vec![
            "records: 3",
            "range:   2026-06-04 09:00:01  ->  2026-06-04 09:05:00",
            "\nlevels:",
            "       1  ERROR",
            "       1  WARN",
            "       1  INFO",
            "\nservices:",
            "       2  auth-service",
            "       1  billing-service",
            "\ntop loggers:",
            "       1  a.b.Proc",
            "       1  a.b.Pool",
            "       1  a.b.Boot",
            "\ntop error/warn patterns (2 total):",
            "      1x [ERROR] null pointer",
            "      1x [WARN] timeout to db",
        ]
    );
    assert_eq!(lines(summary(&[], false, false)), vec!["empty"]);
}

#[test]
fn summary_in_json() {
    let j = value(summary(&sample()[..1], true, false));
    assert_eq!(
        compact(&j),
        "{records:1,range:{start:\"2026-06-04 09:00:01\",end:\"2026-06-04 09:00:01\"},\
         levels:[{name:\"ERROR\",count:1}],services:[{name:\"auth-service\",count:1}],\
         loggers:[{name:\"a.b.Proc\",count:1}],error_warn_total:1,\
         patterns:[{count:1,level:\"ERROR\",sig:\"null pointer\",sample:\"null pointer\"}]}"
    );
    let none = value(summary(&[], true, true));
    assert!(matches!(none.get("range"), Some(Json::Null)));
}

#[test]
fn errors_in_text_and_in_json() {
    let mut recs = sample();
    recs[0].stack = "at x\n".into();
    let out = lines(errors(&recs, true, None, false, true));
    assert_eq!(
        out,
        vec![
            "2 record(s) at ['ERROR', 'FATAL', 'WARN']\n",
            "[0] 2026-06-04 09:00:01 ERROR auth-service Proc +stack",
            "     null pointer",
            "     STACK: at x",
            "[1] 2026-06-04 09:00:02 WARN billing-service Pool",
            "     timeout to db",
        ]
    );
    let j = value(errors(&recs, false, Some("warn,info"), true, false));
    assert_eq!(compact(j.get("levels").unwrap()), "[\"INFO\",\"WARN\"]");
    assert!(matches!(j.get("count"), Some(Json::Number { whole: Some(2), .. })));
}

#[test]
fn grep_finds_stops_and_complains() {
    let recs = sample();
    let out = lines(grep(&recs, "NULL|ok", true, 100, false, false));
    assert_eq!(out.len(), 4);
    assert_eq!(out[0], "[0] 2026-06-04 09:00:01 ERROR auth-service trace=");
    assert_eq!(out[3], "     started ok");
    assert_eq!(lines(grep(&recs, "NULL", false, 100, false, false)), vec!["no match"]);
    let cut = lines(grep(&recs, ".", false, 0, false, false));
    assert_eq!(cut.len(), 3);
    assert_eq!(cut[2], "... stopped at 0 (use --limit)");
    assert!(failure(grep(&recs, "(", false, 1, false, false)).starts_with("bad regex: "));
    let j = value(grep(&recs, "o", false, 2, true, false));
    assert!(matches!(j.get("truncated"), Some(Json::Bool(true))));
    assert!(matches!(j.get("count"), Some(Json::Number { whole: Some(2), .. })));
}

#[test]
fn grep_sees_message_and_stack_on_lines_of_their_own() {
    let mut recs = sample();
    recs[1].stack = "frame".into();
    assert_eq!(lines(grep(&recs, r"db\nframe", false, 9, false, false)).len(), 2);
}

#[test]
fn traces_are_sorted_by_time() {
    let mut recs = sample();
    recs[0].trace = "abc1".into();
    recs[0].ts = "2026-06-04T10:00:00Z".into();
    recs[0].stack = "s1\n s2".into();
    recs[1].trace = "abc2".into();
    let out = lines(trace(&recs, "abc", false, false));
    assert_eq!(
        out,
        vec![
            "2 record(s) for trace abc\n",
            "2026-06-04 09:00:02 WARN billing-service Pool",
            "  timeout to db",
            "2026-06-04 10:00:00 ERROR auth-service Proc",
            "  null pointer",
            "  STACK: s1 s2",
        ]
    );
    let j = value(trace(&recs, "", true, false));
    assert!(matches!(j.get("count"), Some(Json::Number { whole: Some(2), .. })));
}

#[test]
fn show_prints_one_record_or_complains() {
    let recs = sample();
    assert_eq!(
        lines(show(&recs, 0, false)),
        vec![
            "        ts: 2026-06-04T09:00:01Z",
            "     level: ERROR",
            "   service: auth-service",
            "    logger: a.b.Proc",
            "\nmessage:\nnull pointer",
        ]
    );
    assert_eq!(failure(show(&recs, 3, false)), "index 3 out of range (0..3)");
    let j = value(show(&recs, 1, true));
    assert_eq!(j.get_str("msg").unwrap(), "timeout to db");
    assert!(j.get("index").is_none());
}

#[test]
fn patterns_list_levels_and_first_places() {
    let recs = vec![
        rec("a", "INFO", "", "x 1", ""),
        rec("a", "WARN", "", "x 2", ""),
        rec("a", "INFO", "", "x 3", ""),
        rec("a", "INFO", "", "y", ""),
    ];
    assert_eq!(
        lines(patterns(&recs, 1, None, false, false)),
        vec!["2 distinct pattern(s)\n", "     3x [INFO/WARN] #0  x 1"]
    );
    let j = value(patterns(&recs, 9, Some("warn"), true, false));
    assert_eq!(
        compact(&j),
        "{clusters:1,patterns:[{count:1,levels:[\"WARN\"],sig:\"x <n>\",sample:\"x 2\",first_index:1}]}"
    );
}

#[test]
fn timeline_counts_every_dated_record() {
    let recs = vec![
        rec("a", "ERROR", "", "", "1970-01-01T00:00:00Z"),
        rec("a", "INFO", "", "", "1970-01-01T00:00:10Z"),
        rec("a", "INFO", "", "", "1970-01-01T00:00:20Z"),
        rec("a", "INFO", "", "", "never"),
    ];
    assert_eq!(
        lines(timeline(&recs, 2, false)),
        vec![
            "3 records over 01-01 00:00:00 → 01-01 00:00:20  (bucket 10s)\n".to_string(),
            format!("01-01 00:00:00       1 {}  err 1", "█".repeat(20)),
            format!("01-01 00:00:10       2 {}", "█".repeat(40)),
        ]
    );
    assert_eq!(
        compact(&value(timeline(&recs, 2, true))),
        "{bucket_secs:10,start:\"01-01 00:00:00\",end:\"01-01 00:00:20\",\
         buckets:[{start_ms:0,count:1,errors:1},{start_ms:10000,count:2,errors:0}]}"
    );
    assert_eq!(lines(timeline(&recs[3..], 2, false)), vec!["no parseable timestamps"]);
    assert_eq!(
        compact(&value(timeline(&recs[3..], 2, true))),
        "{buckets:[],note:\"no parseable timestamps\"}"
    );
}

#[test]
fn a_timeline_of_one_moment_has_one_full_bucket() {
    let recs = vec![rec("a", "INFO", "", "", "1970-01-01T00:00:00Z")];
    let out = lines(timeline(&recs, 0, false));
    assert_eq!(out.len(), 2);
    assert!(out[0].ends_with("(bucket 1s)\n"));
}

#[test]
fn times_beyond_the_calendar_are_question_marks() {
    assert_eq!(fmt_ms(86_399_000), "01-01 23:59:59");
    assert_eq!(fmt_ms(i64::MAX), "?");
}

#[test]
fn json_is_whole_whether_text_is_or_not() {
    let recs = vec![rec("a", "ERROR", "", &"m".repeat(300), "")];
    let views = vec![
        View::Summary,
        View::Errors { warn: false, level: None },
        View::Grep { pattern: "m".into(), ignore_case: false, limit: 5 },
        View::Trace { trace_id: "t".into() },
        View::Show { index: 0 },
        View::Patterns { limit: 5, level: None },
        View::Timeline { buckets: 3 },
    ];
    for v in &views {
        assert_eq!(
            compact(&value(dispatch(&recs, v, true, false))),
            compact(&value(dispatch(&recs, v, true, true)))
        );
    }
    let text = lines(dispatch(&recs, &views[1], false, false));
    let full = lines(dispatch(&recs, &views[1], false, true));
    assert_eq!(text[2].chars().count(), 165);
    assert_eq!(full[2].chars().count(), 305);
}

#[test]
fn outputs_are_rendered_as_they_are_printed() {
    assert_eq!(render(show(&sample(), 0, false)).unwrap().len(), 5);
    assert_eq!(
        render(Output::Value(Json::Object(vec![
            ("b".to_string(), Json::Number { whole: Some(1), text: "1".into() }),
            ("a".to_string(), Json::Array(vec![Json::Null, Json::Bool(true), Json::Str("x\n".into())])),
        ])))
        .unwrap(),
        vec!["{\n  \"a\": [\n    null,\n    true,\n    \"x\\n\"\n  ],\n  \"b\": 1\n}"]
    );
    assert_eq!(render(show(&sample(), 9, false)).unwrap_err(), "index 9 out of range (0..3)");
}

#[test]
fn numbers_are_printed_as_they_were_written() {
    for i in 1..5000_u32 {
        let x = f64::from(i) / 7.0 * 10_f64.powi(i as i32 % 60 - 30);
        let text = serde_json::to_string(&x).unwrap();
        let j = Json::Number { whole: None, text: text.clone() };
        assert_eq!(render(Output::Value(j)).unwrap(), vec![text]);
    }
    let j = Json::Number { whole: None, text: "18446744073709551615".into() };
    assert_eq!(render(Output::Value(j)).unwrap(), vec!["18446744073709551615"]);
}

#[test]
fn only_what_is_counted_has_to_fit_into_memory() {
    let undated = vec![rec("", "ERROR", "", "", "never")];
    assert_eq!(lines(timeline(&undated, usize::MAX, false)), vec!["no parseable timestamps"]);
    let view = View::Timeline { buckets: usize::MAX };
    assert_eq!(lines(try_dispatch(&undated, &view, false, false).unwrap()), vec!["no parseable timestamps"]);
    assert!(try_dispatch(&sample(), &view, false, false).is_none());
    assert!(try_dispatch(&sample(), &View::Timeline { buckets: 3 }, false, false).is_some());
}

#[test]
fn the_errors_of_a_timeline_add_up() {
    let recs = vec![
        rec("", "ERROR", "", "", "2026-06-04T09:00:01Z"),
        rec("", "FATAL", "", "", "2026-06-04T09:05:00Z"),
        rec("", "WARN", "", "", "2026-06-04T09:02:00Z"),
        rec("", "ERROR", "", "", "never"),
        rec("", "ERROR", "", "", "2026-06-04T09:04:59Z"),
    ];
    let j = value(timeline(&recs, 3, true));
    let number = |b: &Json, key: &str| match b.get(key) {
        Some(Json::Number { whole: Some(n), .. }) => *n,
        _ => panic!("no number"),
    };
    let buckets = match j.get("buckets") {
        Some(Json::Array(a)) => a,
        _ => panic!("no buckets"),
    };
    assert_eq!(buckets.iter().map(|b| number(b, "errors")).sum::<i64>(), 3);
    assert_eq!(buckets.iter().map(|b| number(b, "count")).sum::<i64>(), 4);
    assert!(buckets.iter().all(|b| number(b, "errors") <= number(b, "count")));
}
