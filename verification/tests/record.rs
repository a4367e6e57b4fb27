use gflog::json::Json;
use gflog::record::{
    first, last_segment, normalize, normalize_with, oneline, short_ts, sig, ts_epoch_ms, Record, Scrubber,
};

fn fields(pairs: &[(&str, &str)]) -> Vec<(String, Json)> {
    pairs.iter().map(|(k, v)| (k.to_string(), Json::Str(v.to_string()))).collect()
}

#[test]
fn normalize_json_line() {
    let line = r#"{"message":"boom","level":"error","logger_name":"a.b.C","traceId":"t1","stack_trace":"x"}"#;
    let f = fields(&[("service_name", "svc"), ("pod", "p1"), ("namespace", "prod")]);
    let r = normalize(line, "2026-06-04T09:00:00.000Z", &f);
    assert_eq!(r.msg, "boom");
    assert_eq!(r.level, "ERROR");
    assert_eq!(r.service, "svc");
    assert_eq!(r.logger, "a.b.C");
    assert_eq!(r.trace, "t1");
    assert_eq!(r.stack, "x");
    assert_eq!(r.ts, "2026-06-04T09:00:00.000Z");
}

#[test]
fn normalize_takes_pod_namespace_and_thread() {
    let line = r#"{"message":"m","thread_name":"main"}"#;
    let r = normalize(line, "", &fields(&[("pod", "p1"), ("namespace", "prod")]));
    assert_eq!(r.pod, "p1");
    assert_eq!(r.namespace, "prod");
    assert_eq!(r.thread, "main");
}

#[test]
fn normalize_plain_line_uses_field_level_and_app() {
    let f = fields(&[("app", "legacy"), ("detected_level", "info")]);
    let r = normalize("plain text", "2026-01-01T00:00:00Z", &f);
    assert_eq!(r.msg, "plain text");
    assert_eq!(r.level, "INFO");
    assert_eq!(r.service, "legacy");
}

#[test]
fn normalize_missing_everything_is_question_marks() {
    let r = normalize("hi", "", &fields(&[]));
    assert_eq!(r.level, "?");
    assert_eq!(r.service, "?");
    assert_eq!(r.ts, "");
}

#[test]
fn normalize_label_trace_and_timestamp_fallback() {
    let line = r#"{"@timestamp":"2026-02-02T02:02:02Z","message":"m"}"#;
    let f = fields(&[("TraceID", "abc"), ("service_name", "s")]);
    let r = normalize(line, "", &f);
    assert_eq!(r.trace, "abc");
    assert_eq!(r.ts, "2026-02-02T02:02:02Z");
}

#[test]
fn sig_normalizes_numbers_and_hex() {
    assert_eq!(sig("user 12345 at deadbeefcafe"), "user <n> at <hex>");
    assert_eq!(sig("Fixture[id=99] seq=1"), "fixture[id=<n>] seq=<n>");
}

#[test]
fn oneline_collapses_and_truncates() {
    assert_eq!(oneline("  a\n\t b  ", 80), "a b");
    let out = oneline("abcdefghij", 5);
    assert_eq!(out.chars().count(), 5);
    assert!(out.ends_with('…'));
}

#[test]
fn ts_epoch_ms_ordering_fraction_and_invalid() {
    let a = ts_epoch_ms("2026-06-04T09:00:01.000Z").unwrap();
    let b = ts_epoch_ms("2026-06-04T09:00:02.000Z").unwrap();
    assert_eq!(b - a, 1000);
    assert_eq!(ts_epoch_ms("2026-06-04T09:00:01.123Z").unwrap(), a + 123);
    assert_eq!(ts_epoch_ms("2026-06-04T09:00:05").unwrap(), a + 4000);
    assert_eq!(ts_epoch_ms("not-a-time"), None);
}

#[test]
fn short_ts_and_last_segment() {
    assert_eq!(short_ts("2026-06-04T09:00:01.123Z"), "2026-06-04 09:00:01.123");
    assert_eq!(short_ts(""), "?");
    assert_eq!(last_segment("com.bp.Foo"), "Foo");
    assert_eq!(last_segment("Foo"), "Foo");
}

#[test]
fn timestamps_are_milliseconds_since_the_epoch() {
    assert_eq!(ts_epoch_ms("1970-01-01T00:00:00Z"), Some(0));
    assert_eq!(ts_epoch_ms("1970-01-01T00:01:00.250"), Some(60_250));
    assert_eq!(ts_epoch_ms("  1970-01-02T00:00:00ZZ "), Some(86_400_000));
    assert_eq!(ts_epoch_ms("1969-12-31T23:59:59Z"), Some(-1000));
}

#[test]
fn a_line_that_is_no_object_is_its_own_message() {
    let r = normalize("[1, 2]", "", &fields(&[]));
    assert_eq!(r.msg, "[1, 2]");
    let broken = normalize("{\"message\": ", "", &fields(&[]));
    assert_eq!(broken.msg, "{\"message\": ");
    assert_eq!(broken.logger, "");
}

#[test]
fn an_empty_message_gives_way_to_the_line() {
    let line = r#"  {"message":"","level":""}"#;
    let r = normalize(line, "", &fields(&[("level", "warn")]));
    assert_eq!(r.msg, line);
    assert_eq!(r.level, "WARN");
}

#[test]
fn a_parsed_object_is_taken_field_by_field() {
    let object = fields(&[("message", "m"), ("trace_id", "t2"), ("application_name", "a")]);
    let r: Record = normalize_with("line", "d", &fields(&[]), &object);
    assert_eq!(r.msg, "m");
    assert_eq!(r.trace, "t2");
    assert_eq!(r.service, "a");
    assert_eq!(r.ts, "d");
    assert_eq!(r.copy().msg, "m");
}

#[test]
fn the_first_text_that_is_there_counts() {
    assert_eq!(first(&vec![None, Some("b".to_string()), Some("c".to_string())]), "b");
    assert_eq!(first(&vec![None, None]), "");
}

#[test]
fn signatures_are_cut_at_120_characters() {
    assert_eq!(sig(&"x ".repeat(200)).chars().count(), 120);
    assert_eq!(sig("A\n B\t12"), "a b <n>");
    assert_eq!(Scrubber::new().sig("Id=7"), "id=<n>");
}

#[test]
fn long_lines_end_in_an_ellipsis() {
    assert_eq!(oneline("abc", 3), "abc");
    assert_eq!(oneline("abcd", 3), "ab…");
    assert_eq!(oneline("", 0), "");
    assert_eq!(Scrubber::new().oneline("a  b", 2), "a…");
}
