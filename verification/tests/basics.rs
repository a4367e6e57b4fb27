use gflog::json::{
    array, as_bool, as_fields, as_items, as_str, as_whole, int_value, object, read_json, size_value, str_items,
    str_value, Json,
};
use gflog::number::{int_to_text, nat_to_text, only_digits, pad_left, parse_int, size_to_text, to_three_wide};
use gflog::order::{group_keys, is_before, order_by_count, order_by_text, rank_keys, sort_texts};
use gflog::patterns::{find_group, own_pattern, weave, SESSION_COOKIE, SPACES};
use gflog::text::{
    contains, ends_with, head_of, join, replace_char, split, starts_with, strip_prefix, tail_of, take_chars,
    take_last_chars, to_ascii_lower, trim, trim_back, trim_both, trim_front, CharSet,
};

fn texts(v: &[&str]) -> Vec<String> {
    v.iter().map(|s| s.to_string()).collect()
}

#[test]
fn numbers_are_written_and_read_back() {
    for n in [0i64, 7, 10, -1, i64::MAX, i64::MIN] {
        assert_eq!(int_to_text(n), n.to_string());
        assert_eq!(parse_int(&int_to_text(n)), Some(n));
    }
    assert_eq!(nat_to_text(u64::MAX), u64::MAX.to_string());
    assert_eq!(size_to_text(120), "120");
    assert_eq!(parse_int("+5"), Some(5));
    assert_eq!(parse_int("-"), None);
    assert_eq!(parse_int(""), None);
    assert_eq!(parse_int("1_0"), None);
    assert_eq!(parse_int("9223372036854775808"), None);
    assert_eq!(parse_int("-9223372036854775808"), Some(i64::MIN));
    assert!(only_digits("0123"));
    assert!(!only_digits("1a"));
}

#[test]
fn numbers_are_set_to_a_width() {
    assert_eq!(pad_left("7", 3), format!("{:>3}", 7));
    assert_eq!(pad_left("1234", 3), "1234");
    assert_eq!(to_three_wide(7), format!("{:03}", 7));
    assert_eq!(to_three_wide(-7), format!("{:03}", -7));
    assert_eq!(to_three_wide(-500), format!("{:03}", -500));
}

#[test]
fn texts_are_ordered_as_strings_are() {
    let words = ["", "a", "ab", "b", "Z", "é", "z", "☃"];
    for a in words {
        for b in words {
            assert_eq!(is_before(a, b), a < b);
        }
    }
    assert_eq!(sort_texts(&texts(&["b", "a", "Z"])), texts(&["Z", "a", "b"]));
    assert_eq!(order_by_text(&texts(&["b", "a", "b"]), false), vec![1, 0, 2]);
    assert_eq!(order_by_text(&texts(&["b", "a", "b"]), true), vec![0, 2, 1]);
    assert_eq!(order_by_count(&vec![1, 3, 3, 2]), vec![1, 2, 3, 0]);
}

#[test]
fn keys_are_grouped_and_ranked() {
    let keys = texts(&["x", "y", "y", "z", "x", "y"]);
    let g = group_keys(&keys);
    assert_eq!(g.len(), 3);
    assert_eq!(g[0].key, "x");
    assert_eq!(g[0].members, vec![0, 4]);
    let r = rank_keys(&keys);
    assert_eq!(r.iter().map(|g| g.key.as_str()).collect::<Vec<_>>(), vec!["y", "x", "z"]);
    assert_eq!(r.iter().map(|g| g.members.len()).sum::<usize>(), keys.len());
}

#[test]
fn texts_are_trimmed() {
    assert_eq!(trim(" \u{a0}a b\n"), "a b");
    assert_eq!(trim_front("--a-", CharSet::Only('-')), "a-");
    assert_eq!(trim_back("a//", CharSet::Only('/')), "a");
    assert_eq!(trim_both("'\"a\"", CharSet::Quote), "a");
}

#[test]
fn texts_are_taken_apart_and_put_together() {
    assert_eq!(split("a,,b", ','), texts(&["a", "", "b"]));
    assert_eq!(split("", ','), texts(&[""]));
    assert_eq!(head_of("a:b:c", ':'), "a");
    assert_eq!(tail_of("a=b=c", '='), "c");
    assert_eq!(join(&texts(&["a", "b"]), ", "), "a, b");
    assert_eq!(replace_char("aTb", 'T', " "), "a b");
    assert_eq!(take_chars("héllo", 2), "hé");
    assert_eq!(take_last_chars("héllo", 4), "éllo");
    assert_eq!(strip_prefix("panel-7", "panel-").as_deref(), Some("7"));
    assert_eq!(strip_prefix("7", "panel-"), None);
    assert_eq!(to_ascii_lower("GrÄFANA"), "grÄfana");
}

#[test]
fn texts_are_searched() {
    assert!(contains("hello", "ll"));
    assert!(contains("hello", ""));
    assert!(!contains("hello", "lx"));
    assert!(starts_with("hello", "he"));
    assert!(!starts_with("he", "hello"));
    assert!(ends_with("a.localhost", ".localhost"));
}

#[test]
fn json_is_read() {
    let j = read_json(r#"{"b":[1,2.5,-3,18446744073709551615],"a":{"x":null},"s":"é\n","t":true}"#);
    assert_eq!(as_str(j.get("s")).unwrap(), "é\n");
    assert_eq!(as_bool(j.get("t")), Some(true));
    assert_eq!(as_fields(j.get("a")).unwrap()[0].0, "x");
    let b = as_items(j.get("b")).unwrap();
    assert_eq!(as_whole(Some(&b[0])), Some(1));
    assert_eq!(as_whole(Some(&b[1])), None);
    assert_eq!(as_whole(Some(&b[2])), Some(-3));
    assert_eq!(as_whole(Some(&b[3])), None);
    assert!(matches!(&b[1], Json::Number { text, .. } if text == "2.5"));
    assert!(matches!(read_json("nope"), Json::Null));
    assert!(matches!(j.copy().get2("a", "x"), Some(Json::Null)));
}

#[test]
fn json_is_built() {
    assert!(matches!(size_value(3), Json::Number { whole: Some(3), text } if text == "3"));
    assert!(matches!(int_value(-3), Json::Number { whole: Some(-3), text } if text == "-3"));
    assert!(matches!(array(vec![str_value("x")]), Json::Array(a) if a.len() == 1));
    assert!(matches!(str_items(&texts(&["a", "b"])), Json::Array(a) if a.len() == 2));
    let o = object(vec![("k".to_string(), str_value("v"))]);
    assert_eq!(o.get_str("k").unwrap(), "v");
    assert_eq!(o.get_str("l"), None);
}

#[test]
fn patterns_find_and_replace() {
    assert_eq!(own_pattern(SPACES).replace("a \t b\nc", " "), "a b c");
    assert_eq!(own_pattern(SPACES).replace("abc", " "), "abc");
    assert_eq!(find_group(SESSION_COOKIE, "x; grafana_session=tok; y", 1).as_deref(), Some("tok"));
    assert_eq!(find_group(SESSION_COOKIE, "x; grafana_session=tok; y", 0).as_deref(), Some("grafana_session=tok"));
    assert_eq!(find_group(SESSION_COOKIE, "nothing", 1), None);
    assert_eq!(weave(&texts(&["a", "b", "c"]), &texts(&["1", "2"])), "a1b2c");
}
