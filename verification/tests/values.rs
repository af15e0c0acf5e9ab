use agentgate::clock::{Clock, Timestamp, FIRST_SECOND, LAST_SECOND};
use agentgate::json::{Json, JsonMap};
use agentgate::text::{
    after_prefix, before_suffix, chars_of, decimal_text, joined, signed_decimal_text, text_between,
    trim_leading, trim_trailing,
};

#[test]
fn values_print_and_read_back() {
    let texts = [
        "null",
        "true",
        "-7",
        "18446744073709551615",
        r#""a\"\\\n""#,
        "[]",
        "{}",
        r#"{"a":[1,{"b":null}],"c":"d"}"#,
        "1.5",
    ];
    for text in texts {
        let v = Json::parse(text).unwrap();
        assert_eq!(v.to_text(), text);
        assert!(Json::parse(&v.to_text()).unwrap().same(&v));
        assert!(v.clone().same(&v));
    }
}

#[test]
fn texts_that_are_no_documents_are_refused() {
    for text in ["", "{", "nul", "[1,]", r#"{"a"}"#, "1 2", "'a'"] {
        assert!(Json::parse(text).is_none(), "{text}");
    }
}

#[test]
fn escapes_are_read_as_what_they_stand_for() {
    let v = Json::parse(r#"{"cmd":"\u0072\u006d"}"#).unwrap();
    assert_eq!(v.get("cmd").unwrap().as_str(), Some("rm"));
}

#[test]
fn members_are_found_set_and_taken_out() {
    let m = JsonMap::new()
        .insert("b".to_string(), Json::from_u64(1))
        .insert("a".to_string(), Json::from_text("x"))
        .insert("b".to_string(), Json::Bool(true));
    assert_eq!(m.entries().len(), 2);
    assert!(matches!(m.get("b"), Some(Json::Bool(true))));
    assert!(m.get("c").is_none());
    let m = m.remove("b").remove("zzz");
    assert_eq!(Json::Object(m).to_text(), r#"{"a":"x"}"#);
    assert_eq!(Json::from_u64(u64::MAX).to_text(), "18446744073709551615");
    assert!(Json::Null.get("a").is_none());
    assert!(Json::from_u64(1).as_str().is_none());
}

#[test]
fn of_two_members_with_one_key_the_later_counts() {
    let v = Json::parse(r#"{"a":1,"a":2}"#).unwrap();
    assert_eq!(v.to_text(), r#"{"a":2}"#);
}

#[test]
fn same_compares_what_values_say() {
    let same = |a: &str, b: &str| Json::parse(a).unwrap().same(&Json::parse(b).unwrap());
    assert!(same(r#"{"a":1,"b":2}"#, r#"{"b":2,"a":1}"#));
    assert!(!same(r#"{"a":1}"#, r#"{"a":1,"b":2}"#));
    assert!(!same(r#"{"a":1,"b":2}"#, r#"{"a":1}"#));
    assert!(!same("[1,2]", "[2,1]"));
    assert!(!same("[1]", "[1,1]"));
    assert!(!same("1", "\"1\""));
    assert!(!same("1", "2"));
    assert!(same("[[],{}]", "[ [ ] , { } ]"));
}

#[test]
fn deep_documents_print_though_they_do_not_read() {
    let mut v = Json::Null;
    for _ in 0..127 {
        v = Json::Array(vec![v]);
    }
    assert!(Json::parse(&v.to_text()).unwrap().same(&v));
    let deeper = Json::Array(vec![v]);
    assert!(Json::parse(&deeper.to_text()).is_none());
}

#[test]
fn numbers_in_decimal() {
    assert_eq!(decimal_text(0), "0");
    assert_eq!(decimal_text(9), "9");
    assert_eq!(decimal_text(10), "10");
    assert_eq!(decimal_text(u64::MAX), "18446744073709551615");
    assert_eq!(signed_decimal_text(-32603), "-32603");
    assert_eq!(signed_decimal_text(i64::MIN), "-9223372036854775808");
    assert_eq!(signed_decimal_text(i64::MAX), "9223372036854775807");
}

#[test]
fn parts_of_texts() {
    let chars = chars_of("aßc");
    assert_eq!(chars, vec!['a', 'ß', 'c']);
    assert_eq!(text_between(&chars, 1, 3), "ßc");
    assert_eq!(joined("a", "ß"), "aß");
    assert_eq!(after_prefix("data: x", "data: ").as_deref(), Some("x"));
    assert_eq!(after_prefix("data:x", "data: "), None);
    assert_eq!(after_prefix("d", "data: "), None);
    assert_eq!(before_suffix("a/sse", "/sse").as_deref(), Some("a"));
    assert_eq!(before_suffix("sse", "/sse"), None);
    assert_eq!(trim_trailing("a//", '/'), "a");
    assert_eq!(trim_trailing("//", '/'), "");
    assert_eq!(trim_leading("//a/", '/'), "a/");
}

#[test]
fn times_are_seconds_and_nanoseconds() {
    assert!(Timestamp::new(0, 0).is_some());
    assert!(Timestamp::new(0, 1_000_000_000).is_none());
    assert!(Timestamp::new(59, 1_999_999_999).is_some());
    assert!(Timestamp::new(59, 2_000_000_000).is_none());
    assert!(Timestamp::new(-1, 1_500_000_000).is_some());
    assert!(Timestamp::new(FIRST_SECOND, 0).is_some());
    assert!(Timestamp::new(FIRST_SECOND - 1, 0).is_none());
    assert!(Timestamp::new(LAST_SECOND, 999_999_999).is_some());
    assert!(Timestamp::new(LAST_SECOND + 1, 0).is_none());
    let t = Timestamp::new(1_775_206_872, 345_000_000).unwrap();
    assert_eq!(t.seconds(), 1_775_206_872);
    assert_eq!(t.nanos(), 345_000_000);
}

#[test]
fn times_as_text() {
    let t = Timestamp::new(1_775_206_872, 345_000_000).unwrap();
    assert_eq!(t.to_rfc3339(), "2026-04-03T09:01:12.345+00:00");
    assert_eq!(t.log_text(), "2026-04-03T09:01:12.345Z");
    assert_eq!(t.table_text(), "2026-04-03 09:01:12");
    assert_eq!(t.hour(), 9);
    assert_eq!(Timestamp::new(-1, 0).unwrap().hour(), 23);
    assert_eq!(Timestamp::new(FIRST_SECOND, 0).unwrap().hour(), 0);
}

#[test]
fn times_read_back() {
    let samples = [
        (0, 0),
        (1_775_206_872, 345_678_901),
        (-62_167_219_200, 0),
        (253_402_300_799, 999_999_999),
        (59, 1_500_000_000),
    ];
    for (s, n) in samples {
        let t = Timestamp::new(s, n).unwrap();
        assert_eq!(Timestamp::parse_from_rfc3339(&t.to_rfc3339()), Some(t));
    }
    assert_eq!(
        Timestamp::parse_from_rfc3339("2026-04-03T11:01:12+02:00"),
        Timestamp::new(1_775_206_872, 0)
    );
    assert_eq!(Timestamp::parse_from_rfc3339("yesterday"), None);
}

#[test]
fn the_ends_of_time_can_be_printed() {
    for s in [FIRST_SECOND, LAST_SECOND] {
        let t = Timestamp::new(s, 0).unwrap();
        assert!(!t.to_rfc3339().is_empty());
        assert!(!t.log_text().is_empty());
        assert!(!t.table_text().is_empty());
    }
}

#[test]
fn clocks_do_not_run_back() {
    let clock = Clock::start();
    let a = clock.now();
    let b = clock.now();
    assert!(a <= b);
    assert!(Timestamp::now().seconds() > 1_700_000_000);
}

#[test]
fn clocks_count_from_their_own_start() {
    let clock = Clock::start();
    let first = clock.now();
    while clock.now() == first {}
    let late = Clock::start();
    let reading = late.now();
    assert!(reading < clock.now());
}

#[test]
fn the_time_is_after_1970_and_no_leap_second() {
    let t = Timestamp::now();
    assert!(t.seconds() >= 0);
    assert!(t.nanos() < 1_000_000_000);
}
