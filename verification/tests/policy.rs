use agentgate::json::Json;
use agentgate::policy::redact::redact_value;
use agentgate::policy::rules::{
    PolicyFile, PolicyMetadata, PolicyRule, RateLimitEntry, RuleAction, RuleEntry,
};
use agentgate::policy::{PolicyDecision, PolicyEngine, PolicyError};
use regex::Regex;

const SECOND: u128 = 1_000_000_000;

fn json(text: &str) -> Json {
    Json::parse(text).unwrap()
}

fn file(rules: Vec<PolicyRule>) -> PolicyFile {
    PolicyFile {
        metadata: PolicyMetadata {
            name: "test".to_string(),
            version: "1".to_string(),
        },
        rules,
    }
}

fn engine(rules: Vec<PolicyRule>) -> PolicyEngine {
    PolicyEngine::load(file(rules)).ok().unwrap()
}

fn rule(id: &str, tool: &str, action: RuleAction) -> PolicyRule {
    PolicyRule {
        id: id.to_string(),
        tool: tool.to_string(),
        tool_prefix: None,
        condition: None,
        action,
        message: None,
        fields: None,
        pattern: None,
        replacement: None,
        max_calls: None,
        window_seconds: None,
    }
}

fn deny_rule(id: &str, tool: &str) -> PolicyRule {
    PolicyRule {
        message: Some("blocked".to_string()),
        ..rule(id, tool, RuleAction::Deny)
    }
}

fn redact_rule(id: &str, pattern: &str, replacement: &str) -> PolicyRule {
    PolicyRule {
        pattern: Some(pattern.to_string()),
        replacement: Some(replacement.to_string()),
        ..rule(id, "*", RuleAction::Redact)
    }
}

fn key_rule() -> PolicyRule {
    redact_rule("strip-api-key", r"sk-[A-Za-z0-9]{20}", "[REDACTED]")
}

fn secret() -> String {
    format!("sk-{}", "A".repeat(20))
}

#[test]
fn deny_rule_is_unconditional() {
    let samples = [
        "{}",
        r#"{"a":"b"}"#,
        r#"{"abc":"0","zz":"rm -rf"}"#,
        r#"{"k":"","other":"9z"}"#,
        "[1,2,3]",
        "null",
    ];
    for text in samples {
        let mut e = engine(vec![deny_rule("block-bash", "bash")]);
        let args = json(text);
        assert!(matches!(
            e.evaluate("bash", Some(&args)),
            PolicyDecision::Deny { .. }
        ));
    }
    let mut e = engine(vec![deny_rule("block-bash", "bash")]);
    match e.evaluate("bash", None) {
        PolicyDecision::Deny { rule_id, message } => {
            assert_eq!(rule_id, "block-bash");
            assert_eq!(message, "blocked");
        }
        other => panic!("{other:?}"),
    }
}

#[test]
fn deny_rule_does_not_affect_other_tools() {
    let mut e = engine(vec![deny_rule("block-bash", "bash")]);
    let args = json("{}");
    for tool in ["a", "bas", "bashx", "read_file", "BASH", "*", ""] {
        assert!(matches!(
            e.evaluate(tool, Some(&args)),
            PolicyDecision::Allow
        ));
    }
}

#[test]
fn redact_output_removes_matching_secret() {
    let e = engine(vec![key_rule()]);
    for (prefix, suffix) in [("", ""), ("abc", "xyz"), ("key ", " end")] {
        let input = json(&format!(
            r#"{{"field":"{}{}{}"}}"#,
            prefix,
            secret(),
            suffix
        ));
        let output = e.redact_output(&input).to_text();
        assert!(!output.contains(&secret()), "{output}");
        assert_eq!(
            output,
            format!(r#"{{"field":"{prefix}[REDACTED]{suffix}"}}"#)
        );
    }
}

#[test]
fn redact_output_is_idempotent() {
    let e = engine(vec![key_rule()]);
    for value in ["", "plain", "sk-short", &secret(), "a b _-9"] {
        let input = json(&format!(r#"{{"f":"{value}"}}"#));
        let once = e.redact_output(&input);
        let twice = e.redact_output(&once);
        assert!(once.same(&twice));
    }
}

#[test]
fn redact_output_is_safe_on_arbitrary_strings() {
    let e = engine(vec![key_rule()]);
    for value in ["\\u0000", "🦀 sk-", "\\\\", "ß\\n", "$1 $0 ${x}"] {
        let input = json(&format!(r#"{{"f":"{value}"}}"#));
        assert!(e.redact_output(&input).same(&input));
    }
}

#[test]
fn redaction_can_need_another_round() {
    let e = engine(vec![redact_rule("double", "a", "aa")]);
    let once = e.redact_output(&json(r#""a""#));
    assert_eq!(once.to_text(), r#""aa""#);
    assert_eq!(e.redact_output(&once).to_text(), r#""aaaa""#);
}

#[test]
fn first_deny_beats_later_allow() {
    let mut e = engine(vec![
        deny_rule("deny-first", "bash"),
        rule("allow-second", "bash", RuleAction::Allow),
    ]);
    for text in ["{}", r#"{"a":"b"}"#, r#"{"cmd":"ls","x":"0"}"#] {
        let args = json(text);
        assert!(matches!(
            e.evaluate("bash", Some(&args)),
            PolicyDecision::Deny { .. }
        ));
    }
}

#[test]
fn first_allow_beats_later_deny() {
    let mut e = engine(vec![
        rule("allow-bash", "bash", RuleAction::Allow),
        deny_rule("deny-bash", "bash"),
    ]);
    assert!(matches!(e.evaluate("bash", None), PolicyDecision::Allow));
}

/// The rule that denies a call, if one does.
fn denied_by(e: &mut PolicyEngine, tool: &str) -> Option<String> {
    match e.evaluate(tool, None) {
        PolicyDecision::Deny { rule_id, .. } => Some(rule_id),
        PolicyDecision::Allow => None,
        other => panic!("{other:?}"),
    }
}

#[test]
fn rules_are_asked_from_top_to_bottom() {
    let mut e = engine(vec![
        PolicyRule {
            message: Some("no".to_string()),
            ..rule("w", "*", RuleAction::Deny)
        },
        rule("a", "bash", RuleAction::Allow),
    ]);
    match e.evaluate("bash", None) {
        PolicyDecision::Deny { rule_id, message } => {
            assert_eq!(rule_id, "w");
            assert_eq!(message, "no");
        }
        other => panic!("{other:?}"),
    }
    let mut e = engine(vec![
        rule("a", "bash", RuleAction::Allow),
        deny_rule("w", "*"),
        rule("b", "ls", RuleAction::Allow),
        deny_rule("c", "bash"),
    ]);
    assert_eq!(denied_by(&mut e, "bash"), None);
    assert_eq!(denied_by(&mut e, "ls").as_deref(), Some("w"));
    assert_eq!(denied_by(&mut e, "*").as_deref(), Some("w"));
}

#[test]
fn rules_of_both_kinds_are_asked_in_the_order_of_the_file() {
    // A rule whose condition fails passes the call on to the next, so that the last
    // one that is left tells the order.
    let never = |id: &str, tool: &str| PolicyRule {
        condition: Some("time.hour > 23".to_string()),
        ..deny_rule(id, tool)
    };
    let mut e = engine(vec![
        never("0", "t"),
        never("1", "*"),
        never("2", "u"),
        deny_rule("3", "*"),
        deny_rule("4", "t"),
    ]);
    assert_eq!(denied_by(&mut e, "t").as_deref(), Some("3"));
    let mut e = engine(vec![
        never("0", "*"),
        never("1", "t"),
        deny_rule("2", "t"),
        deny_rule("3", "*"),
    ]);
    assert_eq!(denied_by(&mut e, "t").as_deref(), Some("2"));
    assert_eq!(denied_by(&mut e, "u").as_deref(), Some("3"));
}

#[test]
fn a_rule_may_be_for_the_tools_whose_names_begin_so() {
    let mut e = engine(vec![
        PolicyRule {
            tool_prefix: Some("read_".to_string()),
            ..rule("allow-reads", "*", RuleAction::Allow)
        },
        deny_rule("deny-rest", "*"),
    ]);
    assert_eq!(denied_by(&mut e, "read_file"), None);
    assert_eq!(denied_by(&mut e, "read_"), None);
    assert_eq!(denied_by(&mut e, "read").as_deref(), Some("deny-rest"));
    assert_eq!(denied_by(&mut e, "write_file").as_deref(), Some("deny-rest"));
    assert_eq!(denied_by(&mut e, "a_read_file").as_deref(), Some("deny-rest"));
    // A rule that names a tool too is for that tool alone.
    let mut e = engine(vec![
        PolicyRule {
            tool_prefix: Some("read_".to_string()),
            ..deny_rule("one", "read_file")
        },
        PolicyRule {
            tool_prefix: Some("write_".to_string()),
            ..deny_rule("none", "read_file")
        },
    ]);
    assert_eq!(denied_by(&mut e, "read_file").as_deref(), Some("one"));
    assert_eq!(denied_by(&mut e, "read_dir"), None);
}

#[test]
fn a_denial_without_a_message_names_the_rule() {
    let mut e = engine(vec![rule("no-shell", "bash", RuleAction::Deny)]);
    match e.evaluate("bash", None) {
        PolicyDecision::Deny { message, .. } => {
            assert_eq!(message, "Blocked by policy rule 'no-shell'");
        }
        other => panic!("{other:?}"),
    }
}

#[test]
fn rules_whose_condition_fails_are_passed_over() {
    let mut e = engine(vec![PolicyRule {
        condition: Some("arguments.cmd matches '(rm)' and time.hour >= 9".to_string()),
        ..deny_rule("no-rm", "bash")
    }]);
    let rm = json(r#"{"cmd":"rm x"}"#);
    let ls = json(r#"{"cmd":"ls"}"#);
    assert!(matches!(
        e.evaluate_at("bash", Some(&rm), 9, 0),
        PolicyDecision::Deny { .. }
    ));
    assert!(matches!(
        e.evaluate_at("bash", Some(&rm), 8, 0),
        PolicyDecision::Allow
    ));
    assert!(matches!(
        e.evaluate_at("bash", Some(&ls), 9, 0),
        PolicyDecision::Allow
    ));
}

#[test]
fn redaction_of_arguments_settles_the_call() {
    let mut e = engine(vec![key_rule(), deny_rule("deny-all", "*")]);
    let args = json(&format!(r#"{{"key":"{}","n":[1,"x"]}}"#, secret()));
    match e.evaluate("any", Some(&args)) {
        PolicyDecision::Redact { rule_id, arguments } => {
            assert_eq!(rule_id, "strip-api-key");
            assert_eq!(arguments.to_text(), r#"{"key":"[REDACTED]","n":[1,"x"]}"#);
        }
        other => panic!("{other:?}"),
    }
    // Without arguments there is nothing to redact, and the next rule is asked.
    assert!(matches!(
        e.evaluate("any", None),
        PolicyDecision::Deny { .. }
    ));
}

#[test]
fn redacting_rules_without_a_replacement_strike_out() {
    let mut e = engine(vec![PolicyRule {
        pattern: Some("x".to_string()),
        ..rule("strike", "*", RuleAction::Redact)
    }]);
    let args = json(r#"{"a":"x1x"}"#);
    match e.evaluate("t", Some(&args)) {
        PolicyDecision::Redact { arguments, .. } => {
            assert_eq!(arguments.to_text(), r#"{"a":"1"}"#);
        }
        other => panic!("{other:?}"),
    }
    assert_eq!(e.redact_output(&args).to_text(), r#"{"a":"1"}"#);
}

#[test]
fn redacting_rules_without_a_pattern_do_nothing() {
    let mut e = engine(vec![PolicyRule {
        replacement: Some("y".to_string()),
        ..rule("half", "*", RuleAction::Redact)
    }]);
    let args = json(r#"{"a":"x"}"#);
    assert!(matches!(
        e.evaluate("t", Some(&args)),
        PolicyDecision::Allow
    ));
    assert_eq!(e.redact_output(&args).to_text(), r#"{"a":"x"}"#);
}

#[test]
fn redaction_changes_strings_alone() {
    let re = Regex::new("[0-9a-z]").unwrap();
    let value = json(r#"{"a":[1,2.5,true,null,"b2"],"c":{"d":"e"}}"#);
    let out = redact_value(&value, &re, "~");
    assert_eq!(
        out.to_text(),
        r#"{"a":[1,2.5,true,null,"~~"],"c":{"d":"~"}}"#
    );
}

#[test]
fn replacements_may_name_groups() {
    let re = Regex::new("(?P<user>[a-z]+)@[a-z.]+").unwrap();
    let out = redact_value(&json(r#""joe@example.com""#), &re, "$user@***");
    assert_eq!(out.to_text(), r#""joe@***""#);
}

#[test]
fn every_redacting_rule_scrubs_results_in_turn() {
    let e = engine(vec![
        redact_rule("one", "cat", "dog"),
        deny_rule("not-this", "*"),
        PolicyRule {
            tool: "some_tool".to_string(),
            ..redact_rule("two", "dog", "cow")
        },
    ]);
    assert_eq!(
        e.redact_output(&json(r#"["cat","dog"]"#)).to_text(),
        r#"["cow","cow"]"#
    );
}

#[test]
fn a_rate_limiting_rule_lets_its_number_of_calls_through() {
    let mut e = engine(vec![PolicyRule {
        max_calls: Some(2),
        window_seconds: Some(10),
        ..rule("slow", "search", RuleAction::RateLimit)
    }]);
    assert!(matches!(
        e.evaluate_at("search", None, 0, 0),
        PolicyDecision::Allow
    ));
    assert!(matches!(
        e.evaluate_at("search", None, 0, 0),
        PolicyDecision::Allow
    ));
    match e.evaluate_at("search", None, 0, 0) {
        PolicyDecision::RateLimited { rule_id } => assert_eq!(rule_id, "slow"),
        other => panic!("{other:?}"),
    }
    assert!(matches!(
        e.evaluate_at("other", None, 0, 0),
        PolicyDecision::Allow
    ));
    assert!(matches!(
        e.evaluate_at("search", None, 0, 5 * SECOND),
        PolicyDecision::Allow
    ));
}

#[test]
fn a_rate_limiting_rule_has_a_default_of_100_calls_a_minute() {
    let mut e = engine(vec![rule("slow", "search", RuleAction::RateLimit)]);
    for _ in 0..100 {
        assert!(matches!(
            e.evaluate_at("search", None, 0, 0),
            PolicyDecision::Allow
        ));
    }
    assert!(matches!(
        e.evaluate_at("search", None, 0, 0),
        PolicyDecision::RateLimited { .. }
    ));
    assert!(matches!(
        e.evaluate_at("search", None, 0, 599_999_999),
        PolicyDecision::RateLimited { .. }
    ));
    assert!(matches!(
        e.evaluate_at("search", None, 0, 600_000_000),
        PolicyDecision::Allow
    ));
}

#[test]
fn reloading_takes_the_new_rules_and_keeps_what_was_counted() {
    let slow = || PolicyRule {
        max_calls: Some(1),
        window_seconds: Some(60),
        ..rule("slow", "search", RuleAction::RateLimit)
    };
    let mut e = engine(vec![slow()]);
    assert!(matches!(
        e.evaluate_at("search", None, 0, 0),
        PolicyDecision::Allow
    ));
    assert!(e
        .reload(file(vec![slow(), deny_rule("no-bash", "bash")]))
        .is_ok());
    assert!(matches!(
        e.evaluate_at("search", None, 0, 0),
        PolicyDecision::RateLimited { .. }
    ));
    assert!(matches!(
        e.evaluate_at("bash", None, 0, 0),
        PolicyDecision::Deny { .. }
    ));
}

#[test]
fn a_policy_that_does_not_compile_changes_nothing() {
    let mut e = engine(vec![deny_rule("no-bash", "bash")]);
    let bad = PolicyRule {
        condition: Some("time.hour <".to_string()),
        ..rule("bad", "x", RuleAction::Deny)
    };
    let err = e.reload(file(vec![bad])).unwrap_err();
    assert_eq!(err.message(), "Invalid condition in rule 'bad'");
    assert!(matches!(err, PolicyError::InvalidCondition { .. }));
    assert!(matches!(
        e.evaluate("bash", None),
        PolicyDecision::Deny { .. }
    ));
}

#[test]
fn the_first_faulty_rule_is_told() {
    let bad_pattern = PolicyRule {
        pattern: Some("(".to_string()),
        ..rule("bad-pattern", "x", RuleAction::Redact)
    };
    let bad_condition = PolicyRule {
        condition: Some("nonsense".to_string()),
        pattern: Some("(".to_string()),
        ..rule("bad-condition", "x", RuleAction::Deny)
    };
    let err = PolicyEngine::load(file(vec![
        deny_rule("fine", "y"),
        bad_pattern,
        bad_condition,
    ]))
    .err()
    .unwrap();
    assert_eq!(err.message(), "Invalid redact pattern in rule 'bad-pattern'");
    match err {
        PolicyError::InvalidPattern { rule_id, reason } => {
            assert_eq!(rule_id, "bad-pattern");
            assert!(reason.contains("unclosed group"));
        }
        other => panic!("{other:?}"),
    }
}

#[test]
fn entries_of_a_policy_file_are_filled_in() {
    let entry = |action: RuleAction| RuleEntry {
        id: "r".to_string(),
        tool: None,
        tool_prefix: None,
        condition: None,
        action,
        message: None,
        reason: None,
        fields: None,
        pattern: None,
        replacement: None,
        max_calls: None,
        window_seconds: None,
        rate_limit: None,
    };
    let deny = PolicyRule::from_entry(RuleEntry {
        tool: Some("bash".to_string()),
        reason: Some("Shell access is disabled for this agent.".to_string()),
        ..entry(RuleAction::Deny)
    });
    assert_eq!(deny.tool, "bash");
    assert_eq!(
        deny.message.as_deref(),
        Some("Shell access is disabled for this agent.")
    );
    assert_eq!(deny.replacement, None);

    let limit = PolicyRule::from_entry(RuleEntry {
        rate_limit: Some(RateLimitEntry {
            max_calls: 10,
            window_seconds: 60,
        }),
        window_seconds: Some(5),
        ..entry(RuleAction::RateLimit)
    });
    assert_eq!(limit.max_calls, Some(10));
    assert_eq!(limit.window_seconds, Some(5));

    let redact = PolicyRule::from_entry(RuleEntry {
        pattern: Some("sk-[A-Za-z0-9]{20,}".to_string()),
        ..entry(RuleAction::Redact)
    });
    assert_eq!(redact.tool, "*");
    let reads = PolicyRule::from_entry(RuleEntry {
        tool_prefix: Some("read_".to_string()),
        ..entry(RuleAction::Allow)
    });
    assert_eq!(reads.tool, "*");
    assert_eq!(reads.tool_prefix.as_deref(), Some("read_"));
    assert_eq!(redact.replacement, None);
    assert_eq!(redact.put_in(), "");
    let e = engine(vec![redact]);
    let out = e.redact_output(&json(&format!(r#""key={}!""#, secret())));
    assert_eq!(out.to_text(), r#""key=!""#);
}
