use agentgate::clock::Timestamp;
use agentgate::config::{CircuitBreakerConfig, RateLimitConfig};
use agentgate::json::Json;
use agentgate::policy::rules::{PolicyFile, PolicyMetadata, PolicyRule, RuleAction};
use agentgate::policy::PolicyEngine;
use agentgate::protocol::jsonrpc::JsonRpcResponse;
use agentgate::proxy::evaluation::{
    error_resp, evaluate_tool_call, evaluate_tool_call_at, make_record, EvalOutcome, Evaluation,
    LimitScope, Moment, Tally,
};
use agentgate::ratelimit::{CircuitBreaker, RateLimiter};
use agentgate::storage::InvocationStatus;

fn json(text: &str) -> Json {
    Json::parse(text).unwrap()
}

fn rule(id: &str, tool: &str, action: RuleAction) -> PolicyRule {
    PolicyRule {
        id: id.to_string(),
        tool: tool.to_string(),
        tool_prefix: None,
        condition: None,
        action,
        message: None,
        fields: None,
        pattern: None,
        replacement: None,
        max_calls: None,
        window_seconds: None,
    }
}

fn engine(rules: Vec<PolicyRule>) -> Option<PolicyEngine> {
    PolicyEngine::load(PolicyFile {
        metadata: PolicyMetadata {
            name: "test".to_string(),
            version: "1.0".to_string(),
        },
        rules,
    })
    .ok()
}

fn limiter(global: u64, per_tool: u64) -> RateLimiter {
    RateLimiter::new(RateLimitConfig {
        global_max_calls_per_minute: global,
        per_tool_max_calls_per_minute: per_tool,
        per_agent_max_calls_per_minute: 100_000,
    })
}

fn breaker(error_threshold: usize) -> CircuitBreaker {
    CircuitBreaker::new(CircuitBreakerConfig {
        error_threshold,
        window_seconds: 30,
        cooldown_seconds: 60,
    })
}

fn moment(limits: &RateLimiter, circuits: &CircuitBreaker) -> Moment {
    Moment {
        hour: 12,
        policy_now: 0,
        limiter_now: limits.now(),
        breaker_now: circuits.now(),
        record_id: "the-id".to_string(),
        timestamp: Timestamp::new(1_000, 5).unwrap(),
    }
}

fn call(
    policy: &mut Option<PolicyEngine>,
    limits: &mut RateLimiter,
    circuits: &mut CircuitBreaker,
    tool: &str,
    arguments: &str,
) -> Evaluation {
    let at = moment(limits, circuits);
    evaluate_tool_call_at(
        &Some(Json::from_u64(7)),
        tool,
        Some(json(arguments)),
        policy,
        limits,
        circuits,
        "fs",
        at,
    )
}

fn blocked(e: &Evaluation) -> &JsonRpcResponse {
    match &e.outcome {
        EvalOutcome::Block { response } => response,
        other => panic!("{other:?}"),
    }
}

fn allowed(e: &Evaluation) -> Option<String> {
    match &e.outcome {
        EvalOutcome::Allow { arguments } => arguments.as_ref().map(|a| a.to_text()),
        other => panic!("{other:?}"),
    }
}

#[test]
fn without_a_policy_a_call_goes_on_as_it_came() {
    let (mut limits, mut circuits) = (limiter(100, 100), breaker(5));
    let e = call(&mut None, &mut limits, &mut circuits, "bash", r#"{"a":1}"#);
    assert_eq!(allowed(&e).as_deref(), Some(r#"{"a":1}"#));
    assert!(e.record.is_none());
    assert!(e.tally.is_none());
}

#[test]
fn a_denied_call_is_answered_recorded_and_counted() {
    let mut policy = engine(vec![PolicyRule {
        message: Some("bash is blocked".to_string()),
        ..rule("block-bash", "bash", RuleAction::Deny)
    }]);
    let (mut limits, mut circuits) = (limiter(1, 1), breaker(5));
    let e = call(&mut policy, &mut limits, &mut circuits, "bash", r#"{"command":"ls"}"#);
    assert_eq!(
        blocked(&e).to_text(),
        r#"{"jsonrpc":"2.0","id":7,"error":{"code":-32603,"message":"bash is blocked"}}"#
    );
    let r = e.record.unwrap();
    assert_eq!(r.id, "the-id");
    assert_eq!(r.timestamp, Timestamp::new(1_000, 5).unwrap());
    assert_eq!(r.tool_name, "bash");
    assert_eq!(r.server_name, "fs");
    assert_eq!(r.status, InvocationStatus::Denied);
    assert_eq!(r.policy_hit.as_deref(), Some("block-bash"));
    assert_eq!(r.arguments.unwrap().to_text(), r#"{"command":"ls"}"#);
    assert!(r.result.is_none() && r.latency_ms.is_none());
    assert!(r.agent_id.is_none() && r.session_id.is_none());
    assert!(matches!(e.tally, Some(Tally::PolicyDenial { rule_id }) if rule_id == "block-bash"));
    // The denied call has drawn on no limit: the only token is still there.
    let e = call(&mut policy, &mut limits, &mut circuits, "ls", "{}");
    assert!(allowed(&e).is_some());
}

#[test]
fn a_limiting_rule_answers_with_its_id() {
    let mut policy = engine(vec![PolicyRule {
        max_calls: Some(1),
        ..rule("slow", "*", RuleAction::RateLimit)
    }]);
    let (mut limits, mut circuits) = (limiter(100, 100), breaker(5));
    let e = call(&mut policy, &mut limits, &mut circuits, "t", "{}");
    assert!(allowed(&e).is_some());
    let e = call(&mut policy, &mut limits, &mut circuits, "t", "{}");
    assert_eq!(
        blocked(&e).to_text(),
        r#"{"jsonrpc":"2.0","id":7,"error":{"code":-32029,"message":"Rate limit exceeded (rule 'slow')"}}"#
    );
    let r = e.record.unwrap();
    assert_eq!(r.status, InvocationStatus::RateLimited);
    assert_eq!(r.policy_hit.as_deref(), Some("slow"));
    match e.tally {
        Some(Tally::RateLimitHit { scope }) => {
            assert_eq!(scope, LimitScope::Policy);
            assert_eq!(scope.as_str(), "policy");
        }
        other => panic!("{other:?}"),
    }
}

#[test]
fn redacted_arguments_go_on_in_place_of_the_original() {
    let mut policy = engine(vec![PolicyRule {
        pattern: Some("secret".to_string()),
        replacement: Some("***".to_string()),
        ..rule("hide", "*", RuleAction::Redact)
    }]);
    let (mut limits, mut circuits) = (limiter(1, 1), breaker(1));
    let e = call(&mut policy, &mut limits, &mut circuits, "t", r#"{"k":"my secret"}"#);
    assert_eq!(allowed(&e).as_deref(), Some(r#"{"k":"my ***"}"#));
    assert!(e.record.is_none());
    // A redacted call is limited like any other.
    let e = call(&mut policy, &mut limits, &mut circuits, "t", r#"{"k":"my secret"}"#);
    assert_eq!(blocked(&e).error.as_ref().unwrap().code, -32029);
    let r = e.record.unwrap();
    assert_eq!(r.arguments.unwrap().to_text(), r#"{"k":"my ***"}"#);
    // And an open circuit refuses it.
    let mut limits = limiter(100, 100);
    let t = circuits.now() + 1_000_000_000;
    circuits.on_error_at("t", t);
    let e = call(&mut policy, &mut limits, &mut circuits, "t", r#"{"k":"my secret"}"#);
    assert_eq!(blocked(&e).error.as_ref().unwrap().code, -32030);
}

#[test]
fn the_global_limit_answers_with_the_time_to_wait() {
    let (mut limits, mut circuits) = (limiter(1, 100), breaker(5));
    call(&mut None, &mut limits, &mut circuits, "a", "{}");
    let e = call(&mut None, &mut limits, &mut circuits, "b", "{}");
    assert_eq!(
        blocked(&e).to_text(),
        r#"{"jsonrpc":"2.0","id":7,"error":{"code":-32029,"message":"Global rate limit exceeded. Retry after 60s.","data":{"retry_after_secs":60}}}"#
    );
    let r = e.record.unwrap();
    assert_eq!(r.status, InvocationStatus::RateLimited);
    assert_eq!(r.policy_hit.as_deref(), Some("global"));
    assert!(matches!(e.tally, Some(Tally::RateLimitHit { scope }) if scope.as_str() == "global"));
}

#[test]
fn a_tools_limit_answers_with_the_tool() {
    let (mut limits, mut circuits) = (limiter(100, 1), breaker(5));
    call(&mut None, &mut limits, &mut circuits, "a", "{}");
    let e = call(&mut None, &mut limits, &mut circuits, "a", "{}");
    assert_eq!(
        blocked(&e).to_text(),
        r#"{"jsonrpc":"2.0","id":7,"error":{"code":-32029,"message":"Per-tool rate limit exceeded for 'a'. Retry after 60s.","data":{"retry_after_secs":60,"tool":"a"}}}"#
    );
    let r = e.record.unwrap();
    assert_eq!(r.policy_hit.as_deref(), Some("per-tool"));
    assert!(matches!(e.tally, Some(Tally::RateLimitHit { scope }) if scope.as_str() == "per-tool"));
}

#[test]
fn an_open_circuit_answers_for_the_tool() {
    let (mut limits, mut circuits) = (limiter(100, 100), breaker(1));
    let t = circuits.now() + 1_000_000_000;
    circuits.on_error_at("a", t);
    let mut at = moment(&limits, &circuits);
    at.breaker_now = t;
    let e = evaluate_tool_call_at(
        &None,
        "a",
        None,
        &mut None,
        &mut limits,
        &mut circuits,
        "fs",
        at,
    );
    assert_eq!(
        blocked(&e).to_text(),
        r#"{"jsonrpc":"2.0","id":null,"error":{"code":-32030,"message":"Circuit breaker open for 'a'. Retry after 61s.","data":{"retry_after_secs":61,"state":"open"}}}"#
    );
    let r = e.record.unwrap();
    assert_eq!(r.status, InvocationStatus::Error);
    assert_eq!(r.policy_hit.as_deref(), Some("circuit-breaker"));
    assert!(r.arguments.is_none());
    assert!(matches!(e.tally, Some(Tally::CircuitOpen)));
}

#[test]
fn evaluating_now_gives_records_fresh_ids() {
    let mut policy = engine(vec![rule("no", "*", RuleAction::Deny)]);
    let (mut limits, mut circuits) = (limiter(100, 100), breaker(5));
    let mut ids = Vec::new();
    for _ in 0..2 {
        let e = evaluate_tool_call(
            &None,
            "t",
            None,
            &mut policy,
            &mut limits,
            &mut circuits,
            "fs",
        );
        ids.push(e.record.unwrap().id);
    }
    assert_ne!(ids[0], ids[1]);
    for id in &ids {
        assert_eq!(id.len(), 36);
        assert_eq!(id.matches('-').count(), 4);
        assert!(id.chars().all(|c| c == '-' || c.is_ascii_hexdigit()));
    }
}

#[test]
fn records_and_errors_are_made_of_what_is_given() {
    let r = make_record(
        "t",
        Some(json("[1]")),
        "srv",
        InvocationStatus::Allowed,
        None,
    );
    assert_eq!(r.tool_name, "t");
    assert_eq!(r.server_name, "srv");
    assert_eq!(r.status, InvocationStatus::Allowed);
    assert!(r.policy_hit.is_none());
    assert_eq!(r.arguments.unwrap().to_text(), "[1]");
    let e = error_resp(&Some(json(r#""x""#)), 5, "m \"q\"", Some(json("[]")));
    assert_eq!(
        e.to_text(),
        r#"{"jsonrpc":"2.0","id":"x","error":{"code":5,"message":"m \"q\"","data":[]}}"#
    );
}
