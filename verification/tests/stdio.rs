use agentgate::clock::Timestamp;
use agentgate::config::{AgentGateConfig, CircuitBreakerConfig, RateLimitConfig};
use agentgate::json::Json;
use agentgate::logging::structured::{log_line, Direction, LogEvent};
use agentgate::metrics::{circuit_state_code, status_label, Metric};
use agentgate::policy::rules::{PolicyFile, PolicyMetadata, PolicyRule, RuleAction};
use agentgate::policy::PolicyEngine;
use agentgate::protocol::jsonrpc::{
    extract_tool_params, rebuild_tool_call, JsonRpcError, JsonRpcMessage, JsonRpcRequest,
    JsonRpcResponse,
};
use agentgate::protocol::mcp::is_tools_call;
use agentgate::proxy::evaluation::Moment;
use agentgate::proxy::stdio::{InboundAction, InboundStep, Session, StdioProxy};
use agentgate::ratelimit::{CircuitBreaker, CircuitStateKind, RateLimiter};
use agentgate::storage::InvocationStatus;

fn json(text: &str) -> Json {
    Json::parse(text).unwrap()
}

fn opt(j: &Json, key: &str) -> Option<Json> {
    j.get(key).cloned()
}

/// The request that a line of JSON holds.
fn request(line: &str) -> JsonRpcRequest {
    let j = json(line);
    JsonRpcRequest {
        jsonrpc: j.get("jsonrpc").unwrap().as_str().unwrap().to_string(),
        id: opt(&j, "id"),
        method: j.get("method").unwrap().as_str().unwrap().to_string(),
        params: opt(&j, "params"),
    }
}

fn inbound_message(line: &str) -> Option<JsonRpcMessage> {
    Some(JsonRpcMessage::Request(request(line)))
}

/// The response that a line of JSON holds, with an error if one is given.
fn response(line: &str, error: Option<JsonRpcError>) -> JsonRpcMessage {
    let j = json(line);
    JsonRpcMessage::Response(JsonRpcResponse {
        jsonrpc: j.get("jsonrpc").unwrap().as_str().unwrap().to_string(),
        id: opt(&j, "id").unwrap(),
        result: opt(&j, "result"),
        error,
    })
}

fn rule(id: &str, tool: &str, action: RuleAction) -> PolicyRule {
    PolicyRule {
        id: id.to_string(),
        tool: tool.to_string(),
        tool_prefix: None,
        condition: None,
        action,
        message: None,
        fields: None,
        pattern: None,
        replacement: None,
        max_calls: None,
        window_seconds: None,
    }
}

fn session(rules: Vec<PolicyRule>) -> Session {
    let policy = PolicyEngine::load(PolicyFile {
        metadata: PolicyMetadata {
            name: "test".to_string(),
            version: "1".to_string(),
        },
        rules,
    })
    .ok();
    Session::new(
        policy,
        RateLimiter::new(RateLimitConfig {
            global_max_calls_per_minute: 100_000,
            per_tool_max_calls_per_minute: 100_000,
            per_agent_max_calls_per_minute: 100_000,
        }),
        CircuitBreaker::new(CircuitBreakerConfig {
            error_threshold: 1,
            window_seconds: 30,
            cooldown_seconds: 60,
        }),
        "fs".to_string(),
    )
}

fn inbound_at(s: &mut Session, line: &str, started_at: u128) -> InboundStep {
    let at = Moment {
        hour: 0,
        policy_now: 0,
        limiter_now: s.rate_limiter.now(),
        breaker_now: s.circuit_breaker.now(),
        record_id: "in".to_string(),
        timestamp: Timestamp::new(0, 0).unwrap(),
    };
    s.inbound_at(line, &inbound_message(line), at, started_at)
}

fn forwarded(step: &InboundStep) -> &str {
    match &step.action {
        InboundAction::Forward { line } => line,
        other => panic!("{other:?}"),
    }
}

const CALL: &str = r#"{"jsonrpc":"2.0","id":1,"method":"tools/call","params":{"name":"shell","arguments":{"cmd":"rm -rf /"}}}"#;

#[test]
fn other_lines_pass_unchanged() {
    let mut s = session(vec![rule("no", "*", RuleAction::Deny)]);
    let list = r#"{"jsonrpc":"2.0","id":1,"method":"tools/list","params":{}}"#;
    let step = s.inbound(list, &inbound_message(list));
    assert_eq!(forwarded(&step), list);
    assert!(!step.started && step.record.is_none() && step.tally.is_none());
    let step = s.inbound("not json", &None);
    assert_eq!(forwarded(&step), "not json");
    // A call without an id is not tracked, and not looked at.
    let note = r#"{"jsonrpc":"2.0","method":"tools/call","params":{"name":"shell"}}"#;
    let step = s.inbound(note, &inbound_message(note));
    assert_eq!(forwarded(&step), note);
    let answer = r#"{"jsonrpc":"2.0","id":9,"result":1}"#;
    let step = s.inbound(answer, &Some(response(answer, None)));
    assert_eq!(forwarded(&step), answer);
    assert!(matches!(s.inbound("", &None).action, InboundAction::Skip));
}

#[test]
fn deny_rule_catches_unicode_escaped_argument() {
    let raw_body = r#"{"jsonrpc":"2.0","id":1,"method":"tools/call","params":{"name":"shell","arguments":{"cmd":"\u0072\u006d -rf /"}}}"#;
    let mut s = session(vec![PolicyRule {
        condition: Some("arguments.cmd matches '(rm)'".to_string()),
        message: Some("rm is not allowed".to_string()),
        ..rule("no-rm", "shell", RuleAction::Deny)
    }]);
    let step = s.inbound(raw_body, &inbound_message(raw_body));
    match step.action {
        InboundAction::Reply { line } => {
            let body = json(&line);
            let error = body.get("error").unwrap();
            assert_eq!(
                error.get("message").unwrap().as_str(),
                Some("rm is not allowed")
            );
            assert_eq!(body.get("id").unwrap().to_text(), "1");
        }
        other => panic!("{other:?}"),
    }
    assert!(!step.started);
    assert_eq!(step.record.unwrap().policy_hit.as_deref(), Some("no-rm"));
}

#[test]
fn an_allowed_call_goes_as_it_came_and_meets_its_response() {
    let mut s = session(vec![]);
    let step = inbound_at(&mut s, CALL, 2_000_000);
    assert_eq!(forwarded(&step), CALL);
    assert!(step.started);
    let answer = r#"{"jsonrpc":"2.0","id":1,"result":{"ok":true}}"#;
    let step = s.flush_pending_at(
        &response(answer, None),
        answer,
        11_999_999,
        0,
        "out".to_string(),
        Timestamp::new(3, 4).unwrap(),
    );
    assert_eq!(step.line, answer);
    let r = step.record.unwrap();
    assert_eq!(r.id, "out");
    assert_eq!(r.timestamp, Timestamp::new(3, 4).unwrap());
    assert_eq!(r.tool_name, "shell");
    assert_eq!(r.server_name, "fs");
    assert_eq!(r.arguments.unwrap().to_text(), r#"{"cmd":"rm -rf /"}"#);
    assert_eq!(r.result.unwrap().to_text(), r#"{"ok":true}"#);
    assert_eq!(r.latency_ms, Some(9));
    assert_eq!(r.status, InvocationStatus::Allowed);
    assert!(r.policy_hit.is_none());
    let report = step.report.unwrap();
    assert_eq!(report.tool_name, "shell");
    assert_eq!(report.nanos, 9_999_999);
    assert!(!report.is_error);
    assert_eq!(report.circuit, CircuitStateKind::Closed);
    // The call is pending no more.
    let again = s.response(answer, &Some(response(answer, None))).unwrap();
    assert_eq!(again.line, answer);
    assert!(again.record.is_none() && again.report.is_none());
}

#[test]
fn an_error_opens_the_circuit_of_the_tool() {
    let mut s = session(vec![]);
    inbound_at(&mut s, CALL, 0);
    let answer = r#"{"jsonrpc":"2.0","id":1,"error":{"code":-1,"message":"boom"}}"#;
    let msg = response(
        answer,
        Some(JsonRpcError {
            code: -1,
            message: "boom".to_string(),
            data: None,
        }),
    );
    let step = s.response(answer, &Some(msg)).unwrap();
    assert_eq!(step.line, answer);
    let r = step.record.unwrap();
    assert_eq!(r.status, InvocationStatus::Error);
    assert!(r.result.is_none());
    let report = step.report.unwrap();
    assert!(report.is_error);
    assert_eq!(report.circuit, CircuitStateKind::Open);
    assert_eq!(
        s.circuit_breaker.state_kind("shell"),
        CircuitStateKind::Open
    );
    let step = s.inbound(CALL, &inbound_message(CALL));
    assert!(matches!(step.action, InboundAction::Reply { .. }));
}

#[test]
fn secrets_reach_neither_the_agent_nor_the_record() {
    let secret = format!("sk-{}", "A".repeat(20));
    let mut s = session(vec![PolicyRule {
        pattern: Some("sk-[A-Za-z0-9]{20}".to_string()),
        replacement: Some("[REDACTED]".to_string()),
        ..rule("keys", "*", RuleAction::Redact)
    }]);
    inbound_at(&mut s, CALL, 0);
    let answer = format!(r#"{{"id":1, "jsonrpc":"2.0","result":["{secret}"]}}"#);
    let step = s
        .response(&answer, &Some(response(&answer, None)))
        .unwrap();
    assert_eq!(
        step.line,
        r#"{"jsonrpc":"2.0","id":1,"result":["[REDACTED]"]}"#
    );
    assert_eq!(
        step.record.unwrap().result.unwrap().to_text(),
        r#"["[REDACTED]"]"#
    );
    // A result without secrets passes as it came.
    inbound_at(&mut s, CALL, 0);
    let answer = r#"{"id":1, "jsonrpc":"2.0","result":["plain"]}"#;
    let step = s.response(answer, &Some(response(answer, None))).unwrap();
    assert_eq!(step.line, answer);
}

#[test]
fn redacted_arguments_are_what_the_server_gets() {
    let mut s = session(vec![PolicyRule {
        pattern: Some("rm".to_string()),
        replacement: Some("echo".to_string()),
        ..rule("tame", "*", RuleAction::Redact)
    }]);
    let step = inbound_at(&mut s, CALL, 0);
    assert_eq!(
        forwarded(&step),
        r#"{"jsonrpc":"2.0","id":1,"method":"tools/call","params":{"arguments":{"cmd":"echo -rf /"},"name":"shell"}}"#
    );
    let answer = r#"{"jsonrpc":"2.0","id":1,"result":null}"#;
    let step = s.response(answer, &Some(response(answer, None))).unwrap();
    assert_eq!(
        step.record.unwrap().arguments.unwrap().to_text(),
        r#"{"cmd":"echo -rf /"}"#
    );
}

#[test]
fn responses_that_nobody_waits_for_pass() {
    let mut s = session(vec![]);
    inbound_at(&mut s, CALL, 0);
    let other = r#"{"jsonrpc":"2.0","id":"1","result":{}}"#;
    let step = s.response(other, &Some(response(other, None))).unwrap();
    assert_eq!(step.line, other);
    assert!(step.record.is_none());
    assert!(s.response("", &None).is_none());
    assert_eq!(s.response("log line", &None).unwrap().line, "log line");
    let ask = r#"{"jsonrpc":"2.0","id":1,"method":"roots/list"}"#;
    let step = s.response(ask, &inbound_message(ask)).unwrap();
    assert_eq!(step.line, ask);
    assert!(step.record.is_none());
}

#[test]
fn calls_do_not_mix() {
    let mut s = session(vec![]);
    inbound_at(&mut s, CALL, 0);
    let second = r#"{"jsonrpc":"2.0","id":2,"method":"tools/call","params":{"name":"list"}}"#;
    inbound_at(&mut s, second, 0);
    // The second call is answered first.
    let answer = r#"{"jsonrpc":"2.0","id":2,"result":"b"}"#;
    let step = s.response(answer, &Some(response(answer, None))).unwrap();
    assert_eq!(step.record.unwrap().tool_name, "list");
    let answer = r#"{"jsonrpc":"2.0","id":1,"result":"a"}"#;
    let step = s.response(answer, &Some(response(answer, None))).unwrap();
    let r = step.record.unwrap();
    assert_eq!(r.tool_name, "shell");
    assert_eq!(r.arguments.unwrap().to_text(), r#"{"cmd":"rm -rf /"}"#);
}

#[test]
fn tool_and_arguments_of_a_request() {
    let (tool, args) = extract_tool_params(&request(CALL));
    assert_eq!(tool, "shell");
    assert_eq!(args.unwrap().to_text(), r#"{"cmd":"rm -rf /"}"#);
    for line in [
        r#"{"jsonrpc":"2.0","id":1,"method":"tools/call"}"#,
        r#"{"jsonrpc":"2.0","id":1,"method":"tools/call","params":{}}"#,
        r#"{"jsonrpc":"2.0","id":1,"method":"tools/call","params":{"name":3}}"#,
        r#"{"jsonrpc":"2.0","id":1,"method":"tools/call","params":[1]}"#,
    ] {
        let (tool, args) = extract_tool_params(&request(line));
        assert_eq!(tool, "unknown");
        assert!(args.is_none());
    }
    assert!(is_tools_call("tools/call"));
    assert!(!is_tools_call("tools/list"));
}

#[test]
fn rebuilding_puts_arguments_in_or_takes_them_out() {
    let req = request(CALL);
    assert_eq!(
        rebuild_tool_call(&req, Some(json("[]"))).to_text(),
        r#"{"jsonrpc":"2.0","id":1,"method":"tools/call","params":{"arguments":[],"name":"shell"}}"#
    );
    assert_eq!(
        rebuild_tool_call(&req, None).to_text(),
        r#"{"jsonrpc":"2.0","id":1,"method":"tools/call","params":{"name":"shell"}}"#
    );
    let bare = request(r#"{"jsonrpc":"2.0","method":"tools/call"}"#);
    assert_eq!(
        rebuild_tool_call(&bare, None).to_text(),
        r#"{"jsonrpc":"2.0","method":"tools/call","params":{}}"#
    );
    let list = request(r#"{"jsonrpc":"2.0","method":"tools/call","params":[1]}"#);
    assert_eq!(
        rebuild_tool_call(&list, Some(json("2"))).to_text(),
        r#"{"jsonrpc":"2.0","method":"tools/call","params":[1]}"#
    );
}

#[test]
fn messages_have_methods_and_labels() {
    let req = JsonRpcMessage::Request(request(CALL));
    assert_eq!(req.method(), Some("tools/call"));
    assert_eq!(req.id_label(), "1");
    let note = inbound_message(r#"{"jsonrpc":"2.0","method":"ping"}"#).unwrap();
    assert_eq!(note.id_label(), "notification");
    let answer = response(r#"{"jsonrpc":"2.0","id":"a","result":1}"#, None);
    assert_eq!(answer.method(), None);
    assert_eq!(answer.id_label(), r#""a""#);
}

#[test]
fn log_lines_tell_what_passes() {
    let t = Timestamp::new(1_775_206_872, 345_000_000).unwrap();
    assert_eq!(
        log_line(&t, Direction::Inbound, &JsonRpcMessage::Request(request(CALL))),
        "[agentgate] 2026-04-03T09:01:12.345Z [INBOUND ] id=1 method=tools/call"
    );
    let event = LogEvent {
        timestamp: t,
        direction: Direction::Response,
        message: response(r#"{"jsonrpc":"2.0","id":null,"result":1}"#, None),
        raw: String::new(),
    };
    assert_eq!(
        event.line(),
        "[agentgate] 2026-04-03T09:01:12.345Z [RESPONSE] id=null response"
    );
    assert_eq!(Direction::Inbound.label(), "INBOUND ");
    assert_eq!(Direction::Response.label(), "RESPONSE");
}

#[test]
fn labels_and_codes_of_metrics() {
    assert_eq!(status_label(true), "error");
    assert_eq!(status_label(false), "success");
    assert_eq!(circuit_state_code(CircuitStateKind::Closed), 0);
    assert_eq!(circuit_state_code(CircuitStateKind::Open), 1);
    assert_eq!(circuit_state_code(CircuitStateKind::HalfOpen), 2);
}

#[test]
fn a_gateway_keeps_its_settings() {
    let proxy = StdioProxy::new(AgentGateConfig::default_for(Some("/home/joe"), '/'));
    assert_eq!(proxy.config.db_path, "/home/joe/.agentgate/logs.db");
}

#[test]
fn metrics_have_names_and_labels() {
    let all = [
        (Metric::ToolCalls, "agentgate_tool_calls_total", vec!["tool", "status"]),
        (Metric::CallDuration, "agentgate_tool_call_duration_seconds", vec!["tool"]),
        (Metric::PolicyDenials, "agentgate_policy_denials_total", vec!["rule_id"]),
        (Metric::RateLimitHits, "agentgate_rate_limit_hits_total", vec!["scope"]),
        (Metric::CircuitState, "agentgate_circuit_breaker_state", vec!["tool"]),
        (Metric::ActiveSessions, "agentgate_active_sessions", vec![]),
    ];
    for (metric, name, labels) in all {
        assert_eq!(metric.name(), name);
        assert_eq!(metric.labels(), labels);
    }
    assert_eq!(Metric::ToolCalls.help(), "Total tool invocations by outcome");
}
