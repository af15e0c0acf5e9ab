use agentgate::clock::Timestamp;
use agentgate::config::{CircuitBreakerConfig, RateLimitConfig, ServerEntry, TransportKind};
use agentgate::json::Json;
use agentgate::policy::rules::{PolicyFile, PolicyMetadata, PolicyRule, RuleAction};
use agentgate::policy::PolicyEngine;
use agentgate::protocol::jsonrpc::{JsonRpcMessage, JsonRpcRequest, JsonRpcResponse};
use agentgate::proxy::evaluation::Moment;
use agentgate::proxy::http::{
    answer_header_comes_back, error_response_body, headers_to_send, inspects,
    lower_header_comes_back, lower_header_goes_on, request_header_goes_on, HttpProxy,
};
use agentgate::proxy::sse::{
    base_url, derive_message_endpoint, endpoint_in, make_invocation_record, ParsedSseEvent,
    SseDecoder, SseProxy,
};
use agentgate::proxy::upstream::{
    expand_headers, local_addr, outcome_of, succeeded, Gateway, ProxyError, RequestAction,
};
use agentgate::ratelimit::{CircuitBreaker, CircuitStateKind, RateLimiter};
use agentgate::storage::InvocationStatus;

fn json(text: &str) -> Json {
    Json::parse(text).unwrap()
}

fn message(text: &str) -> Option<JsonRpcMessage> {
    let j = json(text);
    Some(JsonRpcMessage::Request(JsonRpcRequest {
        jsonrpc: "2.0".to_string(),
        id: j.get("id").cloned(),
        method: j.get("method").unwrap().as_str().unwrap().to_string(),
        params: j.get("params").cloned(),
    }))
}

fn rule(id: &str, tool: &str, action: RuleAction, message: Option<&str>) -> PolicyRule {
    PolicyRule {
        id: id.to_string(),
        tool: tool.to_string(),
        tool_prefix: None,
        condition: None,
        action,
        message: message.map(str::to_string),
        fields: None,
        pattern: None,
        replacement: None,
        max_calls: None,
        window_seconds: None,
    }
}

fn gateway(rules: Vec<PolicyRule>) -> Gateway {
    let policy = PolicyEngine::load(PolicyFile {
        metadata: PolicyMetadata {
            name: "test".to_string(),
            version: "1.0".to_string(),
        },
        rules,
    })
    .ok();
    Gateway::new(
        policy,
        RateLimiter::new(RateLimitConfig {
            global_max_calls_per_minute: 100_000,
            per_tool_max_calls_per_minute: 100_000,
            per_agent_max_calls_per_minute: 100_000,
        }),
        CircuitBreaker::new(CircuitBreakerConfig {
            error_threshold: 1000,
            window_seconds: 30,
            cooldown_seconds: 60,
        }),
        "sec-test".to_string(),
    )
}

fn entry(url: Option<&str>, bind_port: Option<u16>) -> ServerEntry {
    ServerEntry {
        name: "sec-test".to_string(),
        transport: TransportKind::Http,
        command: None,
        args: vec![],
        url: url.map(str::to_string),
        headers: vec![("Authorization".to_string(), "Bearer ${TOKEN}".to_string())],
        bind_port,
    }
}

fn vars() -> Vec<(String, String)> {
    vec![("TOKEN".to_string(), "t0k".to_string())]
}

const BASH: &str =
    r#"{"id":1,"method":"tools/call","params":{"name":"bash","arguments":{"command":"ls"}}}"#;

const BARE_BASH: &str =
    r#"{"jsonrpc":"2.0","id":1,"method":"tools/call","params":{"name":"bash","arguments":{}}}"#;

#[test]
fn denied_calls_are_answered_over_the_network() {
    let mut g = gateway(vec![rule(
        "block-bash",
        "bash",
        RuleAction::Deny,
        Some("bash is blocked"),
    )]);
    let step = g.request(&message(BASH));
    match step.action {
        RequestAction::Reply { body } => {
            let body = json(&body);
            let error = body.get("error").unwrap();
            assert_eq!(error.get("message").unwrap().as_str(), Some("bash is blocked"));
        }
        other => panic!("{other:?}"),
    }
    let r = step.record.unwrap();
    assert_eq!(r.status, InvocationStatus::Denied);
    assert_eq!(r.server_name, "sec-test");
    assert!(step.tally.is_some());
}

#[test]
fn deny_before_allow_is_denied() {
    let mut g = gateway(vec![
        rule("deny-bash", "bash", RuleAction::Deny, Some("denied")),
        rule("allow-bash", "bash", RuleAction::Allow, None),
    ]);
    assert!(matches!(
        g.request(&message(BARE_BASH)).action,
        RequestAction::Reply { .. }
    ));
}

#[test]
fn allow_before_deny_is_allowed() {
    let mut g = gateway(vec![
        rule("allow-bash", "bash", RuleAction::Allow, None),
        rule(
            "deny-bash",
            "bash",
            RuleAction::Deny,
            Some("should not reach this"),
        ),
    ]);
    match g.request(&message(BARE_BASH)).action {
        RequestAction::Call { tool_name, arguments } => {
            assert_eq!(tool_name, "bash");
            assert_eq!(arguments.unwrap().to_text(), "{}");
        }
        other => panic!("{other:?}"),
    }
}

#[test]
fn other_requests_pass_unwatched() {
    let mut g = gateway(vec![rule("no", "*", RuleAction::Deny, None)]);
    let step = g.request(&message(r#"{"id":1,"method":"tools/list","params":{}}"#));
    assert!(matches!(step.action, RequestAction::Pass));
    assert!(step.record.is_none());
    assert!(matches!(g.request(&None).action, RequestAction::Pass));
    // Over the network a call without an id is evaluated like any other.
    let step = g.request(&message(r#"{"method":"tools/call","params":{"name":"x"}}"#));
    match step.action {
        RequestAction::Reply { body } => assert_eq!(
            body,
            r#"{"jsonrpc":"2.0","id":null,"error":{"code":-32603,"message":"Blocked by policy rule 'no'"}}"#
        ),
        other => panic!("{other:?}"),
    }
}

#[test]
fn large_payloads_are_evaluated_like_any() {
    let mut g = gateway(vec![]);
    let big = "x".repeat(512 * 1024);
    let step = g.request(&message(&format!(
        r#"{{"id":1,"method":"tools/call","params":{{"name":"read_file","arguments":{{"data":"{big}"}}}}}}"#
    )));
    assert!(matches!(step.action, RequestAction::Call { .. }));
}

#[test]
fn fifty_calls_in_a_row_pass() {
    let mut g = gateway(vec![]);
    let mut done = 0;
    for _ in 0..50 {
        let step = g.request(&message(
            r#"{"id":1,"method":"tools/call","params":{"name":"read_file","arguments":{}}}"#,
        ));
        if matches!(step.action, RequestAction::Call { .. }) {
            done += 1;
        }
    }
    assert_eq!(done, 50);
}

#[test]
fn a_request_is_judged_at_a_moment() {
    let mut g = gateway(vec![PolicyRule {
        condition: Some("time.hour == 3".to_string()),
        ..rule("night", "bash", RuleAction::Deny, None)
    }]);
    let at = |g: &Gateway, hour: u32| Moment {
        hour,
        policy_now: 0,
        limiter_now: g.rate_limiter.now(),
        breaker_now: g.circuit_breaker.now(),
        record_id: "id".to_string(),
        timestamp: Timestamp::new(0, 0).unwrap(),
    };
    let m = at(&g, 3);
    assert!(g.request_at(&message(BASH), m).record.is_some());
    let m = at(&g, 4);
    assert!(g.request_at(&message(BASH), m).record.is_none());
}

#[test]
fn finished_calls_are_reported_and_recorded() {
    let http = HttpProxy::new(&entry(Some("http://up"), None), &vars(), gateway(vec![]))
        .ok()
        .unwrap();
    let report = http.gateway.report("t", 404, 1_000_000, 8_500_000);
    assert_eq!(report.tool_name, "t");
    assert!(report.is_error);
    assert_eq!(report.nanos, 7_500_000);
    assert_eq!(report.circuit, CircuitStateKind::Closed);
    let r = http.finished("t", Some(json("1")), 404, 1_000_000, 8_500_000);
    assert_eq!(r.latency_ms, Some(7));
    assert_eq!(r.status, InvocationStatus::Error);
    assert_eq!(r.server_name, "sec-test");
    assert_eq!(r.arguments.unwrap().to_text(), "1");
    assert!(r.result.is_none());
    assert!(succeeded(200) && succeeded(299) && !succeeded(300) && !succeeded(199));
    assert_eq!(outcome_of(204), InvocationStatus::Allowed);
    assert_eq!(outcome_of(500), InvocationStatus::Error);
}

#[test]
fn a_server_over_the_network_needs_an_address() {
    let err = HttpProxy::new(&entry(None, None), &vars(), gateway(vec![])).err();
    assert_eq!(err, Some(ProxyError::MissingUrl));
    let err = SseProxy::new(&entry(None, None), &vars(), gateway(vec![])).err();
    assert_eq!(err, Some(ProxyError::MissingUrl));
}

#[test]
fn addresses_and_headers_of_the_http_gateway() {
    let p = HttpProxy::new(&entry(Some("http://up//"), None), &vars(), gateway(vec![]))
        .ok()
        .unwrap();
    assert_eq!(p.bind_port, 7072);
    assert_eq!(p.upstream_for("/a?b=c"), "http://up/a?b=c");
    assert_eq!(
        p.extra_headers,
        vec![("Authorization".to_string(), "Bearer t0k".to_string())]
    );
    let p = HttpProxy::new(&entry(Some("http://up"), Some(1)), &vars(), gateway(vec![]))
        .ok()
        .unwrap();
    assert_eq!(p.bind_port, 1);
    assert_eq!(local_addr(7072), "127.0.0.1:7072");
    assert!(inspects("POST"));
    assert!(!inspects("GET"));
    assert!(!inspects("post"));
}

#[test]
fn only_some_headers_go_on_and_come_back() {
    for name in ["Content-Type", "ACCEPT", "authorization", "X-Request-Id"] {
        assert!(request_header_goes_on(name), "{name}");
    }
    for name in ["cookie", "host", "content-length", ""] {
        assert!(!request_header_goes_on(name), "{name}");
    }
    for name in [
        "Content-Type",
        "content-length",
        "Transfer-Encoding",
        "cache-control",
    ] {
        assert!(answer_header_comes_back(name), "{name}");
    }
    assert!(!answer_header_comes_back("set-cookie"));
    assert!(lower_header_goes_on("accept"));
    assert!(!lower_header_goes_on("Accept"));
    assert!(lower_header_comes_back("cache-control"));
    assert!(!lower_header_comes_back("Cache-Control"));
    let inbound = vec![
        ("Accept".to_string(), Some("a".to_string())),
        ("Cookie".to_string(), Some("b".to_string())),
        ("Authorization".to_string(), None),
        ("x-request-id".to_string(), Some("c".to_string())),
    ];
    let sent = headers_to_send(&inbound, &vars());
    assert_eq!(
        sent,
        vec![
            ("Accept".to_string(), "a".to_string()),
            ("x-request-id".to_string(), "c".to_string()),
            ("TOKEN".to_string(), "t0k".to_string()),
        ]
    );
    let h = vec![("A".to_string(), "x${TOKEN}y${NONE}".to_string())];
    assert_eq!(
        expand_headers(&h, &vars()),
        vec![("A".to_string(), "xt0ky${NONE}".to_string())]
    );
}

#[test]
fn bodies_that_carry_errors() {
    assert_eq!(
        error_response_body(Some(&json("3")), -32603, "no"),
        r#"{"jsonrpc":"2.0","id":3,"error":{"code":-32603,"message":"no"}}"#
    );
    assert_eq!(
        error_response_body(None, 1, ""),
        r#"{"jsonrpc":"2.0","id":null,"error":{"code":1,"message":""}}"#
    );
}

fn texts(events: &[ParsedSseEvent]) -> Vec<String> {
    events
        .iter()
        .map(|e| format!("{:?}/{:?}/{:?}", e.event_type, e.data, e.id))
        .collect()
}

#[test]
fn events_are_read_from_a_stream() {
    let mut d = SseDecoder::new();
    let events = d.feed("event: message\r\ndata: {\"a\":1}\nid: 7\n: comment\ndata:nope\n\n\nid: 8\n\ndata: x\n");
    assert_eq!(
        texts(&events),
        vec![r#"Some("message")/Some("{\"a\":1}")/Some("7")"#]
    );
    // The id that stood alone goes with the next event; a field that comes again
    // replaces the first.
    let events = d.feed("data: y\n\r\n");
    assert_eq!(texts(&events), vec![r#"None/Some("y")/Some("8")"#]);
}

#[test]
fn how_a_stream_is_cut_makes_no_difference() {
    let stream = "event: endpoint\ndata: /m?ß\n\ndata: a\r\n\r\nid: 1\ndata: b\n\ndata: rest";
    let mut whole = SseDecoder::new();
    let expected = texts(&whole.feed(stream));
    assert_eq!(expected.len(), 3);
    let chars: Vec<char> = stream.chars().collect();
    for cut in 0..chars.len() {
        let a: String = chars[..cut].iter().collect();
        let b: String = chars[cut..].iter().collect();
        let mut d = SseDecoder::new();
        let mut got = texts(&d.feed(&a));
        got.extend(texts(&d.feed(&b)));
        assert_eq!(got, expected);
    }
}

#[test]
fn bytes_of_a_stream_have_to_be_text() {
    let mut d = SseDecoder::new();
    let events = d.feed_bytes("data: ß\n\n".as_bytes()).unwrap();
    assert_eq!(texts(&events), vec![r#"None/Some("ß")/None"#]);
    assert_eq!(d.feed_bytes(&[0xff]).err(), Some(ProxyError::NotText));
    assert_eq!(
        d.feed_bytes(&"ß".as_bytes()[..1]).err(),
        Some(ProxyError::NotText)
    );
    // What was refused has left no trace.
    assert_eq!(d.feed_bytes(b"data: ok\n\n").unwrap().len(), 1);
}

/// The response that a text holds.
fn response(text: &str) -> Option<JsonRpcMessage> {
    let j = json(text);
    Some(JsonRpcMessage::Response(JsonRpcResponse {
        jsonrpc: "2.0".to_string(),
        id: j.get("id").cloned().unwrap(),
        result: j.get("result").cloned(),
        error: None,
    }))
}

/// A rule that strikes out keys.
fn key_rule() -> PolicyRule {
    PolicyRule {
        pattern: Some("sk-[a-z]+".to_string()),
        replacement: Some("[REDACTED]".to_string()),
        ..rule("keys", "*", RuleAction::Redact, None)
    }
}

#[test]
fn secrets_do_not_come_back_over_the_network() {
    let mut g = gateway(vec![key_rule()]);
    let called = g.request(&message(BASH)).action;
    let body = r#"{"id":1, "jsonrpc":"2.0","result":{"k":"sk-abc"}}"#;
    assert_eq!(
        g.answer(&called, &response(body), body),
        r#"{"jsonrpc":"2.0","id":1,"result":{"k":"[REDACTED]"}}"#
    );
    // What holds no secret, and what is no response, comes as it came.
    let plain = r#"{"id":1, "jsonrpc":"2.0","result":{"k":"v"}}"#;
    assert_eq!(g.answer(&called, &response(plain), plain), plain);
    assert_eq!(g.answer(&called, &None, "sk-abc"), "sk-abc");
    assert_eq!(g.answer(&called, &message(BASH), BASH), BASH);
    assert_eq!(gateway(vec![]).answer(&called, &response(body), body), body);
    // So does the answer to a request that calls no tool.
    let passed = g.request(&message(r#"{"id":1,"method":"tools/list"}"#)).action;
    assert!(matches!(passed, RequestAction::Pass));
    assert_eq!(g.answer(&passed, &response(body), body), body);
}

#[test]
fn secrets_do_not_come_back_in_events() {
    let mut p = SseProxy::new(
        &entry(Some("http://h/sse"), None),
        &vars(),
        gateway(vec![key_rule()]),
    )
    .ok()
    .unwrap();
    let event = |data: Option<&str>| ParsedSseEvent {
        event_type: Some("message".to_string()),
        data: data.map(str::to_string),
        id: Some("7".to_string()),
    };
    let body = r#"{"jsonrpc":"2.0","id":1,"result":"sk-abc"}"#;
    // Nobody has called yet.
    let out = p.deliver(event(Some(body)), &response(body));
    assert_eq!(out.data.as_deref(), Some(body));
    let step = p.request(&message(BASH));
    assert!(matches!(step.action, RequestAction::Call { .. }));
    p.request(&message(r#"{"id":2,"method":"resources/read"}"#));
    let other = r#"{"jsonrpc":"2.0","id":2,"result":"sk-abc"}"#;
    let out = p.deliver(event(Some(other)), &response(other));
    assert_eq!(out.data.as_deref(), Some(other));
    let out = p.deliver(event(Some(body)), &response(body));
    assert_eq!(
        out.data.as_deref(),
        Some(r#"{"jsonrpc":"2.0","id":1,"result":"[REDACTED]"}"#)
    );
    assert_eq!(out.event_type.as_deref(), Some("message"));
    assert_eq!(out.id.as_deref(), Some("7"));
    // The call has its response.
    let out = p.deliver(event(Some(body)), &response(body));
    assert_eq!(out.data.as_deref(), Some(body));
    assert_eq!(p.deliver(event(None), &None).data, None);
    assert_eq!(p.deliver(event(Some("/x")), &None).data.as_deref(), Some("/x"));
}

#[test]
fn where_requests_go() {
    assert_eq!(derive_message_endpoint("http://h/sse"), "http://h/message");
    assert_eq!(derive_message_endpoint("http://h"), "http://h/message");
    assert_eq!(derive_message_endpoint("/sse"), "/message");
    assert_eq!(base_url("http://h/a/sse"), "http://h/a");
    assert_eq!(base_url("plain"), "plain");
    assert_eq!(base_url("/x"), "");
    let mut p = SseProxy::new(&entry(Some("http://h/sse"), None), &vars(), gateway(vec![]))
        .ok()
        .unwrap();
    assert_eq!(p.bind_port, 7072);
    assert_eq!(p.message_endpoint, "http://h/message");
    assert_eq!(p.upstream_sse_url, "http://h/sse");
    let event = |t: Option<&str>, d: Option<&str>| ParsedSseEvent {
        event_type: t.map(str::to_string),
        data: d.map(str::to_string),
        id: None,
    };
    p.take_event(&event(Some("message"), Some("/other")));
    assert_eq!(p.message_endpoint, "http://h/message");
    p.take_event(&event(Some("endpoint"), None));
    assert_eq!(p.message_endpoint, "http://h/message");
    p.take_event(&event(Some("endpoint"), Some("/messages?id=1")));
    assert_eq!(p.message_endpoint, "http://h/messages?id=1");
    assert_eq!(
        endpoint_in(&event(Some("endpoint"), Some("/x")), "http://h/sse").as_deref(),
        Some("http://h/x")
    );
    assert_eq!(endpoint_in(&event(None, Some("/x")), "http://h/sse"), None);
}

#[test]
fn records_of_the_event_gateway() {
    let p = SseProxy::new(&entry(Some("http://h/sse"), Some(9)), &vars(), gateway(vec![]))
        .ok()
        .unwrap();
    assert_eq!(p.bind_port, 9);
    let r = p.finished("t", Some(json("[]")), 200);
    assert_eq!(r.status, InvocationStatus::Allowed);
    assert_eq!(r.latency_ms, None);
    assert_eq!(r.arguments.unwrap().to_text(), "[]");
    let r = make_invocation_record("t", "srv", 2_999_999, Some(json("1")), true);
    assert_eq!(r.latency_ms, Some(2));
    assert_eq!(r.status, InvocationStatus::Error);
    assert_eq!(r.server_name, "srv");
    assert!(r.arguments.is_none());
    assert_eq!(r.result.unwrap().to_text(), "1");
}
