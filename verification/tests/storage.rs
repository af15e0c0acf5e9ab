use agentgate::clock::Timestamp;
use agentgate::dashboard::api::{
    db_err, error_answer, latest_count, not_found, page_query, policies_answer, put_next,
    InvocationQuery, PutAction, PutEvent, SparklinePoint,
};
use agentgate::dashboard::server::{
    admits_to_live, allowed_origins, asset_keys, authorize, content_type, not_built, AuthDecision,
};
use agentgate::dashboard::state::{generate_token, token_notice};
use agentgate::dashboard::ws::{live_next, LiveAction, LiveEvent};
use agentgate::json::Json;
use agentgate::storage::sqlite::{query_sql, record_to_row, row_to_record_at};
use agentgate::storage::{
    row_to_record, InvocationFilter, InvocationRecord, InvocationStatus, StoredRow,
};

fn json(text: &str) -> Json {
    Json::parse(text).unwrap()
}

fn record(arguments: Option<Json>, result: Option<Json>) -> InvocationRecord {
    InvocationRecord {
        id: "r1".to_string(),
        timestamp: Timestamp::new(1_775_206_872, 345_000_000).unwrap(),
        agent_id: Some("agent".to_string()),
        session_id: None,
        server_name: "fs".to_string(),
        tool_name: "read_file".to_string(),
        arguments,
        result,
        latency_ms: Some(9),
        status: InvocationStatus::RateLimited,
        policy_hit: Some("slow".to_string()),
    }
}

#[test]
fn statuses_have_names() {
    for (status, name) in [
        (InvocationStatus::Allowed, "allowed"),
        (InvocationStatus::Denied, "denied"),
        (InvocationStatus::Error, "error"),
        (InvocationStatus::RateLimited, "rate_limited"),
    ] {
        assert_eq!(status.as_str(), name);
        assert_eq!(InvocationStatus::parse(name), Some(status));
    }
    assert_eq!(InvocationStatus::parse("Allowed"), None);
    assert_eq!(InvocationStatus::parse(""), None);
}

#[test]
fn a_record_is_told_again_from_its_row() {
    let r = record(Some(json(r#"{"path":"/a"}"#)), Some(json(r#"[1,"x",null]"#)));
    let row = record_to_row(&r);
    assert_eq!(row.timestamp, "2026-04-03T09:01:12.345+00:00");
    assert_eq!(row.status, "rate_limited");
    assert_eq!(row.arguments.as_deref(), Some(r#"{"path":"/a"}"#));
    let back = row_to_record(row);
    assert_eq!(back.id, r.id);
    assert_eq!(back.timestamp, r.timestamp);
    assert_eq!(back.agent_id, r.agent_id);
    assert_eq!(back.session_id, r.session_id);
    assert_eq!(back.server_name, r.server_name);
    assert_eq!(back.tool_name, r.tool_name);
    assert_eq!(back.latency_ms, r.latency_ms);
    assert_eq!(back.status, r.status);
    assert_eq!(back.policy_hit, r.policy_hit);
    assert!(back.arguments.unwrap().same(&r.arguments.clone().unwrap()));
    assert!(back.result.unwrap().same(&r.result.clone().unwrap()));
    let copy = r.clone();
    assert_eq!(copy.id, r.id);
}

#[test]
fn payloads_that_are_too_large_leave_a_note() {
    let fits = Json::from_text(&"x".repeat(65_534));
    assert_eq!(fits.to_text().len(), 65_536);
    let too_large = Json::from_text(&"x".repeat(65_535));
    let row = record_to_row(&record(Some(fits), Some(too_large)));
    assert_eq!(row.arguments.unwrap().len(), 65_536);
    assert_eq!(
        row.result.as_deref(),
        Some(r#"{"_truncated":true,"original_size_bytes":65537}"#)
    );
    // The size is counted in bytes, not in characters.
    let wide = Json::from_text(&"ß".repeat(40_000));
    let row = record_to_row(&record(None, Some(wide)));
    assert_eq!(
        row.result.as_deref(),
        Some(r#"{"_truncated":true,"original_size_bytes":80002}"#)
    );
    assert!(row.arguments.is_none());
}

#[test]
fn rows_that_make_no_sense_are_read_as_well_as_they_can_be() {
    let row = |timestamp: &str, payload: &str, status: &str| StoredRow {
        id: "x".to_string(),
        timestamp: timestamp.to_string(),
        agent_id: None,
        session_id: None,
        server_name: "s".to_string(),
        tool_name: "t".to_string(),
        arguments: Some(payload.to_string()),
        result: Some(payload.to_string()),
        latency_ms: None,
        status: status.to_string(),
        policy_hit: None,
    };
    let now = Timestamp::new(77, 0).unwrap();
    let r = row_to_record_at(row("long ago", "{broken", "weird"), now);
    assert_eq!(r.timestamp, now);
    assert!(r.arguments.is_none() && r.result.is_none());
    assert_eq!(r.status, InvocationStatus::Allowed);
    let r = row_to_record_at(row("1970-01-01T00:00:01Z", "2", "error"), now);
    assert_eq!(r.timestamp, Timestamp::new(1, 0).unwrap());
    assert_eq!(r.arguments.unwrap().to_text(), "2");
    assert_eq!(r.status, InvocationStatus::Error);
}

const SELECT: &str = "SELECT id, timestamp, agent_id, session_id, server_name, tool_name, arguments, result, latency_ms, status, policy_hit FROM tool_invocations";

#[test]
fn queries_for_logs() {
    let (sql, values) = query_sql(&InvocationFilter::default());
    assert_eq!(sql, format!("{SELECT} ORDER BY timestamp DESC LIMIT 50"));
    assert!(values.is_empty());
    let (sql, values) = query_sql(&InvocationFilter {
        tool: Some("t".to_string()),
        status: Some("denied".to_string()),
        limit: 200,
    });
    assert_eq!(
        sql,
        format!("{SELECT} WHERE tool_name = ? AND status = ? ORDER BY timestamp DESC LIMIT 200")
    );
    assert_eq!(values, vec!["t".to_string(), "denied".to_string()]);
    let (sql, values) = query_sql(&InvocationFilter {
        tool: None,
        status: Some("denied".to_string()),
        limit: 1,
    });
    assert_eq!(
        sql,
        format!("{SELECT} WHERE status = ? ORDER BY timestamp DESC LIMIT 1")
    );
    assert_eq!(values, vec!["denied".to_string()]);
}

#[test]
fn queries_run_on_the_database() {
    let conn = rusqlite::Connection::open_in_memory().unwrap();
    conn.execute_batch(
        "CREATE TABLE tool_invocations (id TEXT PRIMARY KEY, timestamp TEXT NOT NULL, agent_id TEXT, session_id TEXT, server_name TEXT NOT NULL, tool_name TEXT NOT NULL, arguments TEXT, result TEXT, latency_ms INTEGER, status TEXT NOT NULL, policy_hit TEXT);
         INSERT INTO tool_invocations VALUES ('1','2026-01-01T00:00:00+00:00',NULL,NULL,'s','a',NULL,NULL,NULL,'denied',NULL);
         INSERT INTO tool_invocations VALUES ('2','2026-01-02T00:00:00+00:00',NULL,NULL,'s','a',NULL,NULL,NULL,'denied',NULL);
         INSERT INTO tool_invocations VALUES ('3','2026-01-03T00:00:00+00:00',NULL,NULL,'s','b',NULL,NULL,NULL,'denied',NULL);",
    )
    .unwrap();
    let (sql, values) = query_sql(&InvocationFilter {
        tool: Some("a".to_string()),
        status: Some("denied".to_string()),
        limit: 10,
    });
    let mut stmt = conn.prepare(&sql).unwrap();
    let ids: Vec<String> = stmt
        .query_map([&values[0], &values[1]], |row| row.get(0))
        .unwrap()
        .map(|r| r.unwrap())
        .collect();
    assert_eq!(ids, vec!["2".to_string(), "1".to_string()]);
    let page = page_query(&InvocationQuery {
        limit: Some(1),
        offset: Some(1),
        tool: None,
        status: None,
    });
    let mut stmt = conn.prepare(&page.sql).unwrap();
    let ids: Vec<String> = stmt
        .query_map([page.limit, page.offset], |row| row.get(0))
        .unwrap()
        .map(|r| r.unwrap())
        .collect();
    assert_eq!(ids, vec!["2".to_string()]);
}

#[test]
fn pages_of_the_dashboard() {
    let q = |limit: Option<usize>, offset: Option<usize>| InvocationQuery {
        limit,
        offset,
        tool: Some("t".to_string()),
        status: None,
    };
    let p = page_query(&q(None, None));
    assert_eq!(
        p.sql,
        format!("{SELECT} WHERE tool_name = ? ORDER BY timestamp DESC LIMIT ? OFFSET ?")
    );
    assert_eq!(p.values, vec!["t".to_string()]);
    assert_eq!((p.limit, p.offset), (50, 0));
    let p = page_query(&q(Some(500), Some(20)));
    assert_eq!((p.limit, p.offset), (500, 20));
    assert_eq!(page_query(&q(Some(501), None)).limit, 500);
    assert_eq!(page_query(&q(Some(0), None)).limit, 0);
}

#[test]
fn the_latest_point_counts() {
    let point = |bucket: &str, count: i64| SparklinePoint {
        bucket: bucket.to_string(),
        count,
    };
    assert_eq!(latest_count(&vec![]), 0);
    assert_eq!(latest_count(&vec![point("a", 3), point("b", 8)]), 8);
}

#[test]
fn errors_of_the_dashboard() {
    let r = db_err();
    assert_eq!(
        (r.status, r.json, r.body.as_str()),
        (500, true, r#"{"error":"Internal server error"}"#)
    );
    let r = not_found();
    assert_eq!(
        (r.status, r.body.as_str()),
        (404, r#"{"error":"not found"}"#)
    );
    assert_eq!(error_answer(418, "\"").body, r#"{"error":"\""}"#);
}

#[test]
fn the_policy_file_is_shown() {
    let r = policies_answer(None);
    assert_eq!(
        (r.status, r.body.as_str()),
        (404, r#"{"error":"No policy file configured"}"#)
    );
    let r = policies_answer(Some(Ok("[[rules]]".to_string())));
    assert_eq!(
        (r.status, r.json, r.body.as_str()),
        (200, false, "[[rules]]")
    );
    let r = policies_answer(Some(Err("gone".to_string())));
    assert_eq!((r.status, r.body.as_str()), (500, r#"{"error":"gone"}"#));
}

fn answer(action: PutAction) -> (u16, String) {
    match action {
        PutAction::Answer { reply } => (reply.status, reply.body),
        other => panic!("{other:?}"),
    }
}

#[test]
fn a_new_policy_file_is_validated_written_and_loaded() {
    assert!(matches!(
        put_next(PutEvent::Sent { configured: true }),
        PutAction::Validate
    ));
    assert!(matches!(
        put_next(PutEvent::Validated { result: Ok(()) }),
        PutAction::Write
    ));
    assert!(matches!(
        put_next(PutEvent::Written {
            result: Ok(()),
            has_engine: true
        }),
        PutAction::Reload
    ));
    let ok = (200, r#"{"ok":true}"#.to_string());
    assert_eq!(answer(put_next(PutEvent::Reloaded { result: Ok(()) })), ok);
    assert_eq!(
        answer(put_next(PutEvent::Written {
            result: Ok(()),
            has_engine: false
        })),
        ok
    );
}

#[test]
fn what_fails_ends_the_way_of_a_new_policy_file() {
    let why = || Err("why".to_string());
    assert_eq!(
        answer(put_next(PutEvent::Sent { configured: false })),
        (
            404,
            r#"{"error":"No policy file configured — start AgentGate with --policy"}"#.to_string()
        )
    );
    assert_eq!(
        answer(put_next(PutEvent::Validated { result: why() })),
        (400, r#"{"error":"Invalid policy TOML: why"}"#.to_string())
    );
    assert_eq!(
        answer(put_next(PutEvent::Written {
            result: why(),
            has_engine: true
        })),
        (500, r#"{"error":"why"}"#.to_string())
    );
    assert_eq!(
        answer(put_next(PutEvent::Reloaded { result: why() })),
        (500, r#"{"error":"Policy reload failed: why"}"#.to_string())
    );
}

#[test]
fn the_dashboard_is_for_bearers_of_the_token() {
    let admitted = |path: &str, auth: Option<&str>| {
        matches!(authorize(path, auth, "tok"), AuthDecision::Admit)
    };
    for path in ["/health", "/metrics", "/api/ws/live"] {
        assert!(admitted(path, None));
    }
    for path in ["/", "/api/invocations", "/healthz", "/api/ws/live/"] {
        assert!(admitted(path, Some("Bearer tok")));
        assert!(!admitted(path, None));
        for auth in ["", "tok", "bearer tok", "Bearer to", "Bearer tok "] {
            assert!(!admitted(path, Some(auth)), "{auth}");
        }
    }
    match authorize("/", None, "tok") {
        AuthDecision::Refuse { reply } => {
            assert_eq!(reply.status, 401);
            assert_eq!(
                reply.body,
                r#"{"error":"Invalid or missing Authorization: Bearer token"}"#
            );
        }
        other => panic!("{other:?}"),
    }
    assert!(admits_to_live(Some("tok"), "tok"));
    assert!(!admits_to_live(Some("kot"), "tok"));
    assert!(!admits_to_live(None, "tok"));
}

#[test]
fn tokens_are_new_and_announced() {
    let a = generate_token();
    assert_eq!(a.len(), 36);
    assert_ne!(a, generate_token());
    assert_eq!(
        token_notice("t"),
        "[agentgate] Dashboard token: t\n[agentgate] Access the dashboard at http://127.0.0.1:7070 with:\n[agentgate]   Authorization: Bearer t"
    );
}

#[test]
fn files_of_the_dashboard() {
    assert_eq!(
        asset_keys("/activity/"),
        (
            "activity/".to_string(),
            "activity/index.html".to_string(),
            "index.html".to_string()
        )
    );
    assert_eq!(
        asset_keys("/"),
        (
            String::new(),
            "index.html".to_string(),
            "index.html".to_string()
        )
    );
    assert_eq!(content_type("index.html"), "text/html");
    assert_eq!(content_type("_next/app.js"), "text/javascript");
    assert_eq!(content_type("unknown"), "application/octet-stream");
    assert_eq!(not_built().status, 503);
    assert_eq!(
        allowed_origins(7070),
        (
            "http://localhost:7070".to_string(),
            "http://127.0.0.1:7070".to_string()
        )
    );
}

#[test]
fn the_live_stream_goes_on_until_someone_is_gone() {
    let next = |e: LiveEvent| live_next(e);
    match next(LiveEvent::Recorded {
        text: Some("x".to_string()),
    }) {
        LiveAction::Send { text } => assert_eq!(text, "x"),
        other => panic!("{other:?}"),
    }
    for e in [
        LiveEvent::Recorded { text: None },
        LiveEvent::Lagged,
        LiveEvent::Heard,
    ] {
        assert!(matches!(next(e), LiveAction::Wait));
    }
    for e in [LiveEvent::Closed, LiveEvent::Gone, LiveEvent::SendFailed] {
        assert!(matches!(next(e), LiveAction::Stop));
    }
}
