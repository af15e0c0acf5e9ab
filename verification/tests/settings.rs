use agentgate::cli::{
    apply_flags, config_path, doctor, file_name, init_line, parse_header, parse_headers,
    parse_transport, server_command, table_row, CliError, Findings, Flags, PolicyFinding,
};
use agentgate::clock::Timestamp;
use agentgate::config::{
    agentgate_dir, dashboard_port, expand_env_vars, expand_home, join_path, AgentGateConfig, CircuitBreakerConfig,
    CircuitBreakerFile, ConfigFile, LogFormat, RateLimitConfig, RateLimitsFile, TransportKind,
};
use agentgate::storage::{InvocationRecord, InvocationStatus};

fn vars() -> Vec<(String, String)> {
    vec![
        ("HOME".to_string(), "/home/joe".to_string()),
        ("EMPTY".to_string(), String::new()),
        ("HOME".to_string(), "later".to_string()),
        ("a${b".to_string(), "odd".to_string()),
    ]
}

#[test]
fn variables_are_put_in() {
    let x = |s: &str| expand_env_vars(s, &vars());
    assert_eq!(x("Bearer ${HOME}!"), "Bearer /home/joe!");
    assert_eq!(x("${HOME}${EMPTY}${HOME}"), "/home/joe/home/joe");
    assert_eq!(x("${a${b}"), "odd");
}

#[test]
fn variables_without_a_value_stay() {
    let x = |s: &str| expand_env_vars(s, &vars());
    for s in [
        "", "plain", "${NOPE}", "$HOME", "${}", "${", "${HOME", "$", "}", "{HOME}", "$${}",
        "${\n}", "ß${ß}",
    ] {
        assert_eq!(x(s), s);
    }
}

#[test]
fn paths_are_joined() {
    assert_eq!(join_path("/a", "b", '/'), "/a/b");
    assert_eq!(join_path("/a/", "b", '/'), "/a/b");
    assert_eq!(join_path("", "b", '/'), "b");
    assert_eq!(agentgate_dir(Some("/home/joe"), '/'), "/home/joe/.agentgate");
    assert_eq!(agentgate_dir(None, '/'), "/tmp/.agentgate");
    assert_eq!(expand_home("~/x", Some("/h"), '/'), "/h/x");
    assert_eq!(expand_home("~/x", None, '/'), "~/x");
    assert_eq!(expand_home("~joe/x", Some("/h"), '/'), "~joe/x");
    assert_eq!(expand_home("/x", Some("/h"), '/'), "/x");
}

fn empty_file() -> ConfigFile {
    ConfigFile {
        log_level: None,
        log_format: None,
        db_path: None,
        server_name: None,
        policy_path: None,
        rate_limits: RateLimitsFile {
            global_max_calls_per_minute: None,
            per_tool_max_calls_per_minute: None,
            per_agent_max_calls_per_minute: None,
        },
        circuit_breaker: CircuitBreakerFile {
            error_threshold: None,
            window_seconds: None,
            cooldown_seconds: None,
        },
        servers: vec![],
        metrics_port: None,
        dashboard_port: None,
    }
}

#[test]
fn settings_that_a_file_leaves_out_have_defaults() {
    let c = AgentGateConfig::from_file(empty_file(), Some("/h"), '/');
    assert_eq!(c.log_level, "info");
    assert_eq!(c.log_format, LogFormat::Pretty);
    assert_eq!(c.db_path, "/h/.agentgate/logs.db");
    assert_eq!(c.server_name, "unknown");
    assert_eq!(c.policy_path, None);
    assert_eq!(c.rate_limits, RateLimitConfig::default());
    assert_eq!(c.circuit_breaker, CircuitBreakerConfig::default());
    assert!(c.servers.is_empty());
    assert_eq!((c.metrics_port, c.dashboard_port), (None, None));
    assert_eq!(dashboard_port(&c), 7070);
}

#[test]
fn settings_of_a_file_count() {
    let c = AgentGateConfig::from_file(
        ConfigFile {
            log_level: Some("debug".to_string()),
            log_format: Some(LogFormat::Json),
            db_path: Some("~/.agentgate/logs.db".to_string()),
            server_name: Some("fs".to_string()),
            policy_path: Some("p.toml".to_string()),
            metrics_port: Some(9090),
            dashboard_port: Some(7070),
            rate_limits: RateLimitsFile {
                global_max_calls_per_minute: Some(60),
                per_tool_max_calls_per_minute: None,
                per_agent_max_calls_per_minute: Some(7),
            },
            circuit_breaker: CircuitBreakerFile {
                error_threshold: Some(4),
                window_seconds: None,
                cooldown_seconds: Some(30),
            },
            ..empty_file()
        },
        Some("/h"),
        '/',
    );
    assert_eq!(c.log_level, "debug");
    assert_eq!(c.log_format, LogFormat::Json);
    assert_eq!(c.db_path, "/h/.agentgate/logs.db");
    assert_eq!(c.server_name, "fs");
    assert_eq!(c.policy_path.as_deref(), Some("p.toml"));
    assert_eq!((c.metrics_port, c.dashboard_port), (Some(9090), Some(7070)));
    assert_eq!(
        c.rate_limits,
        RateLimitConfig {
            global_max_calls_per_minute: 60,
            per_tool_max_calls_per_minute: 100,
            per_agent_max_calls_per_minute: 7,
        }
    );
    assert_eq!(
        c.circuit_breaker,
        CircuitBreakerConfig {
            error_threshold: 4,
            window_seconds: 30,
            cooldown_seconds: 30,
        }
    );
}

#[test]
fn flags_override_the_file() {
    let file = || {
        AgentGateConfig::from_file(
            ConfigFile {
                db_path: Some("/file.db".to_string()),
                policy_path: Some("file.toml".to_string()),
                metrics_port: Some(1),
                dashboard_port: Some(2),
                ..empty_file()
            },
            None,
            '/',
        )
    };
    let c = apply_flags(
        file(),
        Flags {
            db: Some("/flag.db".to_string()),
            policy: Some("flag.toml".to_string()),
            metrics_port: Some(3),
            dashboard_port: Some(4),
        },
    );
    assert_eq!(c.db_path, "/flag.db");
    assert_eq!(c.policy_path.as_deref(), Some("flag.toml"));
    assert_eq!((c.metrics_port, c.dashboard_port), (Some(3), Some(4)));
    assert_eq!(dashboard_port(&c), 4);
    let c = apply_flags(
        file(),
        Flags {
            db: None,
            policy: None,
            metrics_port: None,
            dashboard_port: None,
        },
    );
    assert_eq!(c.db_path, "/file.db");
    assert_eq!(c.policy_path.as_deref(), Some("file.toml"));
    assert_eq!((c.metrics_port, c.dashboard_port), (Some(1), Some(2)));
}

#[test]
fn transports_have_names() {
    assert_eq!(parse_transport("sse").unwrap(), TransportKind::Sse);
    assert_eq!(parse_transport("http").unwrap(), TransportKind::Http);
    for name in ["stdio", "SSE", ""] {
        let e = parse_transport(name).unwrap_err();
        assert_eq!(
            e.message(),
            format!("Unknown transport '{name}'. Valid values: sse, http")
        );
    }
    assert_eq!(
        CliError::StdioTransport.message(),
        "Use `agentgate wrap` for stdio transport"
    );
}

#[test]
fn headers_are_read() {
    assert_eq!(
        parse_header(" X-Key :\u{a0} a: b \t").unwrap(),
        ("X-Key".to_string(), "a: b".to_string())
    );
    assert_eq!(
        parse_header(":").unwrap(),
        (String::new(), String::new())
    );
    let e = parse_header("no colon").unwrap_err();
    assert_eq!(
        e.message(),
        "Invalid header 'no colon'. Use Key: Value format"
    );
}

#[test]
fn of_headers_with_one_name_the_later_counts() {
    let texts = |v: &[&str]| -> Vec<String> { v.iter().map(|s| s.to_string()).collect() };
    assert_eq!(
        parse_headers(&texts(&["a: 1", "b: 2", "a: 3"])).unwrap(),
        vec![
            ("a".to_string(), "3".to_string()),
            ("b".to_string(), "2".to_string())
        ]
    );
    assert!(parse_headers(&texts(&[])).unwrap().is_empty());
    assert!(matches!(
        parse_headers(&texts(&["a: 1", "bad", "worse"])),
        Err(CliError::InvalidHeader { header }) if header == "bad"
    ));
}

#[test]
fn names_of_files() {
    for path in [
        "", "/", ".", "..", "a/..", "./", "//", "/usr/bin/npx", "npx", "bin/", "bin/.", "a//b",
        "a/./b", "...", ".hidden", "a/b/../", "./x",
    ] {
        let expected = std::path::Path::new(path)
            .file_name()
            .and_then(|n| n.to_str())
            .map(str::to_string);
        assert_eq!(file_name(path, '/'), expected, "{path}");
        assert_eq!(file_name(path, '\\'), expected, "{path}");
    }
    // What a backslash or a colon means, the machine decides.
    for path in ["C:\\bin\\npx.exe", "a:b", "//h/s/x", "a\\..", "\\"] {
        let expected = std::path::Path::new(path)
            .file_name()
            .and_then(|n| n.to_str())
            .map(str::to_string);
        assert_eq!(file_name(path, std::path::MAIN_SEPARATOR), expected, "{path}");
    }
    assert_eq!(file_name("a:b/c:d", '/').as_deref(), Some("c:d"));
}

#[test]
fn paths_on_machines_that_go_by_backslashes() {
    assert_eq!(join_path("C:\\Users\\joe", "x", '\\'), "C:\\Users\\joe\\x");
    assert_eq!(join_path("C:\\", "x", '\\'), "C:\\x");
    assert_eq!(join_path("C:/", "x", '\\'), "C:/x");
    assert_eq!(join_path("C:", "x", '\\'), "C:x");
    assert_eq!(join_path("C:", "x", '/'), "C:/x");
    assert_eq!(join_path("a\\", "x", '/'), "a\\/x");
    assert_eq!(
        agentgate_dir(Some("C:\\Users\\joe"), '\\'),
        "C:\\Users\\joe\\.agentgate"
    );
}

#[test]
fn commands_name_their_servers() {
    let words = |v: &[&str]| -> Vec<String> { v.iter().map(|s| s.to_string()).collect() };
    let c = server_command(&words(&["/usr/bin/npx", "-y", "server"]), '/').unwrap();
    assert_eq!(c.program, "/usr/bin/npx");
    assert_eq!(c.args, words(&["-y", "server"]));
    assert_eq!(c.server_name, "npx");
    assert_eq!(server_command(&words(&[".."]), '/').unwrap().server_name, "..");
    let e = server_command(&words(&[]), '/').unwrap_err();
    assert!(matches!(e, CliError::NoCommand));
    assert_eq!(
        e.message(),
        "error: no command specified. Usage: agentgate wrap -- <cmd> [args...]"
    );
}

#[test]
fn where_settings_are_read_from() {
    assert_eq!(config_path(Some("/x.toml"), Some("/h"), '/'), "/x.toml");
    assert_eq!(config_path(None, Some("/h"), '/'), "/h/.agentgate/config.toml");
}

#[test]
fn rows_of_the_table() {
    let mut r = InvocationRecord {
        id: "x".to_string(),
        timestamp: Timestamp::new(1_775_206_872, 0).unwrap(),
        agent_id: None,
        session_id: None,
        server_name: "fs".to_string(),
        tool_name: "bash".to_string(),
        arguments: None,
        result: None,
        latency_ms: Some(1),
        status: InvocationStatus::Denied,
        policy_hit: Some("no-shell".to_string()),
    };
    let row = table_row(&r);
    assert_eq!(row.timestamp, "2026-04-03 09:01:12");
    assert_eq!(row.server_name, "fs");
    assert_eq!(row.tool_name, "bash");
    assert_eq!(row.status, "denied");
    assert_eq!(row.latency_ms, "1");
    assert_eq!(row.policy_hit, "no-shell");
    r.latency_ms = None;
    r.policy_hit = None;
    let row = table_row(&r);
    assert_eq!(row.latency_ms, "-");
    assert_eq!(row.policy_hit, "-");
}

fn findings() -> Findings {
    Findings {
        dir: "/d".to_string(),
        dir_ok: true,
        config_path: "/d/config.toml".to_string(),
        config_exists: true,
        config_valid: true,
        db_path: "/d/logs.db".to_string(),
        db_writable: true,
        dashboard_port: 7070,
        port_available: false,
        policy: None,
    }
}

#[test]
fn the_doctor_tells_what_is_wrong() {
    let r = doctor(&findings());
    assert!(r.passed);
    assert_eq!(
        r.lines,
        vec![
            "  [ok]  Config directory: /d".to_string(),
            "  [ok]  config.toml is valid TOML: /d/config.toml".to_string(),
            "  [ok]  DB path is writable: /d/logs.db".to_string(),
            "  [!!]  Dashboard port 7070 is available (or already in use by AgentGate)".to_string(),
        ]
    );
    let policy = |exists: bool, valid: bool| {
        Some(PolicyFinding {
            path: "/p".to_string(),
            exists,
            valid,
        })
    };
    let r = doctor(&Findings {
        config_exists: false,
        policy: policy(true, true),
        ..findings()
    });
    assert!(!r.passed);
    assert_eq!(
        r.lines[1],
        "  [!!]  config.toml not found (run `agentgate init`): /d/config.toml"
    );
    assert_eq!(r.lines[4], "  [ok]  Policy file is valid: /p");
    let r = doctor(&Findings {
        policy: policy(false, false),
        ..findings()
    });
    assert!(!r.passed);
    assert_eq!(r.lines[4], "  [!!]  Policy file not found: /p");
    let r = doctor(&Findings {
        policy: policy(true, false),
        ..findings()
    });
    assert!(!r.passed);
    assert_eq!(r.lines[4], "  [!!]  Policy file is valid: /p");
    for f in [
        Findings { dir_ok: false, ..findings() },
        Findings { config_valid: false, ..findings() },
        Findings { db_writable: false, ..findings() },
    ] {
        assert!(!doctor(&f).passed);
    }
}

#[test]
fn files_that_are_there_are_left_alone() {
    assert_eq!(init_line(true, "/x"), "  exists  /x");
    assert_eq!(init_line(false, "/x"), "  created /x");
}
