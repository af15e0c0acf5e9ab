//! Settings.
use vstd::prelude::*;

use crate::text::{after_prefix, begins_with, chars_of, joined, opt_text, text_between};

verus! {

/// How many calls may pass in a minute.
#[derive(Debug, Clone, Copy, PartialEq, Eq, Structural)]
pub struct RateLimitConfig {
    pub global_max_calls_per_minute: u64,
    pub per_tool_max_calls_per_minute: u64,
    pub per_agent_max_calls_per_minute: u64,
}

impl Default for RateLimitConfig {
    fn default() -> (c: RateLimitConfig)
        ensures
            c == (RateLimitConfig {
                global_max_calls_per_minute: 500,
                per_tool_max_calls_per_minute: 100,
                per_agent_max_calls_per_minute: 200,
            }),
    {
        RateLimitConfig {
            global_max_calls_per_minute: 500,
            per_tool_max_calls_per_minute: 100,
            per_agent_max_calls_per_minute: 200,
        }
    }
}

/// When a failing tool is cut off, and for how long.
#[derive(Debug, Clone, Copy, PartialEq, Eq, Structural)]
pub struct CircuitBreakerConfig {
    pub error_threshold: usize,
    pub window_seconds: u64,
    pub cooldown_seconds: u64,
}

impl Default for CircuitBreakerConfig {
    fn default() -> (c: CircuitBreakerConfig)
        ensures
            c == (CircuitBreakerConfig {
                error_threshold: 5,
                window_seconds: 30,
                cooldown_seconds: 60,
            }),
    {
        CircuitBreakerConfig { error_threshold: 5, window_seconds: 30, cooldown_seconds: 60 }
    }
}

/// How log lines look.
#[derive(Debug, Clone, Copy, PartialEq, Eq, Structural)]
pub enum LogFormat {
    Pretty,
    Json,
}

/// How a tool server is reached.
#[derive(Debug, Clone, Copy, PartialEq, Eq, Structural)]
pub enum TransportKind {
    Stdio,
    Sse,
    Http,
}

/// A tool server.
#[derive(Debug)]
pub struct ServerEntry {
    pub name: String,
    pub transport: TransportKind,
    /// For the stdio transport: the program to start.
    pub command: Option<String>,
    pub args: Vec<String>,
    /// For the SSE and HTTP transports: the address of the server.
    pub url: Option<String>,
    /// Headers for every request to the server, no name twice. A value may hold
    /// `${NAME}`, which stands for the value of a variable.
    pub headers: Vec<(String, String)>,
    /// For the SSE and HTTP transports: the local port.
    pub bind_port: Option<u16>,
}

/// The settings of the gateway.
#[derive(Debug)]
pub struct AgentGateConfig {
    pub log_level: String,
    pub log_format: LogFormat,
    pub db_path: String,
    pub server_name: String,
    pub policy_path: Option<String>,
    pub rate_limits: RateLimitConfig,
    pub circuit_breaker: CircuitBreakerConfig,
    pub servers: Vec<ServerEntry>,
    pub metrics_port: Option<u16>,
    pub dashboard_port: Option<u16>,
}

/// What a settings file says of rate limits.
#[derive(Debug, Clone, Copy, PartialEq, Eq, Structural)]
pub struct RateLimitsFile {
    pub global_max_calls_per_minute: Option<u64>,
    pub per_tool_max_calls_per_minute: Option<u64>,
    pub per_agent_max_calls_per_minute: Option<u64>,
}

/// What a settings file says of circuit breakers.
#[derive(Debug, Clone, Copy, PartialEq, Eq, Structural)]
pub struct CircuitBreakerFile {
    pub error_threshold: Option<usize>,
    pub window_seconds: Option<u64>,
    pub cooldown_seconds: Option<u64>,
}

/// The given value where there is one, else the other.
pub open spec fn given_or<T>(given: Option<T>, other: T) -> T {
    match given {
        Some(v) => v,
        None => other,
    }
}

/// What a settings file says; what it leaves out is absent.
#[derive(Debug)]
pub struct ConfigFile {
    pub log_level: Option<String>,
    pub log_format: Option<LogFormat>,
    pub db_path: Option<String>,
    pub server_name: Option<String>,
    pub policy_path: Option<String>,
    pub rate_limits: RateLimitsFile,
    pub circuit_breaker: CircuitBreakerFile,
    pub servers: Vec<ServerEntry>,
    pub metrics_port: Option<u16>,
    pub dashboard_port: Option<u16>,
}

/// A drive of a machine that goes by backslashes, and nothing else: `C:`.
pub open spec fn drive_alone(dir: Seq<char>) -> bool {
    dir.len() == 2 && ('a' <= dir[0] <= 'z' || 'A' <= dir[0] <= 'Z') && dir[1] == ':'
}

/// The path of something in a directory, on a machine that puts `separator` between
/// the two: none is put where the directory is empty, ends in a slash or in one, or
/// is a drive of a machine that goes by backslashes.
pub open spec fn path_in(dir: Seq<char>, name: Seq<char>, separator: char) -> Seq<char> {
    if dir.len() == 0 || dir.last() == '/' || dir.last() == separator || (separator == '\\'
        && drive_alone(dir)) {
        dir + name
    } else {
        dir + seq![separator] + name
    }
}

/// The path of something in a directory, on a machine that puts `separator` between
/// the two.
pub fn join_path(dir: &str, name: &str, separator: char) -> (path: String)
    ensures
        path@ == path_in(dir@, name@, separator),
{
    let chars = chars_of(dir);
    let len = chars.len();
    let drive = separator == '\\' && len == 2 && (('a' <= chars[0] && chars[0] <= 'z') || ('A'
        <= chars[0] && chars[0] <= 'Z')) && chars[1] == ':';
    if len == 0 || chars[len - 1] == '/' || chars[len - 1] == separator || drive {
        joined(dir, name)
    } else {
        let mut path = dir.to_owned();
        path.push(separator);
        path.append(name);
        assert(path@ =~= dir@ + seq![separator] + name@);
        path
    }
}

/// The directory of the gateway's own files, for a home directory; `/tmp` stands
/// in for one that is not known.
pub open spec fn own_dir(home: Option<Seq<char>>, separator: char) -> Seq<char> {
    path_in(
        match home {
            Some(h) => h,
            None => "/tmp"@,
        },
        ".agentgate"@,
        separator,
    )
}

/// What an optional borrowed text says.
pub open spec fn opt_str(s: Option<&str>) -> Option<Seq<char>> {
    match s {
        Some(s) => Some(s@),
        None => None,
    }
}

/// The directory of the gateway's own files.
pub fn agentgate_dir(home: Option<&str>, separator: char) -> (dir: String)
    ensures
        dir@ == own_dir(opt_str(home), separator),
{
    match home {
        Some(h) => join_path(h, ".agentgate", separator),
        None => join_path("/tmp", ".agentgate", separator),
    }
}

/// A path in which a leading `~/` stands for the home directory.
pub open spec fn path_from_home(
    path: Seq<char>,
    home: Option<Seq<char>>,
    separator: char,
) -> Seq<char> {
    match home {
        Some(h) => if begins_with(path, "~/"@) {
            path_in(h, path.skip(2), separator)
        } else {
            path
        },
        None => path,
    }
}

/// Puts the home directory for a leading `~/`.
pub fn expand_home(path: &str, home: Option<&str>, separator: char) -> (r: String)
    ensures
        r@ == path_from_home(path@, opt_str(home), separator),
{
    proof {
        reveal_strlit("~/");
    }
    match (home, after_prefix(path, "~/")) {
        (Some(h), Some(rest)) => join_path(h, rest.as_str(), separator),
        _ => path.to_owned(),
    }
}

/// The port of the dashboard: 7070 where none is given.
pub fn dashboard_port(c: &AgentGateConfig) -> (p: u16)
    ensures
        p == given_or(c.dashboard_port, 7070),
{
    match c.dashboard_port {
        Some(p) => p,
        None => 7070,
    }
}

impl AgentGateConfig {
    /// The settings where none are given.
    pub fn default_for(home: Option<&str>, separator: char) -> (c: AgentGateConfig)
        ensures
            c.log_level@ == "info"@,
            c.log_format == LogFormat::Pretty,
            c.db_path@ == path_in(own_dir(opt_str(home), separator), "logs.db"@, separator),
            c.server_name@ == "unknown"@,
            c.policy_path is None,
            c.rate_limits == (RateLimitConfig {
                global_max_calls_per_minute: 500,
                per_tool_max_calls_per_minute: 100,
                per_agent_max_calls_per_minute: 200,
            }),
            c.circuit_breaker == (CircuitBreakerConfig {
                error_threshold: 5,
                window_seconds: 30,
                cooldown_seconds: 60,
            }),
            c.servers@.len() == 0,
            c.metrics_port is None,
            c.dashboard_port is None,
    {
        AgentGateConfig {
            log_level: "info".to_owned(),
            log_format: LogFormat::Pretty,
            db_path: join_path(agentgate_dir(home, separator).as_str(), "logs.db", separator),
            server_name: "unknown".to_owned(),
            policy_path: None,
            rate_limits: RateLimitConfig::default(),
            circuit_breaker: CircuitBreakerConfig::default(),
            servers: Vec::new(),
            metrics_port: None,
            dashboard_port: None,
        }
    }

    /// The settings that a file gives, and for those that it leaves out what holds
    /// where none are given.
    pub fn from_file(file: ConfigFile, home: Option<&str>, separator: char) -> (c:
        AgentGateConfig)
        ensures
            c.log_level@ == (match opt_text(file.log_level) {
                Some(s) => s,
                None => "info"@,
            }),
            c.log_format == (match file.log_format {
                Some(f) => f,
                None => LogFormat::Pretty,
            }),
            c.db_path@ == (match opt_text(file.db_path) {
                Some(s) => path_from_home(s, opt_str(home), separator),
                None => path_in(own_dir(opt_str(home), separator), "logs.db"@, separator),
            }),
            c.server_name@ == (match opt_text(file.server_name) {
                Some(s) => s,
                None => "unknown"@,
            }),
            opt_text(c.policy_path) == (match opt_text(file.policy_path) {
                Some(s) => Some(path_from_home(s, opt_str(home), separator)),
                None => None,
            }),
            c.rate_limits == (RateLimitConfig {
                global_max_calls_per_minute: given_or(
                    file.rate_limits.global_max_calls_per_minute,
                    500,
                ),
                per_tool_max_calls_per_minute: given_or(
                    file.rate_limits.per_tool_max_calls_per_minute,
                    100,
                ),
                per_agent_max_calls_per_minute: given_or(
                    file.rate_limits.per_agent_max_calls_per_minute,
                    200,
                ),
            }),
            c.circuit_breaker == (CircuitBreakerConfig {
                error_threshold: given_or(file.circuit_breaker.error_threshold, 5),
                window_seconds: given_or(file.circuit_breaker.window_seconds, 30),
                cooldown_seconds: given_or(file.circuit_breaker.cooldown_seconds, 60),
            }),
            c.servers == file.servers,
            c.metrics_port == file.metrics_port,
            c.dashboard_port == file.dashboard_port,
    {
        let base = AgentGateConfig::default_for(home, separator);
        AgentGateConfig {
            log_level: match file.log_level {
                Some(s) => s,
                None => base.log_level,
            },
            log_format: match file.log_format {
                Some(f) => f,
                None => base.log_format,
            },
            db_path: match file.db_path {
                Some(s) => expand_home(s.as_str(), home, separator),
                None => base.db_path,
            },
            server_name: match file.server_name {
                Some(s) => s,
                None => base.server_name,
            },
            policy_path: match file.policy_path {
                Some(s) => Some(expand_home(s.as_str(), home, separator)),
                None => None,
            },
            rate_limits: RateLimitConfig {
                global_max_calls_per_minute: match file.rate_limits.global_max_calls_per_minute {
                    Some(n) => n,
                    None => base.rate_limits.global_max_calls_per_minute,
                },
                per_tool_max_calls_per_minute: match file.rate_limits.per_tool_max_calls_per_minute {
                    Some(n) => n,
                    None => base.rate_limits.per_tool_max_calls_per_minute,
                },
                per_agent_max_calls_per_minute: match file.rate_limits.per_agent_max_calls_per_minute {
                    Some(n) => n,
                    None => base.rate_limits.per_agent_max_calls_per_minute,
                },
            },
            circuit_breaker: CircuitBreakerConfig {
                error_threshold: match file.circuit_breaker.error_threshold {
                    Some(n) => n,
                    None => base.circuit_breaker.error_threshold,
                },
                window_seconds: match file.circuit_breaker.window_seconds {
                    Some(n) => n,
                    None => base.circuit_breaker.window_seconds,
                },
                cooldown_seconds: match file.circuit_breaker.cooldown_seconds {
                    Some(n) => n,
                    None => base.circuit_breaker.cooldown_seconds,
                },
            },
            servers: file.servers,
            metrics_port: file.metrics_port,
            dashboard_port: file.dashboard_port,
        }
    }
}

/// Where the next closing brace stands, or the end of the text.
pub open spec fn brace_at(s: Seq<char>, i: int) -> int
    decreases s.len() - i,
{
    if i < 0 || i >= s.len() || s[i] == '}' {
        i
    } else {
        brace_at(s, i + 1)
    }
}

/// A placeholder `${NAME}` begins at `i`: the name is not empty and holds no
/// closing brace.
pub open spec fn placeholder_at(s: Seq<char>, i: int) -> bool {
    &&& 0 <= i < s.len() - 2
    &&& s[i] == '$'
    &&& s[i + 1] == '{'
    &&& i + 2 < brace_at(s, i + 2) < s.len()
}

/// The value of the first variable of that name.
pub open spec fn value_of(vars: Seq<(String, String)>, name: Seq<char>) -> Option<Seq<char>>
    decreases vars.len(),
{
    if vars.len() == 0 {
        None
    } else if vars[0].0@ == name {
        Some(vars[0].1@)
    } else {
        value_of(vars.skip(1), name)
    }
}

/// The text from `i` on with its placeholders replaced by the values of the
/// variables that they name, those without a value left as they are.
pub open spec fn expanded(s: Seq<char>, i: int, vars: Seq<(String, String)>) -> Seq<char>
    decreases s.len() - i,
{
    if i < 0 || i >= s.len() {
        Seq::empty()
    } else if placeholder_at(s, i) {
        let end = brace_at(s, i + 2);
        (match value_of(vars, s.subrange(i + 2, end)) {
            Some(v) => v,
            None => s.subrange(i, end + 1),
        }) + expanded(s, end + 1, vars)
    } else {
        seq![s[i]] + expanded(s, i + 1, vars)
    }
}

/// The value of a variable.
fn lookup(vars: &Vec<(String, String)>, name: &str) -> (v: Option<String>)
    ensures
        opt_text(v) == value_of(vars@, name@),
{
    let mut i: usize = 0;
    assert(vars@.skip(0) =~= vars@);
    while i < vars.len()
        invariant
            i <= vars@.len(),
            value_of(vars@, name@) == value_of(vars@.skip(i as int), name@),
        decreases vars@.len() - i,
    {
        assert(vars@.skip(i as int)[0] == vars@[i as int]);
        assert(vars@.skip(i as int).skip(1) =~= vars@.skip(i + 1));
        if *vars[i].0.as_str() == *name {
            return Some(vars[i].1.clone());
        }
        i += 1;
    }
    None
}

/// Replaces the placeholders `${NAME}` in a text by the values of variables.
/// Where there is no variable of the name, the placeholder stays.
pub fn expand_env_vars(s: &str, vars: &Vec<(String, String)>) -> (out: String)
    ensures
        out@ == expanded(s@, 0, vars@),
{
    let chars = chars_of(s);
    let len = chars.len();
    let mut out = String::new();
    let mut i: usize = 0;
    while i < len
        invariant
            i <= len,
            len == chars@.len(),
            chars@ == s@,
            out@ + expanded(s@, i as int, vars@) == expanded(s@, 0, vars@),
        decreases len - i,
    {
        let ghost done = out@;
        let mut next: usize = i + 1;
        let mut found = false;
        if chars[i] == '$' && len - i > 2 && chars[i + 1] == '{' {
            let mut end: usize = i + 2;
            while end < len && chars[end] != '}'
                invariant
                    i + 2 <= end <= len,
                    len == chars@.len(),
                    chars@ == s@,
                    brace_at(s@, i + 2) == brace_at(s@, end as int),
                decreases len - end,
            {
                end += 1;
            }
            if end < len && end > i + 2 {
                let name = text_between(&chars, i + 2, end);
                match lookup(vars, name.as_str()) {
                    Some(v) => out.append(v.as_str()),
                    None => out.append(text_between(&chars, i, end + 1).as_str()),
                }
                next = end + 1;
                found = true;
            }
        }
        if !found {
            out.push(chars[i]);
            assert(out@ =~= done + seq![s@[i as int]]);
        }
        assert(out@ + expanded(s@, next as int, vars@) =~= done + expanded(s@, i as int, vars@));
        i = next;
    }
    assert(expanded(s@, i as int, vars@) =~= Seq::empty());
    assert(out@ =~= expanded(s@, 0, vars@));
    out
}

/// A text whose placeholders all name variables without a value stays as it is.
pub proof fn law_placeholders_without_a_value_stay(s: Seq<char>, vars: Seq<(String, String)>)
    requires
        forall|i: int|
            placeholder_at(s, i) ==> value_of(
                vars,
                #[trigger] s.subrange(i + 2, brace_at(s, i + 2)),
            ) is None,
    ensures
        expanded(s, 0, vars) == s,
{
    lemma_unexpanded(s, 0, vars);
    assert(s.skip(0) =~= s);
}

proof fn lemma_unexpanded(s: Seq<char>, i: int, vars: Seq<(String, String)>)
    requires
        0 <= i <= s.len(),
        forall|i: int|
            placeholder_at(s, i) ==> value_of(
                vars,
                #[trigger] s.subrange(i + 2, brace_at(s, i + 2)),
            ) is None,
    ensures
        expanded(s, i, vars) == s.skip(i),
    decreases s.len() - i,
{
    if i < s.len() {
        if placeholder_at(s, i) {
            let end = brace_at(s, i + 2);
            assert(value_of(vars, s.subrange(i + 2, brace_at(s, i + 2))) is None);
            lemma_unexpanded(s, end + 1, vars);
            assert(s.subrange(i, end + 1) + s.skip(end + 1) =~= s.skip(i));
        } else {
            lemma_unexpanded(s, i + 1, vars);
            assert(seq![s[i]] + s.skip(i + 1) =~= s.skip(i));
        }
    } else {
        assert(s.skip(i) =~= Seq::empty());
    }
}

/// A path and a name are joined by one separator: none is put where the path is empty
/// or ends in one already.
pub proof fn law_paths_are_joined_by_one_separator(
    dir: Seq<char>,
    name: Seq<char>,
    separator: char,
)
    ensures
        path_in(Seq::empty(), name, separator) == name,
        path_in(dir + seq![separator], name, separator) == dir + seq![separator] + name,
        path_in(dir + seq!['/'], name, separator) == dir + seq!['/'] + name,
        dir.len() > 0 && dir.last() != '/' && separator == '/' ==> path_in(dir, name, '/') == dir
            + seq!['/'] + name,
        dir.len() > 2 && dir.last() != '/' && dir.last() != '\\' ==> path_in(dir, name, '\\')
            == dir + seq!['\\'] + name,
        path_in("C:"@, name, '\\') == "C:"@ + name,
{
    reveal_strlit("C:");
    assert(Seq::<char>::empty() + name =~= name);
    assert((dir + seq![separator]).last() == separator);
    assert((dir + seq!['/']).last() == '/');
}

/// A leading `~/` stands for the home directory, where that is known; any other path
/// stays as it is. The gateway's own directory is `.agentgate` at home, or in `/tmp`
/// where there is no home.
pub proof fn law_tilde_stands_for_home(
    rest: Seq<char>,
    path: Seq<char>,
    home: Seq<char>,
    separator: char,
)
    ensures
        path_from_home("~/"@ + rest, Some(home), separator) == path_in(home, rest, separator),
        path_from_home(path, None, separator) == path,
        !("~/"@.is_prefix_of(path)) ==> path_from_home(path, Some(home), separator) == path,
        own_dir(Some(home), separator) == path_in(home, ".agentgate"@, separator),
        own_dir(None, separator) == path_in("/tmp"@, ".agentgate"@, separator),
{
    reveal_strlit("~/");
    let all = "~/"@ + rest;
    assert(all.take(2) =~= "~/"@);
    assert(all.skip(2) =~= rest);
}

/// What is given counts, and the other value only where nothing is given.
pub proof fn law_given_values_count<T>(value: T, other: T)
    ensures
        given_or(Some(value), other) == value,
        given_or(None, other) == other,
{
}

/// The value of a name is that of the first variable of that name, and there is none
/// where no variable has it.
pub proof fn law_first_variable_counts(vars: Seq<(String, String)>, name: Seq<char>)
    ensures
        forall|k: int|
            0 <= k < vars.len() && (#[trigger] vars[k]).0@ == name && (forall|i: int|
                0 <= i < k ==> (#[trigger] vars[i]).0@ != name) ==> value_of(vars, name) == Some(
                vars[k].1@,
            ),
        (forall|i: int| 0 <= i < vars.len() ==> (#[trigger] vars[i]).0@ != name) ==> value_of(
            vars,
            name,
        ) is None,
    decreases vars.len(),
{
    if vars.len() > 0 {
        let rest = vars.skip(1);
        law_first_variable_counts(rest, name);
        assert forall|k: int|
            0 <= k < vars.len() && (#[trigger] vars[k]).0@ == name && (forall|i: int|
                0 <= i < k ==> (#[trigger] vars[i]).0@ != name) implies value_of(vars, name)
            == Some(vars[k].1@) by {
            if k > 0 {
                assert(rest[k - 1] == vars[k]);
                assert forall|i: int| 0 <= i < k - 1 implies (#[trigger] rest[i]).0@ != name by {
                    assert(rest[i] == vars[i + 1]);
                }
                assert(vars[0].0@ != name);
            }
        }
        if forall|i: int| 0 <= i < vars.len() ==> (#[trigger] vars[i]).0@ != name {
            assert forall|i: int| 0 <= i < rest.len() implies (#[trigger] rest[i]).0@ != name by {
                assert(rest[i] == vars[i + 1]);
            }
            assert(vars[0].0@ != name);
        }
    }
}

proof fn lemma_brace_shifts(a: Seq<char>, b: Seq<char>, i: int)
    requires
        0 <= i <= b.len(),
    ensures
        brace_at(a + b, a.len() + i) == a.len() + brace_at(b, i),
    decreases b.len() - i,
{
    if i < b.len() {
        assert((a + b)[a.len() + i] == b[i]);
        if b[i] != '}' {
            lemma_brace_shifts(a, b, i + 1);
        }
    }
}

proof fn lemma_brace_found(s: Seq<char>, i: int, end: int)
    requires
        0 <= i <= end < s.len(),
        s[end] == '}',
        forall|k: int| i <= k < end ==> #[trigger] s[k] != '}',
    ensures
        brace_at(s, i) == end,
    decreases end - i,
{
    if i < end {
        lemma_brace_found(s, i + 1, end);
    }
}

/// What comes before a place has no say in what is put from there on.
proof fn lemma_expansion_shifts(a: Seq<char>, b: Seq<char>, i: int, vars: Seq<(String, String)>)
    requires
        0 <= i <= b.len(),
    ensures
        expanded(a + b, a.len() + i, vars) == expanded(b, i, vars),
    decreases b.len() - i,
{
    let s = a + b;
    let n = a.len() as int;
    if i < b.len() {
        assert(s[n + i] == b[i]);
        if i + 1 < b.len() {
            assert(s[n + i + 1] == b[i + 1]);
        }
        if i + 2 <= b.len() {
            lemma_brace_shifts(a, b, i + 2);
        }
        if placeholder_at(b, i) {
            let end = brace_at(b, i + 2);
            assert(s.subrange(n + i + 2, n + end) =~= b.subrange(i + 2, end));
            assert(s.subrange(n + i, n + end + 1) =~= b.subrange(i, end + 1));
            lemma_expansion_shifts(a, b, end + 1, vars);
        } else {
            lemma_expansion_shifts(a, b, i + 1, vars);
        }
    }
}

/// In a text a placeholder `${NAME}` is replaced by the value of the variable that it
/// names, and stays where there is no such variable; the text before it stays as it is,
/// and the text after it is treated alike.
#[verifier::rlimit(40)]
pub proof fn law_placeholders_are_replaced(
    before: Seq<char>,
    name: Seq<char>,
    after: Seq<char>,
    vars: Seq<(String, String)>,
)
    requires
        !before.contains('$'),
        name.len() > 0,
        !name.contains('}'),
    ensures
        expanded(before + "${"@ + name + "}"@ + after, 0, vars) == before + (match value_of(
            vars,
            name,
        ) {
            Some(v) => v,
            None => "${"@ + name + "}"@,
        }) + expanded(after, 0, vars),
    decreases before.len(),
{
    reveal_strlit("${");
    reveal_strlit("}");
    let s = before + "${"@ + name + "}"@ + after;
    let put = match value_of(vars, name) {
        Some(v) => v,
        None => "${"@ + name + "}"@,
    };
    if before.len() > 0 {
        let rest = before.skip(1);
        assert(before.contains(before[0]));
        assert(!rest.contains('$')) by {
            assert forall|i: int| 0 <= i < rest.len() implies #[trigger] rest[i] != '$' by {
                assert(rest[i] == before[i + 1]);
                assert(before.contains(before[i + 1]));
            }
        }
        law_placeholders_are_replaced(rest, name, after, vars);
        let tail = rest + "${"@ + name + "}"@ + after;
        assert(s =~= seq![before[0]] + tail);
        lemma_expansion_shifts(seq![before[0]], tail, 0, vars);
        assert(s[0] == before[0]);
        assert(seq![before[0]] + (rest + put + expanded(after, 0, vars)) =~= before + put
            + expanded(after, 0, vars));
    } else {
        let end = 2 + name.len() as int;
        assert(s[0] == '$' && s[1] == '{' && s[end] == '}');
        assert forall|k: int| 2 <= k < end implies #[trigger] s[k] != '}' by {
            assert(s[k] == name[k - 2]);
            assert(name.contains(name[k - 2]));
        }
        lemma_brace_found(s, 2, end);
        assert(s.subrange(2, end) =~= name);
        assert(s.subrange(0, end + 1) =~= "${"@ + name + "}"@);
        let front = "${"@ + name + "}"@;
        assert(s =~= front + after);
        lemma_expansion_shifts(front, after, 0, vars);
        assert(before + put + expanded(after, 0, vars) =~= put + expanded(after, 0, vars));
    }
}

/// A text without a dollar sign stays as it is.
pub proof fn law_text_without_placeholders_stays(s: Seq<char>, vars: Seq<(String, String)>)
    requires
        !s.contains('$'),
    ensures
        expanded(s, 0, vars) == s,
{
    assert forall|i: int| placeholder_at(s, i) implies value_of(
        vars,
        #[trigger] s.subrange(i + 2, brace_at(s, i + 2)),
    ) is None by {
        assert(s.contains(s[i]));
    }
    law_placeholders_without_a_value_stay(s, vars);
}

} // verus!
