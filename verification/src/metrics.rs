//! What is counted and measured.
use vstd::prelude::*;

use crate::ratelimit::circuit_breaker::CircuitStateKind;

verus! {

/// The label under which a finished call is counted.
pub open spec fn label_of_call(is_error: bool) -> Seq<char> {
    if is_error {
        "error"@
    } else {
        "success"@
    }
}

/// The label under which a finished call is counted.
pub fn status_label(is_error: bool) -> (s: &'static str)
    ensures
        s@ == label_of_call(is_error),
{
    if is_error {
        "error"
    } else {
        "success"
    }
}

/// The number that stands for the state of a circuit: 0 closed, 1 open, 2
/// half-open.
pub open spec fn state_code(state: CircuitStateKind) -> u8 {
    match state {
        CircuitStateKind::Closed => 0,
        CircuitStateKind::Open => 1,
        CircuitStateKind::HalfOpen => 2,
    }
}

/// The number that stands for the state of a circuit.
pub fn circuit_state_code(state: CircuitStateKind) -> (code: u8)
    ensures
        code == state_code(state),
{
    match state {
        CircuitStateKind::Closed => 0,
        CircuitStateKind::Open => 1,
        CircuitStateKind::HalfOpen => 2,
    }
}

/// What is told to whoever gathers metrics.
#[derive(Debug, Clone, Copy, PartialEq, Eq, Structural)]
pub enum Metric {
    ToolCalls,
    CallDuration,
    PolicyDenials,
    RateLimitHits,
    CircuitState,
    ActiveSessions,
}

/// The name of a metric.
pub open spec fn metric_name(m: Metric) -> Seq<char> {
    match m {
        Metric::ToolCalls => "agentgate_tool_calls_total"@,
        Metric::CallDuration => "agentgate_tool_call_duration_seconds"@,
        Metric::PolicyDenials => "agentgate_policy_denials_total"@,
        Metric::RateLimitHits => "agentgate_rate_limit_hits_total"@,
        Metric::CircuitState => "agentgate_circuit_breaker_state"@,
        Metric::ActiveSessions => "agentgate_active_sessions"@,
    }
}

/// What a metric is about, in words.
pub open spec fn metric_help(m: Metric) -> Seq<char> {
    match m {
        Metric::ToolCalls => "Total tool invocations by outcome"@,
        Metric::CallDuration => "Tool call round-trip latency in seconds"@,
        Metric::PolicyDenials => "Tool calls blocked by policy deny rules"@,
        Metric::RateLimitHits => "Rate-limit rejections by scope (global, per-tool, policy)"@,
        Metric::CircuitState => "Circuit breaker state per tool: 0=closed 1=open 2=half-open"@,
        Metric::ActiveSessions => "In-flight tool calls awaiting an upstream response"@,
    }
}

/// By what a metric is told apart.
pub open spec fn metric_labels(m: Metric) -> Seq<Seq<char>> {
    match m {
        Metric::ToolCalls => seq!["tool"@, "status"@],
        Metric::CallDuration => seq!["tool"@],
        Metric::PolicyDenials => seq!["rule_id"@],
        Metric::RateLimitHits => seq!["scope"@],
        Metric::CircuitState => seq!["tool"@],
        Metric::ActiveSessions => Seq::empty(),
    }
}

/// What texts say.
pub open spec fn str_views(texts: Seq<&'static str>) -> Seq<Seq<char>> {
    Seq::new(texts.len(), |i: int| texts[i]@)
}

impl Metric {
    /// The name of the metric.
    pub fn name(&self) -> (s: &'static str)
        ensures
            s@ == metric_name(*self),
    {
        match self {
            Metric::ToolCalls => "agentgate_tool_calls_total",
            Metric::CallDuration => "agentgate_tool_call_duration_seconds",
            Metric::PolicyDenials => "agentgate_policy_denials_total",
            Metric::RateLimitHits => "agentgate_rate_limit_hits_total",
            Metric::CircuitState => "agentgate_circuit_breaker_state",
            Metric::ActiveSessions => "agentgate_active_sessions",
        }
    }

    /// What the metric is about, in words.
    pub fn help(&self) -> (s: &'static str)
        ensures
            s@ == metric_help(*self),
    {
        match self {
            Metric::ToolCalls => "Total tool invocations by outcome",
            Metric::CallDuration => "Tool call round-trip latency in seconds",
            Metric::PolicyDenials => "Tool calls blocked by policy deny rules",
            Metric::RateLimitHits => "Rate-limit rejections by scope (global, per-tool, policy)",
            Metric::CircuitState => "Circuit breaker state per tool: 0=closed 1=open 2=half-open",
            Metric::ActiveSessions => "In-flight tool calls awaiting an upstream response",
        }
    }

    /// By what the metric is told apart.
    pub fn labels(&self) -> (texts: Vec<&'static str>)
        ensures
            str_views(texts@) == metric_labels(*self),
    {
        let texts = match self {
            Metric::ToolCalls => vec!["tool", "status"],
            Metric::CallDuration => vec!["tool"],
            Metric::PolicyDenials => vec!["rule_id"],
            Metric::RateLimitHits => vec!["scope"],
            Metric::CircuitState => vec!["tool"],
            Metric::ActiveSessions => Vec::new(),
        };
        assert(str_views(texts@) =~= metric_labels(*self));
        texts
    }
}

/// What is counted and measured of a finished call.
#[derive(Debug)]
pub struct CallReport {
    pub tool_name: String,
    pub is_error: bool,
    /// How long the call took, in nanoseconds.
    pub nanos: u128,
    /// The state of the tool's circuit after the call.
    pub circuit: CircuitStateKind,
}

/// What a report says.
#[verifier::ext_equal]
pub struct Report {
    pub tool: Seq<char>,
    pub is_error: bool,
    pub nanos: nat,
    pub circuit: CircuitStateKind,
}

impl View for CallReport {
    type V = Report;

    open spec fn view(&self) -> Report {
        Report {
            tool: self.tool_name@,
            is_error: self.is_error,
            nanos: self.nanos as nat,
            circuit: self.circuit,
        }
    }
}

/// The states of a circuit are told as 0, 1 and 2, a finished call as a success or an
/// error.
pub proof fn law_numbers_of_the_states()
    ensures
        state_code(CircuitStateKind::Closed) == 0,
        state_code(CircuitStateKind::Open) == 1,
        state_code(CircuitStateKind::HalfOpen) == 2,
        label_of_call(true) == "error"@,
        label_of_call(false) == "success"@,
{
}

/// Every metric has a name of its own, and all names begin alike.
pub proof fn law_metrics_have_names_of_their_own(a: Metric, b: Metric)
    ensures
        metric_name(a) == metric_name(b) ==> a == b,
        "agentgate_"@.is_prefix_of(metric_name(a)),
        metric_name(Metric::ActiveSessions) == "agentgate_active_sessions"@,
        metric_name(Metric::CircuitState) == "agentgate_circuit_breaker_state"@,
        metric_name(Metric::RateLimitHits) == "agentgate_rate_limit_hits_total"@,
        metric_name(Metric::PolicyDenials) == "agentgate_policy_denials_total"@,
        metric_name(Metric::CallDuration) == "agentgate_tool_call_duration_seconds"@,
        metric_name(Metric::ToolCalls) == "agentgate_tool_calls_total"@,
{
    reveal_strlit("agentgate_");
    reveal_strlit("agentgate_tool_calls_total");
    reveal_strlit("agentgate_tool_call_duration_seconds");
    reveal_strlit("agentgate_policy_denials_total");
    reveal_strlit("agentgate_rate_limit_hits_total");
    reveal_strlit("agentgate_circuit_breaker_state");
    reveal_strlit("agentgate_active_sessions");
    assert("agentgate_tool_calls_total"@.len() == 26);
    assert("agentgate_tool_call_duration_seconds"@.len() == 36);
    assert("agentgate_policy_denials_total"@.len() == 30);
    assert("agentgate_rate_limit_hits_total"@.len() == 31);
    assert("agentgate_circuit_breaker_state"@.len() == 31);
    assert("agentgate_active_sessions"@.len() == 25);
    assert("agentgate_rate_limit_hits_total"@[10] == 'r');
    assert("agentgate_circuit_breaker_state"@[10] == 'c');
}

/// By what each metric is told apart.
pub proof fn law_metrics_have_their_labels()
    ensures
        metric_labels(Metric::ToolCalls) == seq!["tool"@, "status"@],
        metric_labels(Metric::CallDuration) == seq!["tool"@],
        metric_labels(Metric::PolicyDenials) == seq!["rule_id"@],
        metric_labels(Metric::RateLimitHits) == seq!["scope"@],
        metric_labels(Metric::CircuitState) == seq!["tool"@],
        metric_labels(Metric::ActiveSessions).len() == 0,
{
}

} // verus!
