//! Whether a tool call may pass: the policy, the rate limits and the circuit
//! breaker are asked, one after the other.
use std::time::Instant;
use vstd::prelude::*;

use crate::clock::{hour_at, id_shape, present, random_id, reads, Timestamp};
use crate::config::CircuitBreakerConfig;
use crate::document::Doc;
use crate::json::{json_reads, Json, JsonMap};
use crate::policy::engine::{covers, denial, Decision, Policy, PolicyDecision, PolicyEngine};
use crate::policy::laws::law_deny_is_unconditional;
use crate::policy::rules::RuleAction;
use crate::protocol::jsonrpc::{opt_doc, JsonRpcError, JsonRpcResponse, Response, RpcError};
use crate::ratelimit::circuit_breaker::{circuit_of, Circuit, CircuitBreaker, CircuitDecision};
use crate::ratelimit::limiter::{LimitVerdict, Limits, RateLimitDecision, RateLimiter};
use crate::storage::sqlite::{InvocationRecord, InvocationStatus, Record};
use crate::text::{decimal, decimal_text};

verus! {

/// What is done with a call.
#[derive(Debug)]
pub enum EvalOutcome {
    /// The call goes on, with these arguments.
    Allow { arguments: Option<Json> },
    /// The caller gets this response at once.
    Block { response: JsonRpcResponse },
}

/// What an outcome says.
#[verifier::ext_equal]
pub enum Outcome {
    Allow { arguments: Option<Doc> },
    Block { response: Response },
}

impl View for EvalOutcome {
    type V = Outcome;

    open spec fn view(&self) -> Outcome {
        match self {
            EvalOutcome::Allow { arguments } => Outcome::Allow { arguments: opt_doc(*arguments) },
            EvalOutcome::Block { response } => Outcome::Block { response: response@ },
        }
    }
}

/// Which limit refused a call.
#[derive(Debug, Clone, Copy, PartialEq, Eq, Structural)]
pub enum LimitScope {
    Global,
    PerTool,
    Policy,
}

/// The name of a scope.
pub open spec fn scope_name(s: LimitScope) -> Seq<char> {
    match s {
        LimitScope::Global => "global"@,
        LimitScope::PerTool => "per-tool"@,
        LimitScope::Policy => "policy"@,
    }
}

impl LimitScope {
    /// The name of the scope.
    pub fn as_str(&self) -> (s: &'static str)
        ensures
            s@ == scope_name(*self),
    {
        match self {
            LimitScope::Global => "global",
            LimitScope::PerTool => "per-tool",
            LimitScope::Policy => "policy",
        }
    }
}

/// What a refused call counts as.
#[derive(Debug)]
pub enum Tally {
    PolicyDenial { rule_id: String },
    RateLimitHit { scope: LimitScope },
    CircuitOpen,
}

/// What a tally says.
#[verifier::ext_equal]
pub enum TallyMark {
    PolicyDenial { rule_id: Seq<char> },
    RateLimitHit { scope: LimitScope },
    CircuitOpen,
}

impl View for Tally {
    type V = TallyMark;

    open spec fn view(&self) -> TallyMark {
        match self {
            Tally::PolicyDenial { rule_id } => TallyMark::PolicyDenial { rule_id: rule_id@ },
            Tally::RateLimitHit { scope } => TallyMark::RateLimitHit { scope: *scope },
            Tally::CircuitOpen => TallyMark::CircuitOpen,
        }
    }
}

/// What came of a call: what is done with it and, if it was refused, what is
/// recorded and counted.
#[derive(Debug)]
pub struct Evaluation {
    pub outcome: EvalOutcome,
    pub record: Option<InvocationRecord>,
    pub tally: Option<Tally>,
}

/// What an evaluation says.
#[verifier::ext_equal]
pub struct Judgement {
    pub outcome: Outcome,
    pub record: Option<Record>,
    pub tally: Option<TallyMark>,
}

impl View for Evaluation {
    type V = Judgement;

    open spec fn view(&self) -> Judgement {
        Judgement {
            outcome: self.outcome@,
            record: match self.record {
                Some(r) => Some(r@),
                None => None,
            },
            tally: match self.tally {
                Some(t) => Some(t@),
                None => None,
            },
        }
    }
}

/// A tool call as it comes in.
#[verifier::ext_equal]
pub struct Call {
    pub id: Option<Doc>,
    pub tool: Seq<char>,
    pub arguments: Option<Doc>,
    pub server: Seq<char>,
}

/// What a call is held against.
#[verifier::ext_equal]
pub struct Guard {
    pub policy: Option<Policy>,
    pub limits: Limits,
    pub breaker: CircuitBreakerConfig,
    pub circuits: Map<Seq<char>, Circuit>,
}

/// The readings of the clocks when a call is evaluated, and the id for the record
/// that may come of it.
#[derive(Debug)]
pub struct Moment {
    /// The hour of the day.
    pub hour: u32,
    /// What the clock of the policy engine reads.
    pub policy_now: u128,
    /// What the clock of the rate limiter reads.
    pub limiter_now: u128,
    /// What the clock of the circuit breaker reads.
    pub breaker_now: u128,
    pub record_id: String,
    pub timestamp: Timestamp,
}

/// What is read at a moment.
#[verifier::ext_equal]
pub struct Reading {
    pub hour: u32,
    pub policy_now: nat,
    pub limiter_now: nat,
    pub breaker_now: u128,
    pub record_id: Seq<char>,
    pub timestamp: (int, int),
}

impl View for Moment {
    type V = Reading;

    open spec fn view(&self) -> Reading {
        Reading {
            hour: self.hour,
            policy_now: self.policy_now as nat,
            limiter_now: self.limiter_now as nat,
            breaker_now: self.breaker_now,
            record_id: self.record_id@,
            timestamp: self.timestamp@,
        }
    }
}

/// The reading is one that can come of looking at the clocks now, which were
/// started then.
pub open spec fn plausible(at: Reading, clocks: GuardClocks) -> bool {
    &&& present(at.timestamp)
    &&& at.hour == hour_at(at.timestamp.0)
    &&& clocks.policy matches Some(started) ==> reads(started, at.policy_now)
    &&& reads(clocks.limiter, at.limiter_now)
    &&& reads(clocks.breaker, at.breaker_now as nat)
    &&& id_shape(at.record_id)
}

impl Moment {
    /// The clocks and a fresh id, now.
    pub fn now(
        policy: &Option<PolicyEngine>,
        rate_limiter: &RateLimiter,
        circuit_breaker: &CircuitBreaker,
    ) -> (m: Moment)
        ensures
            plausible(m@, clocks_of(*policy, *rate_limiter, *circuit_breaker)),
    {
        let policy_now: u128 = match policy {
            Some(engine) => engine.now(),
            None => 0,
        };
        let timestamp = Timestamp::now();
        Moment {
            hour: timestamp.hour(),
            policy_now,
            limiter_now: rate_limiter.now(),
            breaker_now: circuit_breaker.now(),
            record_id: random_id(),
            timestamp,
        }
    }
}

/// A record of a call that ended here and now, without a result.
pub open spec fn record_of_call(
    id: Seq<char>,
    timestamp: (int, int),
    call: Call,
    status: InvocationStatus,
    policy_hit: Option<Seq<char>>,
) -> Record {
    Record {
        id,
        timestamp,
        agent_id: None,
        session_id: None,
        server_name: call.server,
        tool_name: call.tool,
        arguments: call.arguments,
        result: None,
        latency_ms: None,
        status,
        policy_hit,
    }
}

/// The response that carries an error; a call without an id gets the id null.
pub open spec fn error_response(
    id: Option<Doc>,
    code: int,
    message: Seq<char>,
    data: Option<Doc>,
) -> Response {
    Response {
        jsonrpc: "2.0"@,
        id: match id {
            Some(d) => d,
            None => Doc::Null,
        },
        result: None,
        error: Some(RpcError { code, message, data }),
    }
}

/// How long to wait, for a refused caller.
pub open spec fn wait_data(secs: nat) -> Map<Seq<char>, Doc> {
    Map::<Seq<char>, Doc>::empty().insert("retry_after_secs"@, Doc::Number(decimal(secs)))
}

/// What a refused caller is told, by whom the call was refused.
#[verifier::ext_equal]
pub struct Refusal {
    pub code: int,
    pub message: Seq<char>,
    pub data: Option<Doc>,
    pub status: InvocationStatus,
    pub hit: Seq<char>,
    pub tally: TallyMark,
}

/// The refusal of a denying rule.
pub open spec fn by_rule(rule_id: Seq<char>, message: Seq<char>) -> Refusal {
    Refusal {
        code: -32603,
        message,
        data: None,
        status: InvocationStatus::Denied,
        hit: rule_id,
        tally: TallyMark::PolicyDenial { rule_id },
    }
}

/// The refusal of a rate-limiting rule.
pub open spec fn by_limiting_rule(rule_id: Seq<char>) -> Refusal {
    Refusal {
        code: -32029,
        message: "Rate limit exceeded (rule '"@ + rule_id + "')"@,
        data: None,
        status: InvocationStatus::RateLimited,
        hit: rule_id,
        tally: TallyMark::RateLimitHit { scope: LimitScope::Policy },
    }
}

/// The refusal of the limit over all tools.
pub open spec fn by_global_limit(secs: nat) -> Refusal {
    Refusal {
        code: -32029,
        message: "Global rate limit exceeded. Retry after "@ + decimal(secs) + "s."@,
        data: Some(Doc::Object(wait_data(secs))),
        status: InvocationStatus::RateLimited,
        hit: "global"@,
        tally: TallyMark::RateLimitHit { scope: LimitScope::Global },
    }
}

/// The refusal of a tool's own limit.
pub open spec fn by_tool_limit(tool: Seq<char>, secs: nat) -> Refusal {
    Refusal {
        code: -32029,
        message: "Per-tool rate limit exceeded for '"@ + tool + "'. Retry after "@ + decimal(secs)
            + "s."@,
        data: Some(Doc::Object(wait_data(secs).insert("tool"@, Doc::Text(tool)))),
        status: InvocationStatus::RateLimited,
        hit: "per-tool"@,
        tally: TallyMark::RateLimitHit { scope: LimitScope::PerTool },
    }
}

/// The refusal of an open circuit.
pub open spec fn by_circuit(tool: Seq<char>, secs: nat) -> Refusal {
    Refusal {
        code: -32030,
        message: "Circuit breaker open for '"@ + tool + "'. Retry after "@ + decimal(secs) + "s."@,
        data: Some(Doc::Object(wait_data(secs).insert("state"@, Doc::Text("open"@)))),
        status: InvocationStatus::Error,
        hit: "circuit-breaker"@,
        tally: TallyMark::CircuitOpen,
    }
}

impl Refusal {
    /// What comes of a call that is refused so.
    pub open spec fn judgement(self, call: Call, id: Seq<char>, timestamp: (int, int)) -> Judgement {
        Judgement {
            outcome: Outcome::Block {
                response: error_response(call.id, self.code, self.message, self.data),
            },
            record: Some(record_of_call(id, timestamp, call, self.status, Some(self.hit))),
            tally: Some(self.tally),
        }
    }
}

/// What comes of a call that goes on.
pub open spec fn passes(arguments: Option<Doc>) -> Judgement {
    Judgement { outcome: Outcome::Allow { arguments }, record: None, tally: None }
}

impl Guard {
    /// Why the circuit breaker refuses a call, if it does, and the guard after it
    /// was asked.
    pub open spec fn after_breaker(self, tool: Seq<char>, now: u128) -> (Option<Refusal>, Guard) {
        let circuit = circuit_of(self.circuits, tool);
        (
            match circuit.verdict(self.breaker.cooldown_seconds, now) {
                CircuitDecision::Allow { .. } => None,
                CircuitDecision::Open { retry_after_secs } => Some(
                    by_circuit(tool, retry_after_secs as nat),
                ),
            },
            Guard {
                circuits: self.circuits.insert(
                    tool,
                    circuit.after_check(self.breaker.cooldown_seconds, now),
                ),
                ..self
            },
        )
    }

    /// Why a rate limit refuses a call, if one does, and the guard after they were
    /// asked.
    pub open spec fn after_limits(self, tool: Seq<char>, now: nat) -> (Option<Refusal>, Guard) {
        (
            match self.limits.verdict(tool, now) {
                LimitVerdict::Allow => None,
                LimitVerdict::GlobalLimitExceeded { retry_after_secs } => Some(
                    by_global_limit(retry_after_secs),
                ),
                LimitVerdict::ToolLimitExceeded { tool, retry_after_secs } => Some(
                    by_tool_limit(tool, retry_after_secs),
                ),
            },
            Guard { limits: self.limits.after_call(tool, now), ..self },
        )
    }

    /// What the policy decides of a call, and the guard after it was asked. Without
    /// a policy every call is allowed.
    pub open spec fn after_policy(self, call: Call, hour: u32, now: nat) -> (Decision, Guard) {
        match self.policy {
            Some(p) => {
                let (d, after) = p.decision(call.tool, call.arguments, hour, now);
                (d, Guard { policy: Some(after), ..self })
            },
            None => (Decision::Allow, self),
        }
    }

    /// What comes of a call, and the guard after it. The policy is asked first,
    /// then the rate limits, then the circuit breaker; none is asked once the call
    /// is refused. A call whose arguments a rule redacts goes on with what is left
    /// of them.
    pub open spec fn judge(self, call: Call, at: Reading) -> (Judgement, Guard) {
        let (decision, asked) = self.after_policy(call, at.hour, at.policy_now);
        match decision {
            Decision::Deny { rule_id, message } => (
                by_rule(rule_id, message).judgement(call, at.record_id, at.timestamp),
                asked,
            ),
            Decision::RateLimited { rule_id } => (
                by_limiting_rule(rule_id).judgement(call, at.record_id, at.timestamp),
                asked,
            ),
            Decision::Redact { rule_id, arguments } => asked.judge_allowed(
                Call { arguments: Some(arguments), ..call },
                at,
            ),
            Decision::Allow => asked.judge_allowed(call, at),
        }
    }

    /// The arguments of a call as the policy leaves them: its own, unless a rule
    /// redacts them.
    pub open spec fn arguments_left(self, call: Call, at: Reading) -> Option<Doc> {
        match self.after_policy(call, at.hour, at.policy_now).0 {
            Decision::Redact { arguments, .. } => Some(arguments),
            _ => call.arguments,
        }
    }

    /// What comes of a call that the policy lets go on, and the guard after it.
    pub open spec fn judge_allowed(self, call: Call, at: Reading) -> (Judgement, Guard) {
        let (limited, counted) = self.after_limits(call.tool, at.limiter_now);
        match limited {
            Some(refusal) => (refusal.judgement(call, at.record_id, at.timestamp), counted),
            None => {
                let (broken, tried) = counted.after_breaker(call.tool, at.breaker_now);
                match broken {
                    Some(refusal) => (
                        refusal.judgement(call, at.record_id, at.timestamp),
                        tried,
                    ),
                    None => (passes(call.arguments), tried),
                }
            },
        }
    }
}

/// What an optional policy engine says.
pub open spec fn policy_of(policy: Option<PolicyEngine>) -> Option<Policy> {
    match policy {
        Some(p) => Some(p@),
        None => None,
    }
}

/// The guard that these make up.
pub open spec fn guard_of(
    policy: Option<PolicyEngine>,
    rate_limiter: RateLimiter,
    circuit_breaker: CircuitBreaker,
) -> Guard {
    Guard {
        policy: policy_of(policy),
        limits: rate_limiter@,
        breaker: circuit_breaker.settings(),
        circuits: circuit_breaker@,
    }
}

/// When the clocks of a guard were started.
pub struct GuardClocks {
    pub policy: Option<Instant>,
    pub limiter: Instant,
    pub breaker: Instant,
}

/// When the clocks of these were started.
pub open spec fn clocks_of(
    policy: Option<PolicyEngine>,
    rate_limiter: RateLimiter,
    circuit_breaker: CircuitBreaker,
) -> GuardClocks {
    GuardClocks {
        policy: match policy {
            Some(p) => Some(p.started()),
            None => None,
        },
        limiter: rate_limiter.started(),
        breaker: circuit_breaker.started(),
    }
}

/// The response that carries an error.
pub fn error_resp(
    id: &Option<Json>,
    code: i64,
    message: &str,
    data: Option<Json>,
) -> (r: JsonRpcResponse)
    ensures
        r@ == error_response(opt_doc(*id), code as int, message@, opt_doc(data)),
{
    broadcast use json_reads;

    let id = match id {
        Some(v) => v.clone(),
        None => Json::Null,
    };
    JsonRpcResponse {
        jsonrpc: "2.0".to_owned(),
        id,
        result: None,
        error: Some(JsonRpcError { code, message: message.to_owned(), data }),
    }
}

/// A record of a call that ended now, without a result.
pub fn make_record(
    tool_name: &str,
    arguments: Option<Json>,
    server_name: &str,
    status: InvocationStatus,
    policy_hit: Option<&str>,
) -> (r: InvocationRecord)
    ensures
        id_shape(r@.id),
        present(r@.timestamp),
        r@ == record_of_call(
            r@.id,
            r@.timestamp,
            Call { id: None, tool: tool_name@, arguments: opt_doc(arguments), server: server_name@ },
            status,
            match policy_hit {
                Some(s) => Some(s@),
                None => None,
            },
        ),
{
    make_record_at(
        random_id(),
        Timestamp::now(),
        tool_name,
        arguments,
        server_name,
        status,
        policy_hit,
    )
}

/// A record of a call that ended at this time, without a result.
pub fn make_record_at(
    id: String,
    timestamp: Timestamp,
    tool_name: &str,
    arguments: Option<Json>,
    server_name: &str,
    status: InvocationStatus,
    policy_hit: Option<&str>,
) -> (r: InvocationRecord)
    ensures
        r@ == record_of_call(
            id@,
            timestamp@,
            Call { id: None, tool: tool_name@, arguments: opt_doc(arguments), server: server_name@ },
            status,
            match policy_hit {
                Some(s) => Some(s@),
                None => None,
            },
        ),
{
    InvocationRecord {
        id,
        timestamp,
        agent_id: None,
        session_id: None,
        server_name: server_name.to_owned(),
        tool_name: tool_name.to_owned(),
        arguments,
        result: None,
        latency_ms: None,
        status,
        policy_hit: match policy_hit {
            Some(s) => Some(s.to_owned()),
            None => None,
        },
    }
}

/// How long to wait, for a refused caller.
fn wait_object(secs: u64) -> (m: JsonMap)
    ensures
        m@ == wait_data(secs as nat),
{
    JsonMap::new().insert("retry_after_secs".to_owned(), Json::from_u64(secs))
}

/// Text, a number of seconds, and a full stop.
fn with_wait(front: &str, secs: u64) -> (text: String)
    ensures
        text@ == front@ + decimal(secs as nat) + "s."@,
{
    let mut text = front.to_owned();
    text.append(decimal_text(secs).as_str());
    text.append("s.");
    text
}

/// Evaluates a call, now. The policy, the rate limiter and the circuit breaker
/// take note of it.
pub fn evaluate_tool_call(
    req_id: &Option<Json>,
    tool_name: &str,
    arguments: Option<Json>,
    policy: &mut Option<PolicyEngine>,
    rate_limiter: &mut RateLimiter,
    circuit_breaker: &mut CircuitBreaker,
    server_name: &str,
) -> (e: Evaluation)
    ensures
        clocks_of(*final(policy), *final(rate_limiter), *final(circuit_breaker)) == clocks_of(
            *old(policy),
            *old(rate_limiter),
            *old(circuit_breaker),
        ),
        exists|at: Reading|
            plausible(
                at,
                clocks_of(*old(policy), *old(rate_limiter), *old(circuit_breaker)),
            ) && #[trigger] guard_of(
                *old(policy),
                *old(rate_limiter),
                *old(circuit_breaker),
            ).judge(
                Call {
                    id: opt_doc(*req_id),
                    tool: tool_name@,
                    arguments: opt_doc(arguments),
                    server: server_name@,
                },
                at,
            ) == (e@, guard_of(*final(policy), *final(rate_limiter), *final(circuit_breaker))),
{
    let moment = Moment::now(&*policy, &*rate_limiter, &*circuit_breaker);
    let ghost before = guard_of(*policy, *rate_limiter, *circuit_breaker);
    let ghost call = Call {
        id: opt_doc(*req_id),
        tool: tool_name@,
        arguments: opt_doc(arguments),
        server: server_name@,
    };
    let ghost at = moment@;
    let e = evaluate_tool_call_at(
        req_id,
        tool_name,
        arguments,
        policy,
        rate_limiter,
        circuit_breaker,
        server_name,
        moment,
    );
    assert(before.judge(call, at) == (e@, guard_of(*policy, *rate_limiter, *circuit_breaker)));
    e
}

/// Evaluates a call at a moment.
pub fn evaluate_tool_call_at(
    req_id: &Option<Json>,
    tool_name: &str,
    arguments: Option<Json>,
    policy: &mut Option<PolicyEngine>,
    rate_limiter: &mut RateLimiter,
    circuit_breaker: &mut CircuitBreaker,
    server_name: &str,
    moment: Moment,
) -> (e: Evaluation)
    ensures
        clocks_of(*final(policy), *final(rate_limiter), *final(circuit_breaker)) == clocks_of(
            *old(policy),
            *old(rate_limiter),
            *old(circuit_breaker),
        ),
        guard_of(*old(policy), *old(rate_limiter), *old(circuit_breaker)).judge(
            Call {
                id: opt_doc(*req_id),
                tool: tool_name@,
                arguments: opt_doc(arguments),
                server: server_name@,
            },
            moment@,
        ) == (e@, guard_of(*final(policy), *final(rate_limiter), *final(circuit_breaker))),
{
    broadcast use json_reads;

    let decision = match policy.take() {
        Some(mut engine) => {
            let d = engine.evaluate_at(
                tool_name,
                arguments.as_ref(),
                moment.hour,
                moment.policy_now,
            );
            *policy = Some(engine);
            d
        },
        None => PolicyDecision::Allow,
    };
    let arguments = match decision {
        PolicyDecision::Deny { rule_id, message } => {
            return Evaluation {
                outcome: EvalOutcome::Block {
                    response: error_resp(req_id, -32603, message.as_str(), None),
                },
                record: Some(
                    make_record_at(
                        moment.record_id,
                        moment.timestamp,
                        tool_name,
                        arguments,
                        server_name,
                        InvocationStatus::Denied,
                        Some(rule_id.as_str()),
                    ),
                ),
                tally: Some(Tally::PolicyDenial { rule_id }),
            };
        },
        PolicyDecision::RateLimited { rule_id } => {
            let mut message = "Rate limit exceeded (rule '".to_owned();
            message.append(rule_id.as_str());
            message.append("')");
            return Evaluation {
                outcome: EvalOutcome::Block {
                    response: error_resp(req_id, -32029, message.as_str(), None),
                },
                record: Some(
                    make_record_at(
                        moment.record_id,
                        moment.timestamp,
                        tool_name,
                        arguments,
                        server_name,
                        InvocationStatus::RateLimited,
                        Some(rule_id.as_str()),
                    ),
                ),
                tally: Some(Tally::RateLimitHit { scope: LimitScope::Policy }),
            };
        },
        PolicyDecision::Redact { rule_id: _, arguments: redacted } => Some(redacted),
        PolicyDecision::Allow => arguments,
    };
    match rate_limiter.check_at(tool_name, moment.limiter_now) {
        RateLimitDecision::GlobalLimitExceeded { retry_after_secs } => {
            let message = with_wait("Global rate limit exceeded. Retry after ", retry_after_secs);
            let data = Json::Object(wait_object(retry_after_secs));
            return Evaluation {
                outcome: EvalOutcome::Block {
                    response: error_resp(req_id, -32029, message.as_str(), Some(data)),
                },
                record: Some(
                    make_record_at(
                        moment.record_id,
                        moment.timestamp,
                        tool_name,
                        arguments,
                        server_name,
                        InvocationStatus::RateLimited,
                        Some("global"),
                    ),
                ),
                tally: Some(Tally::RateLimitHit { scope: LimitScope::Global }),
            };
        },
        RateLimitDecision::ToolLimitExceeded { tool, retry_after_secs } => {
            let mut front = "Per-tool rate limit exceeded for '".to_owned();
            front.append(tool.as_str());
            front.append("'. Retry after ");
            let message = with_wait(front.as_str(), retry_after_secs);
            let data = Json::Object(
                wait_object(retry_after_secs).insert(
                    "tool".to_owned(),
                    Json::from_text(tool.as_str()),
                ),
            );
            return Evaluation {
                outcome: EvalOutcome::Block {
                    response: error_resp(req_id, -32029, message.as_str(), Some(data)),
                },
                record: Some(
                    make_record_at(
                        moment.record_id,
                        moment.timestamp,
                        tool_name,
                        arguments,
                        server_name,
                        InvocationStatus::RateLimited,
                        Some("per-tool"),
                    ),
                ),
                tally: Some(Tally::RateLimitHit { scope: LimitScope::PerTool }),
            };
        },
        RateLimitDecision::Allow => {},
    }
    match circuit_breaker.check_at(tool_name, moment.breaker_now) {
        CircuitDecision::Open { retry_after_secs } => {
            let mut front = "Circuit breaker open for '".to_owned();
            front.append(tool_name);
            front.append("'. Retry after ");
            let message = with_wait(front.as_str(), retry_after_secs);
            let data = Json::Object(
                wait_object(retry_after_secs).insert("state".to_owned(), Json::from_text("open")),
            );
            return Evaluation {
                outcome: EvalOutcome::Block {
                    response: error_resp(req_id, -32030, message.as_str(), Some(data)),
                },
                record: Some(
                    make_record_at(
                        moment.record_id,
                        moment.timestamp,
                        tool_name,
                        arguments,
                        server_name,
                        InvocationStatus::Error,
                        Some("circuit-breaker"),
                    ),
                ),
                tally: Some(Tally::CircuitOpen),
            };
        },
        CircuitDecision::Allow { is_probe: _ } => {},
    }
    Evaluation { outcome: EvalOutcome::Allow { arguments }, record: None, tally: None }
}

/// A refused caller is answered with an error under the id of the call, and the
/// refusal is recorded, with the tool, the server and the arguments of the call as
/// the policy left them, and counted. Of a call that goes on nothing is recorded or counted yet.
pub proof fn law_refusals_are_answered_and_recorded(guard: Guard, call: Call, at: Reading)
    ensures
        ({
            let j = guard.judge(call, at).0;
            match j.outcome {
                Outcome::Block { response } => {
                    &&& response.id == (match call.id {
                        Some(d) => d,
                        None => Doc::Null,
                    })
                    &&& response.result is None
                    &&& response.error is Some
                    &&& j.tally is Some
                    &&& j.record matches Some(r) && r.id == at.record_id && r.timestamp
                        == at.timestamp && r.server_name == call.server && r.tool_name == call.tool
                        && r.arguments == guard.arguments_left(call, at) && r.result is None
                        && r.policy_hit is Some && r.status != InvocationStatus::Allowed
                        && r.latency_ms is None && r.agent_id is None && r.session_id is None
                },
                Outcome::Allow { .. } => j.record is None && j.tally is None,
            }
        }),
{
}

/// The code of the error, the status of the record and what is counted tell the
/// same: a denial by the policy, a rate limit, or an open circuit.
pub proof fn law_codes_tell_who_refused(guard: Guard, call: Call, at: Reading)
    ensures
        ({
            let j = guard.judge(call, at).0;
            j.outcome matches Outcome::Block { response } ==> {
                let code = response.error->0.code;
                let status = j.record->0.status;
                let tally = j.tally->0;
                &&& code == -32603 || code == -32029 || code == -32030
                &&& code == -32603 <==> status == InvocationStatus::Denied
                &&& code == -32603 <==> tally is PolicyDenial
                &&& code == -32029 <==> status == InvocationStatus::RateLimited
                &&& code == -32029 <==> tally is RateLimitHit
                &&& code == -32030 <==> status == InvocationStatus::Error
                &&& code == -32030 <==> tally is CircuitOpen
            }
        }),
{
}

/// A call goes on with its own arguments, unless a rule redacts them.
pub proof fn law_only_redaction_changes_arguments(guard: Guard, call: Call, at: Reading)
    ensures
        guard.judge(call, at).0.outcome matches Outcome::Allow {
            arguments,
        } ==> arguments == guard.arguments_left(call, at),
{
}

/// A call that the policy refuses draws on no limit and tries no circuit; one
/// that a limit refuses tries no circuit.
pub proof fn law_refusals_ask_no_further(guard: Guard, call: Call, at: Reading)
    ensures
        ({
            let (j, after) = guard.judge(call, at);
            let (decision, asked) = guard.after_policy(call, at.hour, at.policy_now);
            &&& decision is Deny || decision is RateLimited ==> j.outcome is Block && after.limits
                == guard.limits && after.circuits == guard.circuits
            &&& (decision is Allow || decision is Redact) && asked.after_limits(
                call.tool,
                at.limiter_now,
            ).0 is Some ==> j.outcome is Block && after.circuits == guard.circuits
            &&& after.breaker == guard.breaker
            &&& after.policy is Some <==> guard.policy is Some
        }),
{
}

/// Every call that the policy does not refuse is put to the rate limits and then to
/// the circuit breaker, one whose arguments a rule redacts like any other: it goes
/// on if and only if both let it, and both take note of it.
pub proof fn law_redacted_calls_are_limited_too(guard: Guard, call: Call, at: Reading)
    requires
        guard.after_policy(call, at.hour, at.policy_now).0 is Allow || guard.after_policy(
            call,
            at.hour,
            at.policy_now,
        ).0 is Redact,
    ensures
        ({
            let (j, after) = guard.judge(call, at);
            let (limited, counted) = guard.after_limits(call.tool, at.limiter_now);
            let (broken, tried) = guard.after_breaker(call.tool, at.breaker_now);
            &&& j.outcome is Allow <==> limited is None && broken is None
            &&& after.limits == counted.limits
            &&& after.circuits == if limited is None {
                tried.circuits
            } else {
                guard.circuits
            }
            &&& limited is Some ==> (j.outcome matches Outcome::Block { response }
                && response.error->0.code == -32029)
            &&& limited is None && broken is Some ==> (j.outcome matches Outcome::Block { response }
                && response.error->0.code == -32030)
        }),
{
}

/// A tool that the first rule for it denies without a condition is never called:
/// whatever the arguments and the time, the caller is told that rule's message,
/// and nothing else of the guard takes note of the call.
pub proof fn law_denied_tool_is_never_called(guard: Guard, k: int, call: Call, at: Reading)
    requires
        guard.policy is Some,
        0 <= k < guard.policy->0.rules.len(),
        forall|i: int|
            0 <= i < k ==> !covers((#[trigger] guard.policy->0.rules[i]).rule, call.tool),
        covers(guard.policy->0.rules[k].rule, call.tool),
        guard.policy->0.rules[k].rule.action == RuleAction::Deny,
        guard.policy->0.rules[k].condition is None,
    ensures
        ({
            let rule = guard.policy->0.rules[k].rule;
            guard.judge(call, at) == (
                by_rule(rule.id, denial(rule)).judgement(call, at.record_id, at.timestamp),
                guard,
            )
        }),
{
    let policy = guard.policy->0;
    law_deny_is_unconditional(
        policy.rules,
        policy.buckets,
        k,
        call.tool,
        call.arguments,
        at.hour,
        at.policy_now,
    );
}

/// An error is answered in version 2.0 of the protocol, under the id of what it answers
/// or under null where that has none, with the code, the message and the data of the
/// error and without a result.
pub proof fn law_errors_answer_under_the_id(
    id: Doc,
    code: int,
    message: Seq<char>,
    data: Option<Doc>,
)
    ensures
        error_response(Some(id), code, message, data) == (Response {
            jsonrpc: "2.0"@,
            id,
            result: None,
            error: Some(RpcError { code, message, data }),
        }),
        error_response(None, code, message, data) == (Response {
            jsonrpc: "2.0"@,
            id: Doc::Null,
            result: None,
            error: Some(RpcError { code, message, data }),
        }),
{
}

} // verus!
