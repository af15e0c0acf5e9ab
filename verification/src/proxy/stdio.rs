//! The gateway between an agent and a tool server that talk over pipes, a message
//! to a line.
use std::time::Instant;
use vstd::hash_map::StringHashMap;
use vstd::prelude::*;

use super::evaluation::{
    clocks_of, evaluate_tool_call_at, guard_of, law_refusals_are_answered_and_recorded, plausible,
    policy_of, Call, EvalOutcome, Guard, GuardClocks, Moment, Outcome, Reading, Tally, TallyMark,
};
use crate::clock::{id_shape, present, random_id, reads, Clock, Timestamp};
use crate::config::{AgentGateConfig, CircuitBreakerConfig};
use crate::document::{json_text, Doc};
use crate::json::{json_reads, Json, JsonMap};
use crate::metrics::{CallReport, Report};
use crate::policy::engine::{scrubbed, Policy, PolicyEngine};
use crate::protocol::jsonrpc::{
    arguments_of, copy_opt_json, extract_tool_params, opt_doc, same_opt_json, tool_of,
    JsonRpcMessage, JsonRpcRequest, JsonRpcResponse, Message, Request, Response,
};
use crate::protocol::mcp::{is_tools_call, tools_call};
use crate::ratelimit::circuit_breaker::{circuit_of, Circuit, CircuitBreaker};
use crate::ratelimit::limiter::RateLimiter;
use crate::ratelimit::token_bucket::passed;
use crate::storage::sqlite::{InvocationRecord, InvocationStatus, Record};

verus! {

/// The gateway for one tool server over pipes.
#[derive(Debug)]
pub struct StdioProxy {
    pub config: AgentGateConfig,
}

impl StdioProxy {
    /// A gateway with these settings.
    pub fn new(config: AgentGateConfig) -> (p: StdioProxy)
        ensures
            p.config == config,
    {
        StdioProxy { config }
    }
}

/// A call that has gone to the tool server and has no response yet.
#[derive(Debug)]
struct PendingCall {
    tool_name: String,
    arguments: Option<Json>,
    started_at: u128,
}

/// What is known of a pending call.
#[verifier::ext_equal]
pub struct Pending {
    pub tool: Seq<char>,
    pub arguments: Option<Doc>,
    /// When the call went to the tool server, in nanoseconds.
    pub started_at: nat,
}

impl PendingCall {
    spec fn view(&self) -> Pending {
        Pending {
            tool: self.tool_name@,
            arguments: opt_doc(self.arguments),
            started_at: self.started_at as nat,
        }
    }
}

/// The calls that have no response yet, by the text of their ids.
pub struct PendingCalls {
    calls: StringHashMap<PendingCall>,
    clock: Clock,
}

impl View for PendingCalls {
    type V = Map<Seq<char>, Pending>;

    closed spec fn view(&self) -> Map<Seq<char>, Pending> {
        self.calls@.map_values(|c: PendingCall| c@)
    }
}

impl PendingCalls {
    /// When the clock was started.
    pub closed spec fn started(self) -> Instant {
        self.clock.started()
    }

    /// No calls.
    pub fn new() -> (p: PendingCalls)
        ensures
            p@ == Map::<Seq<char>, Pending>::empty(),
    {
        let p = PendingCalls { calls: StringHashMap::new(), clock: Clock::start() };
        assert(p@ =~= Map::empty());
        p
    }

    /// What the clock reads that times the calls.
    pub fn now(&self) -> (nanos: u128)
        ensures
            reads(self.started(), nanos as nat),
    {
        self.clock.now()
    }

    /// Takes note of a call.
    fn insert(&mut self, key: String, call: PendingCall)
        ensures
            final(self).started() == old(self).started(),
            final(self)@ == old(self)@.insert(key@, call@),
    {
        self.calls.insert(key, call);
        assert(self@ =~= old(self)@.insert(key@, call@));
    }

    /// Takes a call out.
    fn take(&mut self, key: &str) -> (call: Option<PendingCall>)
        ensures
            final(self).started() == old(self).started(),
            final(self)@ == old(self)@.remove(key@),
            match call {
                Some(c) => old(self)@.contains_key(key@) && c@ == old(self)@[key@],
                None => !old(self)@.contains_key(key@),
            },
    {
        let call = match self.calls.get(key) {
            Some(c) => Some(
                PendingCall {
                    tool_name: c.tool_name.clone(),
                    arguments: copy_opt_json(&c.arguments),
                    started_at: c.started_at,
                },
            ),
            None => None,
        };
        self.calls.remove(key);
        assert(self@ =~= old(self)@.remove(key@));
        call
    }
}

/// The parameters with other arguments. Where there are no arguments to put in,
/// or the parameters are no object, they stay as they are.
pub open spec fn with_allowed(params: Option<Doc>, arguments: Option<Doc>) -> Doc {
    let params = match params {
        Some(d) => d,
        None => Doc::Object(Map::empty()),
    };
    match (params, arguments) {
        (Doc::Object(m), Some(a)) => Doc::Object(m.insert("arguments"@, a)),
        _ => params,
    }
}

/// The request with other arguments.
fn rebuild_call(original: &JsonRpcRequest, new_arguments: Option<Json>) -> (r: JsonRpcRequest)
    ensures
        r@ == (Request {
            params: Some(with_allowed(original@.params, opt_doc(new_arguments))),
            ..original@
        }),
{
    broadcast use json_reads;

    let params = match &original.params {
        Some(p) => p.clone(),
        None => Json::Object(JsonMap::new()),
    };
    let params = match (params, new_arguments) {
        (Json::Object(map), Some(args)) => Json::Object(
            map.insert("arguments".to_owned(), args),
        ),
        (other, _) => other,
    };
    JsonRpcRequest {
        jsonrpc: original.jsonrpc.clone(),
        id: copy_opt_json(&original.id),
        method: original.method.clone(),
        params: Some(params),
    }
}

/// Under which key a call waits for its response.
pub open spec fn key_of(id: Option<Doc>) -> Seq<char> {
    match id {
        Some(d) => json_text(d),
        None => "null"@,
    }
}

/// Under which key a call waits for its response.
fn id_key(req: &JsonRpcRequest) -> (key: String)
    ensures
        key@ == key_of(req@.id),
{
    match &req.id {
        Some(id) => id.to_text(),
        None => "null".to_owned(),
    }
}

/// What is done with a line from the agent.
#[derive(Debug)]
pub enum InboundAction {
    /// Nothing: the line is empty.
    Skip,
    /// The line goes to the tool server.
    Forward { line: String },
    /// The agent gets this line at once.
    Reply { line: String },
}

/// What an action says.
#[verifier::ext_equal]
pub enum Inbound {
    Skip,
    Forward { line: Seq<char> },
    Reply { line: Seq<char> },
}

impl View for InboundAction {
    type V = Inbound;

    open spec fn view(&self) -> Inbound {
        match self {
            InboundAction::Skip => Inbound::Skip,
            InboundAction::Forward { line } => Inbound::Forward { line: line@ },
            InboundAction::Reply { line } => Inbound::Reply { line: line@ },
        }
    }
}

/// What comes of a line from the agent.
#[derive(Debug)]
pub struct InboundStep {
    pub action: InboundAction,
    /// What is recorded, if a call was refused.
    pub record: Option<InvocationRecord>,
    pub tally: Option<Tally>,
    /// A call now waits for its response.
    pub started: bool,
}

/// What a step says.
#[verifier::ext_equal]
pub struct InStep {
    pub action: Inbound,
    pub record: Option<Record>,
    pub tally: Option<TallyMark>,
    pub started: bool,
}

impl View for InboundStep {
    type V = InStep;

    open spec fn view(&self) -> InStep {
        InStep {
            action: self.action@,
            record: match self.record {
                Some(r) => Some(r@),
                None => None,
            },
            tally: match self.tally {
                Some(t) => Some(t@),
                None => None,
            },
            started: self.started,
        }
    }
}

/// The line goes on as it came.
pub open spec fn forwarded(line: Seq<char>) -> InStep {
    InStep { action: Inbound::Forward { line }, record: None, tally: None, started: false }
}

/// The request calls a tool and waits for a response.
pub open spec fn is_tracked(r: Request) -> bool {
    r.method == tools_call() && r.id is Some
}

/// The call that a request makes.
pub open spec fn call_of(r: Request, server: Seq<char>) -> Call {
    Call { id: r.id, tool: tool_of(r), arguments: arguments_of(r), server }
}

/// The state of a session.
#[verifier::ext_equal]
pub struct SessionState {
    pub guard: Guard,
    pub pending: Map<Seq<char>, Pending>,
    pub server: Seq<char>,
}

impl SessionState {
    /// What comes of a line from the agent that holds this message, if any, and
    /// the session after it. A request that calls a tool and has an id is
    /// evaluated: refused, it is answered; else it goes on and waits for its
    /// response. Any other line goes on as it came.
    pub open spec fn after_inbound(
        self,
        line: Seq<char>,
        message: Option<Message>,
        at: Reading,
        started_at: nat,
    ) -> (InStep, SessionState) {
        if line.len() == 0 {
            (
                InStep { action: Inbound::Skip, record: None, tally: None, started: false },
                self,
            )
        } else {
            match message {
                Some(Message::Request(r)) => if is_tracked(r) {
                    let (j, guard) = self.guard.judge(call_of(r, self.server), at);
                    match j.outcome {
                        Outcome::Block { response } => (
                            InStep {
                                action: Inbound::Reply { line: response.text() },
                                record: j.record,
                                tally: j.tally,
                                started: false,
                            },
                            SessionState { guard, ..self },
                        ),
                        Outcome::Allow { arguments } => (
                            InStep {
                                action: Inbound::Forward {
                                    line: if arguments == arguments_of(r) {
                                        line
                                    } else {
                                        Request {
                                            params: Some(with_allowed(r.params, arguments)),
                                            ..r
                                        }.text()
                                    },
                                },
                                record: j.record,
                                tally: j.tally,
                                started: true,
                            },
                            SessionState {
                                guard,
                                pending: self.pending.insert(
                                    key_of(r.id),
                                    Pending { tool: tool_of(r), arguments, started_at },
                                ),
                                ..self
                            },
                        ),
                    }
                } else {
                    (forwarded(line), self)
                },
                _ => (forwarded(line), self),
            }
        }
    }
}

/// A session: the gateway at work between one agent and one tool server.
pub struct Session {
    pub policy: Option<PolicyEngine>,
    pub rate_limiter: RateLimiter,
    pub circuit_breaker: CircuitBreaker,
    pub pending: PendingCalls,
    pub server_name: String,
}

impl View for Session {
    type V = SessionState;

    open spec fn view(&self) -> SessionState {
        SessionState {
            guard: guard_of(self.policy, self.rate_limiter, self.circuit_breaker),
            pending: self.pending@,
            server: self.server_name@,
        }
    }
}

/// What a message that may be absent says.
pub open spec fn opt_message(m: Option<JsonRpcMessage>) -> Option<Message> {
    match m {
        Some(m) => Some(m@),
        None => None,
    }
}

impl Session {
    /// When its clocks were started: those of the guard, and the one that times
    /// the calls.
    pub open spec fn clocks(self) -> (GuardClocks, Instant) {
        (
            clocks_of(self.policy, self.rate_limiter, self.circuit_breaker),
            self.pending.started(),
        )
    }

    /// A session in which nothing has happened.
    pub fn new(
        policy: Option<PolicyEngine>,
        rate_limiter: RateLimiter,
        circuit_breaker: CircuitBreaker,
        server_name: String,
    ) -> (s: Session)
        ensures
            s@ == (SessionState {
                guard: guard_of(policy, rate_limiter, circuit_breaker),
                pending: Map::empty(),
                server: server_name@,
            }),
    {
        Session { policy, rate_limiter, circuit_breaker, pending: PendingCalls::new(), server_name }
    }

    /// Handles a line from the agent, now. `message` is the message that the line
    /// holds, if it holds one.
    pub fn inbound(&mut self, line: &str, message: &Option<JsonRpcMessage>) -> (step: InboundStep)
        ensures
            final(self).clocks() == old(self).clocks(),
            exists|at: Reading, started_at: nat|
                plausible(at, old(self).clocks().0) && reads(
                    old(self).pending.started(),
                    started_at,
                ) && #[trigger] old(self)@.after_inbound(
                    line@,
                    opt_message(*message),
                    at,
                    started_at,
                ) == (step@, final(self)@),
    {
        let moment = Moment::now(&self.policy, &self.rate_limiter, &self.circuit_breaker);
        let started_at = self.pending.now();
        let ghost at = moment@;
        let step = self.inbound_at(line, message, moment, started_at);
        assert(old(self)@.after_inbound(
            line@,
            opt_message(*message),
            at,
            started_at as nat,
        ) == (step@, self@));
        step
    }

    /// Handles a line from the agent at a moment; a call that goes on starts when
    /// the clock that times calls reads `started_at`.
    pub fn inbound_at(
        &mut self,
        line: &str,
        message: &Option<JsonRpcMessage>,
        moment: Moment,
        started_at: u128,
    ) -> (step: InboundStep)
        ensures
            final(self).clocks() == old(self).clocks(),
            old(self)@.after_inbound(
                line@,
                opt_message(*message),
                moment@,
                started_at as nat,
            ) == (step@, final(self)@),
    {
        if line.is_empty() {
            return InboundStep {
                action: InboundAction::Skip,
                record: None,
                tally: None,
                started: false,
            };
        }
        if let Some(JsonRpcMessage::Request(req)) = message {
            if is_tools_call(req.method.as_str()) && req.id.is_some() {
                let (tool_name, arguments) = extract_tool_params(req);
                let original_args = copy_opt_json(&arguments);
                let e = evaluate_tool_call_at(
                    &req.id,
                    tool_name.as_str(),
                    arguments,
                    &mut self.policy,
                    &mut self.rate_limiter,
                    &mut self.circuit_breaker,
                    self.server_name.as_str(),
                    moment,
                );
                return match e.outcome {
                    EvalOutcome::Block { response } => InboundStep {
                        action: InboundAction::Reply { line: response.to_text() },
                        record: e.record,
                        tally: e.tally,
                        started: false,
                    },
                    EvalOutcome::Allow { arguments: allowed_args } => {
                        let forward_line = if same_opt_json(&allowed_args, &original_args) {
                            line.to_owned()
                        } else {
                            rebuild_call(req, copy_opt_json(&allowed_args)).to_text()
                        };
                        self.pending.insert(
                            id_key(req),
                            PendingCall { tool_name, arguments: allowed_args, started_at },
                        );
                        InboundStep {
                            action: InboundAction::Forward { line: forward_line },
                            record: e.record,
                            tally: e.tally,
                            started: true,
                        }
                    },
                };
            }
        }
        InboundStep {
            action: InboundAction::Forward { line: line.to_owned() },
            record: None,
            tally: None,
            started: false,
        }
    }
}

/// What comes of a line from the tool server.
#[derive(Debug)]
pub struct ResponseStep {
    /// The line for the agent.
    pub line: String,
    /// What is recorded, if the line answers a call.
    pub record: Option<InvocationRecord>,
    /// What is counted and measured, if the line answers a call.
    pub report: Option<CallReport>,
}

/// What a step says.
#[verifier::ext_equal]
pub struct OutStep {
    pub line: Seq<char>,
    pub record: Option<Record>,
    pub report: Option<Report>,
}

impl View for ResponseStep {
    type V = OutStep;

    open spec fn view(&self) -> OutStep {
        OutStep {
            line: self.line@,
            record: match self.record {
                Some(r) => Some(r@),
                None => None,
            },
            report: match self.report {
                Some(r) => Some(r@),
                None => None,
            },
        }
    }
}

/// The circuits after a call of a tool ended, in an error or not.
pub open spec fn circuits_after(
    circuits: Map<Seq<char>, Circuit>,
    breaker: CircuitBreakerConfig,
    tool: Seq<char>,
    is_error: bool,
    now: u128,
) -> Map<Seq<char>, Circuit> {
    if is_error {
        circuits.insert(tool, circuit_of(circuits, tool).after_error(breaker, now))
    } else if circuits.contains_key(tool) {
        circuits.insert(tool, circuits[tool].after_success())
    } else {
        circuits
    }
}

/// What a result is scrubbed to, where there is a policy.
pub open spec fn scrubbed_by(policy: Option<Policy>, result: Option<Doc>) -> Option<Doc> {
    match (policy, result) {
        (Some(p), Some(d)) => Some(scrubbed(p.rules, d)),
        _ => result,
    }
}

/// The line for the agent: the one that came, unless scrubbing changed the
/// result.
pub open spec fn scrubbed_line(policy: Option<Policy>, r: Response, line: Seq<char>) -> Seq<char> {
    if scrubbed_by(policy, r.result) == r.result {
        line
    } else {
        Response { result: scrubbed_by(policy, r.result), ..r }.text()
    }
}

/// The result of a response as it may be kept, and the line for the agent.
pub(crate) fn scrub(policy: &Option<PolicyEngine>, resp: &JsonRpcResponse, line: &str) -> (out: (
    Option<Json>,
    String,
))
    ensures
        opt_doc(out.0) == scrubbed_by(policy_of(*policy), resp@.result),
        out.1@ == scrubbed_line(policy_of(*policy), resp@, line@),
{
    broadcast use json_reads;

    match (&resp.result, policy) {
        (Some(raw_result), Some(engine)) => {
            let redacted = engine.redact_output(raw_result);
            let line = if redacted.same(raw_result) {
                line.to_owned()
            } else {
                JsonRpcResponse {
                    jsonrpc: resp.jsonrpc.clone(),
                    id: resp.id.clone(),
                    result: Some(redacted.clone()),
                    error: match &resp.error {
                        Some(e) => Some(e.clone()),
                        None => None,
                    },
                }.to_text()
            };
            (Some(redacted), line)
        },
        (Some(raw_result), None) => (Some(raw_result.clone()), line.to_owned()),
        (None, _) => (None, line.to_owned()),
    }
}

impl SessionState {
    /// What comes of a line from the tool server that holds this message, and the
    /// session after it. A response to a pending call ends it: the circuit of the
    /// tool takes note, the result is scrubbed, and the call is recorded. Any
    /// other line goes to the agent as it came.
    pub open spec fn after_message(
        self,
        line: Seq<char>,
        message: Message,
        now: nat,
        breaker_now: u128,
        record_id: Seq<char>,
        timestamp: (int, int),
    ) -> (OutStep, SessionState) {
        match message {
            Message::Response(r) if self.pending.contains_key(json_text(r.id)) => {
                let call = self.pending[json_text(r.id)];
                let is_error = r.error is Some;
                let elapsed = passed(call.started_at, now);
                let circuits = circuits_after(
                    self.guard.circuits,
                    self.guard.breaker,
                    call.tool,
                    is_error,
                    breaker_now,
                );
                (
                    OutStep {
                        line: scrubbed_line(self.guard.policy, r, line),
                        record: Some(
                            Record {
                                id: record_id,
                                timestamp,
                                agent_id: None,
                                session_id: None,
                                server_name: self.server,
                                tool_name: call.tool,
                                arguments: call.arguments,
                                result: scrubbed_by(self.guard.policy, r.result),
                                latency_ms: Some((elapsed / 1_000_000) as i64),
                                status: if is_error {
                                    InvocationStatus::Error
                                } else {
                                    InvocationStatus::Allowed
                                },
                                policy_hit: None,
                            },
                        ),
                        report: Some(
                            Report {
                                tool: call.tool,
                                is_error,
                                nanos: elapsed,
                                circuit: circuit_of(circuits, call.tool).kind(),
                            },
                        ),
                    },
                    SessionState {
                        guard: Guard { circuits, ..self.guard },
                        pending: self.pending.remove(json_text(r.id)),
                        ..self
                    },
                )
            },
            _ => (OutStep { line, record: None, report: None }, self),
        }
    }
}

impl Session {
    /// Handles a line from the tool server, now. `message` is the message that the
    /// line holds, if it holds one; an empty line goes nowhere.
    pub fn response(&mut self, line: &str, message: &Option<JsonRpcMessage>) -> (step: Option<
        ResponseStep,
    >)
        ensures
            final(self).clocks() == old(self).clocks(),
            step is None <==> line@.len() == 0,
            step is None ==> final(self)@ == old(self)@,
            step matches Some(s) ==> match opt_message(*message) {
                Some(m) => exists|
                    now: nat,
                    breaker_now: u128,
                    record_id: Seq<char>,
                    timestamp: (int, int),
                |
                    reads(old(self).pending.started(), now) && reads(
                        old(self).circuit_breaker.started(),
                        breaker_now as nat,
                    ) && id_shape(record_id) && present(timestamp)
                        && #[trigger] old(self)@.after_message(
                        line@,
                        m,
                        now,
                        breaker_now,
                        record_id,
                        timestamp,
                    ) == (s@, final(self)@),
                None => s@ == (OutStep { line: line@, record: None, report: None }) && final(self)@
                    == old(self)@,
            },
    {
        if line.is_empty() {
            return None;
        }
        match message {
            Some(msg) => {
                let now = self.pending.now();
                let breaker_now = self.circuit_breaker.now();
                let record_id = random_id();
                let timestamp = Timestamp::now();
                let ghost id = record_id@;
                let s = self.flush_pending_at(msg, line, now, breaker_now, record_id, timestamp);
                assert(old(self)@.after_message(
                    line@,
                    msg@,
                    now as nat,
                    breaker_now,
                    id,
                    timestamp@,
                ) == (s@, self@));
                Some(s)
            },
            None => Some(ResponseStep { line: line.to_owned(), record: None, report: None }),
        }
    }

    /// Ends the pending call that a message answers, if it answers one, when the
    /// clock that times calls reads `now`.
    pub fn flush_pending_at(
        &mut self,
        msg: &JsonRpcMessage,
        original_line: &str,
        now: u128,
        breaker_now: u128,
        record_id: String,
        timestamp: Timestamp,
    ) -> (step: ResponseStep)
        ensures
            final(self).clocks() == old(self).clocks(),
            old(self)@.after_message(
                original_line@,
                msg@,
                now as nat,
                breaker_now,
                record_id@,
                timestamp@,
            ) == (step@, final(self)@),
    {
        let resp = match msg {
            JsonRpcMessage::Response(resp) => resp,
            JsonRpcMessage::Request(_) => {
                return ResponseStep { line: original_line.to_owned(), record: None, report: None };
            },
        };
        let key = resp.id.to_text();
        let call = match self.pending.take(key.as_str()) {
            Some(call) => call,
            None => {
                assert(self@.pending =~= old(self)@.pending);
                return ResponseStep { line: original_line.to_owned(), record: None, report: None };
            },
        };
        let nanos: u128 = if now > call.started_at {
            now - call.started_at
        } else {
            0
        };
        let latency_ms: i64 = (nanos / 1_000_000) as i64;
        let is_error = resp.error.is_some();
        if is_error {
            self.circuit_breaker.on_error_at(call.tool_name.as_str(), breaker_now);
        } else {
            self.circuit_breaker.on_success(call.tool_name.as_str());
        }
        let circuit = self.circuit_breaker.state_kind(call.tool_name.as_str());
        let (result, line) = scrub(&self.policy, resp, original_line);
        ResponseStep {
            line,
            record: Some(
                InvocationRecord {
                    id: record_id,
                    timestamp,
                    agent_id: None,
                    session_id: None,
                    server_name: self.server_name.clone(),
                    tool_name: call.tool_name.clone(),
                    arguments: call.arguments,
                    result,
                    latency_ms: Some(latency_ms),
                    status: if is_error {
                        InvocationStatus::Error
                    } else {
                        InvocationStatus::Allowed
                    },
                    policy_hit: None,
                },
            ),
            report: Some(CallReport { tool_name: call.tool_name, is_error, nanos, circuit }),
        }
    }
}

impl SessionState {
    /// What the guard makes of a request at a moment.
    pub open spec fn outcome_at(self, r: Request, at: Reading) -> Outcome {
        self.guard.judge(call_of(r, self.server), at).0.outcome
    }
}

/// Whatever is not a call that waits for a response passes as it came and leaves
/// no trace: lines that hold no message, responses, other requests, and calls
/// without an id.
pub proof fn law_other_lines_pass_unchanged(
    s: SessionState,
    line: Seq<char>,
    message: Option<Message>,
    at: Reading,
    started_at: nat,
)
    requires
        line.len() > 0,
        message matches Some(Message::Request(r)) ==> !is_tracked(r),
    ensures
        s.after_inbound(line, message, at, started_at) == (forwarded(line), s),
{
}

/// A refused call never reaches the tool server: the agent is answered with the
/// error, under the id of the call, the refusal is recorded, and no response is
/// waited for.
pub proof fn law_refused_calls_do_not_reach_the_server(
    s: SessionState,
    line: Seq<char>,
    r: Request,
    at: Reading,
    started_at: nat,
)
    requires
        line.len() > 0,
        is_tracked(r),
        s.outcome_at(r, at) is Block,
    ensures
        ({
            let (step, after) = s.after_inbound(line, Some(Message::Request(r)), at, started_at);
            let response = s.outcome_at(r, at)->response;
            &&& step.action == Inbound::Reply { line: response.text() }
            &&& response.id == r.id->0
            &&& response.error is Some
            &&& step.record matches Some(rec) && rec.tool_name == tool_of(r) && rec.arguments
                == s.guard.arguments_left(call_of(r, s.server), at) && rec.server_name == s.server
            &&& !step.started
            &&& after.pending == s.pending
        }),
{
    law_refusals_are_answered_and_recorded(s.guard, call_of(r, s.server), at);
}

/// A call whose arguments nothing changed goes to the tool server as it came.
pub proof fn law_allowed_calls_go_as_they_came(
    s: SessionState,
    line: Seq<char>,
    r: Request,
    at: Reading,
    started_at: nat,
)
    requires
        line.len() > 0,
        is_tracked(r),
        s.outcome_at(r, at) == (Outcome::Allow { arguments: arguments_of(r) }),
    ensures
        ({
            let step = s.after_inbound(line, Some(Message::Request(r)), at, started_at).0;
            step.action == (Inbound::Forward { line }) && step.started
        }),
{
}

/// The response to a call that went on meets it: the record has the tool, the
/// arguments that were let through and the time since the call, the circuit of
/// the tool takes note, and the call is pending no more.
pub proof fn law_response_meets_its_call(
    s: SessionState,
    line: Seq<char>,
    r: Request,
    at: Reading,
    started_at: nat,
    answer: Response,
    answer_line: Seq<char>,
    now: nat,
    breaker_now: u128,
    record_id: Seq<char>,
    timestamp: (int, int),
)
    requires
        line.len() > 0,
        is_tracked(r),
        s.outcome_at(r, at) is Allow,
        answer.id == r.id->0,
    ensures
        ({
            let called = s.after_inbound(line, Some(Message::Request(r)), at, started_at).1;
            let (step, after) = called.after_message(
                answer_line,
                Message::Response(answer),
                now,
                breaker_now,
                record_id,
                timestamp,
            );
            &&& called.pending.contains_key(json_text(answer.id))
            &&& step.record matches Some(rec) && rec.tool_name == tool_of(r) && rec.arguments
                == s.outcome_at(r, at)->arguments && rec.server_name == s.server && rec.latency_ms
                == Some((passed(started_at, now) / 1_000_000) as i64) && (rec.status
                == InvocationStatus::Error <==> answer.error is Some)
            &&& step.report matches Some(rep) && rep.tool == tool_of(r) && rep.nanos == passed(
                started_at,
                now,
            )
            &&& after.pending == s.pending.remove(json_text(answer.id))
            &&& after.guard.circuits == circuits_after(
                called.guard.circuits,
                s.guard.breaker,
                tool_of(r),
                answer.error is Some,
                breaker_now,
            )
        }),
{
    let called = s.after_inbound(line, Some(Message::Request(r)), at, started_at).1;
    assert(called.pending.remove(json_text(answer.id)) =~= s.pending.remove(json_text(answer.id)));
}

/// A line about one call leaves every other pending call as it was, on the way in
/// and on the way back.
pub proof fn law_calls_do_not_mix(
    s: SessionState,
    line: Seq<char>,
    message: Message,
    at: Reading,
    started_at: nat,
    now: nat,
    breaker_now: u128,
    record_id: Seq<char>,
    timestamp: (int, int),
    key: Seq<char>,
)
    requires
        message matches Message::Request(r) ==> key_of(r.id) != key,
        message matches Message::Response(r) ==> json_text(r.id) != key,
    ensures
        ({
            let sent = s.after_inbound(line, Some(message), at, started_at).1.pending;
            let answered = s.after_message(
                line,
                message,
                now,
                breaker_now,
                record_id,
                timestamp,
            ).1.pending;
            &&& sent.contains_key(key) == s.pending.contains_key(key)
            &&& answered.contains_key(key) == s.pending.contains_key(key)
            &&& s.pending.contains_key(key) ==> sent[key] == s.pending[key] && answered[key]
                == s.pending[key]
        }),
{
}

/// A message from the tool server that answers no pending call passes as it came
/// and leaves no trace.
pub proof fn law_other_messages_pass_unchanged(
    s: SessionState,
    line: Seq<char>,
    message: Message,
    now: nat,
    breaker_now: u128,
    record_id: Seq<char>,
    timestamp: (int, int),
)
    requires
        message matches Message::Response(r) ==> !s.pending.contains_key(json_text(r.id)),
    ensures
        s.after_message(line, message, now, breaker_now, record_id, timestamp) == (
            OutStep { line, record: None, report: None },
            s,
        ),
{
}

/// What the redacting rules strike out reaches neither the agent nor the record
/// of a call: the result that is recorded is the scrubbed one, and the agent gets
/// the line as it came only where scrubbing changes nothing, else the response
/// with the scrubbed result.
pub proof fn law_secrets_stay_behind(
    s: SessionState,
    line: Seq<char>,
    r: Response,
    now: nat,
    breaker_now: u128,
    record_id: Seq<char>,
    timestamp: (int, int),
)
    requires
        s.guard.policy is Some,
        s.pending.contains_key(json_text(r.id)),
        r.result is Some,
    ensures
        ({
            let step = s.after_message(
                line,
                Message::Response(r),
                now,
                breaker_now,
                record_id,
                timestamp,
            ).0;
            let clean_result = scrubbed(s.guard.policy->0.rules, r.result->0);
            &&& step.record->0.result == Some(clean_result)
            &&& clean_result == r.result->0 ==> step.line == line
            &&& clean_result != r.result->0 ==> step.line == (Response {
                result: Some(clean_result),
                ..r
            }).text()
        }),
{
}

} // verus!
