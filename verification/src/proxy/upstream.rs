//! The gateway before tool servers that are reached over the network.
use std::time::Instant;
use vstd::prelude::*;

use super::evaluation::{
    clocks_of, evaluate_tool_call_at, guard_of, law_refusals_are_answered_and_recorded, plausible,
    policy_of, EvalOutcome, Guard, GuardClocks, Moment, Outcome, Reading, Tally, TallyMark,
};
use super::stdio::{call_of, opt_message, scrub, scrubbed_line};
use crate::clock::{reads, Clock};
use crate::config::{expand_env_vars, expanded};
use crate::document::Doc;
use crate::json::Json;
use crate::metrics::{CallReport, Report};
use crate::policy::engine::{scrubbed, Policy, PolicyEngine};
use crate::protocol::jsonrpc::{
    extract_tool_params, opt_doc, tool_of, JsonRpcMessage, Message, Request, Response,
};
use crate::protocol::mcp::{is_tools_call, tools_call};
use crate::ratelimit::circuit_breaker::{circuit_of, CircuitBreaker};
use crate::ratelimit::limiter::RateLimiter;
use crate::ratelimit::token_bucket::passed;
use crate::storage::sqlite::{InvocationRecord, InvocationStatus, Record};
use crate::text::{decimal, decimal_text, joined};

verus! {

/// Why a gateway cannot be set up or go on.
#[derive(Debug, Clone, Copy, PartialEq, Eq, Structural)]
pub enum ProxyError {
    /// A server that is reached over the network has no address.
    MissingUrl,
    /// The tool server sent bytes that are no text.
    NotText,
}

/// What a header says.
pub open spec fn header_views(headers: Seq<(String, String)>) -> Seq<(Seq<char>, Seq<char>)> {
    Seq::new(headers.len(), |i: int| (headers[i].0@, headers[i].1@))
}

/// The headers with the placeholders in their values replaced.
pub open spec fn expanded_headers(
    headers: Seq<(String, String)>,
    vars: Seq<(String, String)>,
) -> Seq<(Seq<char>, Seq<char>)> {
    Seq::new(headers.len(), |i: int| (headers[i].0@, expanded(headers[i].1@, 0, vars)))
}

/// Replaces the placeholders in the values of headers.
pub fn expand_headers(
    headers: &Vec<(String, String)>,
    vars: &Vec<(String, String)>,
) -> (out: Vec<(String, String)>)
    ensures
        header_views(out@) == expanded_headers(headers@, vars@),
{
    let mut out: Vec<(String, String)> = Vec::new();
    let mut i: usize = 0;
    while i < headers.len()
        invariant
            i <= headers@.len(),
            out@.len() == i,
            forall|k: int|
                0 <= k < i ==> (#[trigger] out@[k]).0@ == headers@[k].0@ && out@[k].1@ == expanded(
                    headers@[k].1@,
                    0,
                    vars@,
                ),
        decreases headers@.len() - i,
    {
        let header = &headers[i];
        out.push((header.0.clone(), expand_env_vars(header.1.as_str(), vars)));
        i += 1;
    }
    assert(header_views(out@) =~= expanded_headers(headers@, vars@));
    out
}

/// The address of a port of this machine, for this machine alone.
pub open spec fn local_address(port: nat) -> Seq<char> {
    "127.0.0.1:"@ + decimal(port)
}

/// The address of a port of this machine, for this machine alone.
pub fn local_addr(port: u16) -> (addr: String)
    ensures
        addr@ == local_address(port as nat),
{
    joined("127.0.0.1:", decimal_text(port as u64).as_str())
}

/// What is done with a request from the agent.
#[derive(Debug)]
pub enum RequestAction {
    /// It goes to the tool server, unwatched.
    Pass,
    /// The agent gets this body at once.
    Reply { body: String },
    /// It goes to the tool server; its end is recorded as that of this call.
    Call { tool_name: String, arguments: Option<Json> },
}

/// What an action says.
#[verifier::ext_equal]
pub enum Handling {
    Pass,
    Reply { body: Seq<char> },
    Call { tool: Seq<char>, arguments: Option<Doc> },
}

impl View for RequestAction {
    type V = Handling;

    open spec fn view(&self) -> Handling {
        match self {
            RequestAction::Pass => Handling::Pass,
            RequestAction::Reply { body } => Handling::Reply { body: body@ },
            RequestAction::Call { tool_name, arguments } => Handling::Call {
                tool: tool_name@,
                arguments: opt_doc(*arguments),
            },
        }
    }
}

/// What comes of a request from the agent.
#[derive(Debug)]
pub struct RequestStep {
    pub action: RequestAction,
    /// What is recorded, if a call was refused.
    pub record: Option<InvocationRecord>,
    pub tally: Option<Tally>,
}

/// What a step says.
#[verifier::ext_equal]
pub struct ReqStep {
    pub action: Handling,
    pub record: Option<Record>,
    pub tally: Option<TallyMark>,
}

impl View for RequestStep {
    type V = ReqStep;

    open spec fn view(&self) -> ReqStep {
        ReqStep {
            action: self.action@,
            record: match self.record {
                Some(r) => Some(r@),
                None => None,
            },
            tally: match self.tally {
                Some(t) => Some(t@),
                None => None,
            },
        }
    }
}

/// What a request passes: the guard, and the name of the tool server.
pub struct Gateway {
    pub policy: Option<PolicyEngine>,
    pub rate_limiter: RateLimiter,
    pub circuit_breaker: CircuitBreaker,
    pub server_name: String,
    pub clock: Clock,
}

/// What a gateway is.
#[verifier::ext_equal]
pub struct GatewayState {
    pub guard: Guard,
    pub server: Seq<char>,
}

impl View for Gateway {
    type V = GatewayState;

    open spec fn view(&self) -> GatewayState {
        GatewayState {
            guard: guard_of(self.policy, self.rate_limiter, self.circuit_breaker),
            server: self.server_name@,
        }
    }
}

impl GatewayState {
    /// What comes of a request whose body holds this message, if any, and the
    /// gateway after it: a request that calls a tool is evaluated; anything else
    /// passes.
    pub open spec fn after_request(
        self,
        message: Option<Message>,
        at: Reading,
    ) -> (ReqStep, GatewayState) {
        match message {
            Some(Message::Request(r)) if r.method == tools_call() => {
                let (j, guard) = self.guard.judge(call_of(r, self.server), at);
                (
                    ReqStep {
                        action: match j.outcome {
                            Outcome::Block { response } => Handling::Reply {
                                body: response.text(),
                            },
                            Outcome::Allow { arguments } => Handling::Call {
                                tool: tool_of(r),
                                arguments,
                            },
                        },
                        record: j.record,
                        tally: j.tally,
                    },
                    GatewayState { guard, ..self },
                )
            },
            _ => (ReqStep { action: Handling::Pass, record: None, tally: None }, self),
        }
    }
}

/// What the agent gets of what a tool server answers to a request that was handled
/// so, which holds this message, if any: a response to a call comes without what
/// the redacting rules strike out, and anything else as it came.
pub open spec fn answered(
    policy: Option<Policy>,
    action: Handling,
    message: Option<Message>,
    body: Seq<char>,
) -> Seq<char> {
    match (action, message) {
        (Handling::Call { .. }, Some(Message::Response(r))) => scrubbed_line(policy, r, body),
        _ => body,
    }
}

impl Gateway {
    /// When its clocks were started: those of the guard, and the one that times
    /// the calls.
    pub open spec fn clocks(self) -> (GuardClocks, Instant) {
        (
            clocks_of(self.policy, self.rate_limiter, self.circuit_breaker),
            self.clock.started(),
        )
    }

    /// A gateway before a tool server.
    pub fn new(
        policy: Option<PolicyEngine>,
        rate_limiter: RateLimiter,
        circuit_breaker: CircuitBreaker,
        server_name: String,
    ) -> (g: Gateway)
        ensures
            g@ == (GatewayState {
                guard: guard_of(policy, rate_limiter, circuit_breaker),
                server: server_name@,
            }),
    {
        Gateway { policy, rate_limiter, circuit_breaker, server_name, clock: Clock::start() }
    }

    /// What the clock reads that times the calls.
    pub fn now(&self) -> (nanos: u128)
        ensures
            reads(self.clock.started(), nanos as nat),
    {
        self.clock.now()
    }

    /// What the agent gets of what the tool server answers to a request that was
    /// handled so. `message` is the message that the answer holds, if it holds one.
    pub fn answer(
        &self,
        action: &RequestAction,
        message: &Option<JsonRpcMessage>,
        body: &str,
    ) -> (out: String)
        ensures
            out@ == answered(policy_of(self.policy), action@, opt_message(*message), body@),
    {
        match (action, message) {
            (RequestAction::Call { .. }, Some(JsonRpcMessage::Response(resp))) => scrub(
                &self.policy,
                resp,
                body,
            ).1,
            _ => body.to_owned(),
        }
    }

    /// Handles a request from the agent, now. `message` is the message that its
    /// body holds, if it holds one.
    pub fn request(&mut self, message: &Option<JsonRpcMessage>) -> (step: RequestStep)
        ensures
            final(self).clocks() == old(self).clocks(),
            exists|at: Reading|
                plausible(at, old(self).clocks().0) && #[trigger] old(self)@.after_request(
                    opt_message(*message),
                    at,
                ) == (step@, final(self)@),
    {
        let moment = Moment::now(&self.policy, &self.rate_limiter, &self.circuit_breaker);
        let ghost at = moment@;
        let step = self.request_at(message, moment);
        assert(old(self)@.after_request(opt_message(*message), at) == (step@, self@));
        step
    }

    /// Handles a request from the agent at a moment.
    pub fn request_at(
        &mut self,
        message: &Option<JsonRpcMessage>,
        moment: Moment,
    ) -> (step: RequestStep)
        ensures
            final(self).clocks() == old(self).clocks(),
            old(self)@.after_request(opt_message(*message), moment@) == (step@, final(self)@),
    {
        if let Some(JsonRpcMessage::Request(req)) = message {
            if is_tools_call(req.method.as_str()) {
                let (tool_name, arguments) = extract_tool_params(req);
                let e = evaluate_tool_call_at(
                    &req.id,
                    tool_name.as_str(),
                    arguments,
                    &mut self.policy,
                    &mut self.rate_limiter,
                    &mut self.circuit_breaker,
                    self.server_name.as_str(),
                    moment,
                );
                let action = match e.outcome {
                    EvalOutcome::Block { response } => RequestAction::Reply {
                        body: response.to_text(),
                    },
                    EvalOutcome::Allow { arguments } => RequestAction::Call {
                        tool_name,
                        arguments,
                    },
                };
                return RequestStep { action, record: e.record, tally: e.tally };
            }
        }
        RequestStep { action: RequestAction::Pass, record: None, tally: None }
    }

    /// What is counted and measured of a call that began when the clock read
    /// `started_at` and was answered with this status when it read `now`.
    pub fn report(&self, tool_name: &str, status: u16, started_at: u128, now: u128) -> (r:
        CallReport)
        ensures
            r@ == (Report {
                tool: tool_name@,
                is_error: !is_success(status),
                nanos: passed(started_at as nat, now as nat),
                circuit: circuit_of(self@.guard.circuits, tool_name@).kind(),
            }),
    {
        CallReport {
            tool_name: tool_name.to_owned(),
            is_error: !succeeded(status),
            nanos: if now > started_at {
                now - started_at
            } else {
                0
            },
            circuit: self.circuit_breaker.state_kind(tool_name),
        }
    }
}

/// The statuses with which a tool server says that all went well.
pub open spec fn is_success(status: u16) -> bool {
    200 <= status < 300
}

/// Whether a status says that all went well.
pub fn succeeded(status: u16) -> (r: bool)
    ensures
        r == is_success(status),
{
    200 <= status && status < 300
}

/// How a call ended that was answered with this status.
pub open spec fn ended(status: u16) -> InvocationStatus {
    if is_success(status) {
        InvocationStatus::Allowed
    } else {
        InvocationStatus::Error
    }
}

/// How a call ended that was answered with this status.
pub fn outcome_of(status: u16) -> (s: InvocationStatus)
    ensures
        s == ended(status),
{
    if succeeded(status) {
        InvocationStatus::Allowed
    } else {
        InvocationStatus::Error
    }
}

/// A request that calls a tool goes to the tool server only if it is allowed;
/// refused, it is answered with the error under its id and recorded.
pub proof fn law_refused_requests_do_not_reach_the_server(g: GatewayState, r: Request, at: Reading)
    requires
        r.method == tools_call(),
    ensures
        ({
            let step = g.after_request(Some(Message::Request(r)), at).0;
            match g.guard.judge(call_of(r, g.server), at).0.outcome {
                Outcome::Block { response } => {
                    &&& step.action == Handling::Reply { body: response.text() }
                    &&& response.id == (match r.id {
                        Some(d) => d,
                        None => Doc::Null,
                    })
                    &&& step.record is Some
                },
                Outcome::Allow { arguments } => {
                    &&& step.action == Handling::Call { tool: tool_of(r), arguments }
                    &&& step.record is None
                },
            }
        }),
{
    law_refusals_are_answered_and_recorded(g.guard, call_of(r, g.server), at);
}

/// What the redacting rules strike out does not reach the agent over the network
/// either: of a response to a call, with a result, the agent gets what came only
/// where scrubbing changes nothing, else the response with the scrubbed result.
pub proof fn law_secrets_do_not_come_back(
    policy: Policy,
    action: Handling,
    r: Response,
    body: Seq<char>,
)
    requires
        action is Call,
        r.result is Some,
    ensures
        ({
            let out = answered(Some(policy), action, Some(Message::Response(r)), body);
            let clean_result = scrubbed(policy.rules, r.result->0);
            &&& clean_result == r.result->0 ==> out == body
            &&& clean_result != r.result->0 ==> out == (Response {
                result: Some(clean_result),
                ..r
            }).text()
        }),
{
}

/// Of the headers that are sent with every request the names stay, and in each value the
/// placeholders are replaced; none is added and none is left out.
pub proof fn law_header_values_are_expanded(
    headers: Seq<(String, String)>,
    vars: Seq<(String, String)>,
    i: int,
)
    requires
        0 <= i < headers.len(),
    ensures
        expanded_headers(headers, vars).len() == headers.len(),
        expanded_headers(headers, vars)[i].0 == headers[i].0@,
        expanded_headers(headers, vars)[i].1 == expanded(headers[i].1@, 0, vars),
        header_views(headers).len() == headers.len(),
        header_views(headers)[i] == (headers[i].0@, headers[i].1@),
{
}

} // verus!
