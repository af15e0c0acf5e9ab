//! What an agent and a tool server get of each other, told by the messages.
use vstd::prelude::*;

use super::evaluation::{Call, Guard, LimitScope, Outcome, Reading, TallyMark};
use super::http::{comes_back, goes_on};
use super::sse::{awaiting, delivered, SseEvent};
use super::stdio::{call_of, Inbound, Pending, SessionState};
use super::upstream::{answered, ended, is_success, GatewayState, Handling, ReqStep};
use crate::document::{json_text, Doc};
use crate::policy::engine::{redacts, scrubbed, Decision, Policy};
use crate::policy::laws::law_scrubbing_of_the_settled;
use crate::protocol::jsonrpc::{arguments_of, tool_of, Message, Request, Response, RpcError};
use crate::ratelimit::circuit_breaker::{circuit_of, CircuitDecision, CircuitState};
use crate::ratelimit::limiter::LimitVerdict;
use crate::ratelimit::outages::law_open_circuit_refuses_for_the_cooldown;
use crate::storage::sqlite::InvocationStatus;
use crate::text::decimal;

verus! {

/// Where no policy is configured, the agent gets the very line with which the tool
/// server answers a call, and the record holds the result of that answer.
pub proof fn law_answers_pass_untouched_without_a_policy(
    s: SessionState,
    line: Seq<char>,
    r: Response,
    now: nat,
    breaker_now: u128,
    record_id: Seq<char>,
    timestamp: (int, int),
)
    requires
        s.guard.policy is None,
        s.pending.contains_key(json_text(r.id)),
    ensures
        ({
            let step = s.after_message(
                line,
                Message::Response(r),
                now,
                breaker_now,
                record_id,
                timestamp,
            ).0;
            &&& step.line == line
            &&& step.record matches Some(record)
            &&& record.result == r.result
        }),
{
}

/// Whatever the policy, the record of a call holds a result if and only if the answer
/// has one, and an answer without a result reaches the agent as it came.
pub proof fn law_results_are_kept(
    s: SessionState,
    line: Seq<char>,
    r: Response,
    now: nat,
    breaker_now: u128,
    record_id: Seq<char>,
    timestamp: (int, int),
)
    requires
        s.pending.contains_key(json_text(r.id)),
    ensures
        ({
            let step = s.after_message(
                line,
                Message::Response(r),
                now,
                breaker_now,
                record_id,
                timestamp,
            ).0;
            &&& step.record matches Some(record)
            &&& record.result is Some <==> r.result is Some
            &&& r.result is None ==> step.line == line
        }),
{
}

/// No rule of the policy redacts.
pub open spec fn redacts_nothing(policy: Policy) -> bool {
    forall|i: int|
        0 <= i < policy.rules.len() ==> !redacts(#[trigger] policy.rules[i])
}

/// Under a policy that redacts nothing answers pass as without a policy, over pipes,
/// over HTTP and as events.
#[verifier::rlimit(40)]
pub proof fn law_answers_pass_untouched_where_nothing_redacts(
    s: SessionState,
    line: Seq<char>,
    r: Response,
    now: nat,
    breaker_now: u128,
    record_id: Seq<char>,
    timestamp: (int, int),
    action: Handling,
    calls: Set<Seq<char>>,
    event: SseEvent,
)
    requires
        s.guard.policy is Some,
        redacts_nothing(s.guard.policy->0),
        s.pending.contains_key(json_text(r.id)),
    ensures
        ({
            let step = s.after_message(
                line,
                Message::Response(r),
                now,
                breaker_now,
                record_id,
                timestamp,
            ).0;
            &&& step.line == line
            &&& step.record matches Some(record)
            &&& record.result == r.result
        }),
        answered(s.guard.policy, action, Some(Message::Response(r)), line) == line,
        delivered(s.guard.policy, calls, event, Some(Message::Response(r))).0 == event,
{
    if r.result is Some {
        law_scrubbing_of_the_settled(s.guard.policy->0.rules, r.result->0);
        assert(scrubbed(s.guard.policy->0.rules, r.result->0) == r.result->0);
    }
    assert(SseEvent { data: event.data, ..event } == event);
}

/// Over HTTP and as events too, where no policy is configured the agent gets what the
/// tool server sent, whatever it answers; and so it does, whatever the policy, of what
/// holds no result.
pub proof fn law_network_answers_pass_untouched_without_a_policy(
    policy: Option<Policy>,
    action: Handling,
    message: Option<Message>,
    body: Seq<char>,
    calls: Set<Seq<char>>,
    event: SseEvent,
)
    ensures
        answered(None, action, message, body) == body,
        delivered(None, calls, event, message).0 == event,
        !(message is Some && message->0 is Response && message->0->Response_0.result is Some)
            ==> answered(policy, action, message, body) == body,
        !(message is Some && message->0 is Response && message->0->Response_0.result is Some)
            ==> delivered(policy, calls, event, message).0 == event,
        !(action is Call) ==> answered(policy, action, message, body) == body,
{
    assert(SseEvent { data: event.data, ..event } == event);
}

/// The record of an answered call says which call it was, which server it went to, how
/// it ended and how many whole milliseconds it took.
#[verifier::rlimit(40)]
pub proof fn law_records_tell_the_call(
    s: SessionState,
    line: Seq<char>,
    r: Response,
    now: nat,
    breaker_now: u128,
    record_id: Seq<char>,
    timestamp: (int, int),
)
    requires
        s.pending.contains_key(json_text(r.id)),
        s.pending[json_text(r.id)].started_at <= now,
    ensures
        ({
            let call = s.pending[json_text(r.id)];
            let (step, after) = s.after_message(
                line,
                Message::Response(r),
                now,
                breaker_now,
                record_id,
                timestamp,
            );
            let nanos = now - call.started_at;
            &&& step.record matches Some(record)
            &&& record.id == record_id
            &&& record.timestamp == timestamp
            &&& record.server_name == s.server
            &&& record.tool_name == call.tool
            &&& record.arguments == call.arguments
            &&& record.status == if r.error is Some {
                InvocationStatus::Error
            } else {
                InvocationStatus::Allowed
            }
            &&& record.latency_ms == Some((nanos / 1_000_000) as i64)
            &&& record.policy_hit is None
            &&& step.report matches Some(report)
            &&& report.tool == call.tool
            &&& report.is_error == r.error is Some
            &&& report.nanos == nanos
            &&& !after.pending.contains_key(json_text(r.id))
            &&& after.server == s.server
            &&& after.guard.policy == s.guard.policy
            &&& after.guard.limits == s.guard.limits
            &&& after.guard.breaker == s.guard.breaker
        }),
{
}

/// An answer with an error counts as an error of its tool, and one without as a
/// success; the circuits of other tools stay as they are, on every way that a call
/// can end.
pub proof fn law_answers_move_their_own_circuit(
    s: SessionState,
    line: Seq<char>,
    r: Response,
    now: nat,
    breaker_now: u128,
    record_id: Seq<char>,
    timestamp: (int, int),
    other: Seq<char>,
)
    requires
        s.pending.contains_key(json_text(r.id)),
    ensures
        ({
            let tool = s.pending[json_text(r.id)].tool;
            let before = s.guard.circuits;
            let after = s.after_message(
                line,
                Message::Response(r),
                now,
                breaker_now,
                record_id,
                timestamp,
            ).1.guard.circuits;
            &&& r.error is Some ==> circuit_of(after, tool) == circuit_of(before, tool).after_error(
                s.guard.breaker,
                breaker_now,
            )
            &&& r.error is None ==> circuit_of(after, tool) == circuit_of(
                before,
                tool,
            ).after_success()
            &&& r.error is None && circuit_of(before, tool).state == CircuitState::Closed
                ==> circuit_of(after, tool) == circuit_of(before, tool)
            &&& other != tool ==> circuit_of(after, other) == circuit_of(before, other)
            &&& s.after_message(
                line,
                Message::Response(r),
                now,
                breaker_now,
                record_id,
                timestamp,
            ).0.report->0.circuit == circuit_of(after, tool).kind()
        }),
{
}

/// A call is judged under its id, with the tool and the arguments that it names and the
/// server that it goes to.
pub proof fn law_calls_are_judged_as_they_came(r: Request, server: Seq<char>)
    ensures
        call_of(r, server).id == r.id,
        call_of(r, server).tool == tool_of(r),
        call_of(r, server).arguments == arguments_of(r),
        call_of(r, server).server == server,
{
}

/// A line is held against policy, limits and circuits if and only if it is a request
/// for `tools/call` with an id; an empty line goes nowhere, and every other line goes
/// to the tool server as it came.
pub proof fn law_only_tool_calls_are_judged(
    s: SessionState,
    line: Seq<char>,
    message: Option<Message>,
    at: Reading,
    started_at: nat,
)
    ensures
        ({
            let (step, after) = s.after_inbound(line, message, at, started_at);
            let judged = match message {
                Some(Message::Request(r)) => r.method == "tools/call"@ && r.id is Some,
                _ => false,
            };
            &&& line.len() == 0 ==> step.action == Inbound::Skip && after == s && step.record
                is None && step.tally is None && !step.started
            &&& line.len() > 0 && !judged ==> step.action == (Inbound::Forward { line }) && after
                == s && step.record is None && step.tally is None && !step.started
            &&& line.len() > 0 && judged ==> {
                let r = message->0->Request_0;
                let (j, guard) = s.guard.judge(call_of(r, s.server), at);
                &&& after.guard == guard
                &&& after.server == s.server
                &&& step.record == j.record
                &&& step.tally == j.tally
                &&& step.started <==> j.outcome is Allow
                &&& j.outcome matches Outcome::Block { response } ==> step.action == (
                Inbound::Reply { line: response.text() }) && after.pending == s.pending
                &&& j.outcome is Allow ==> step.action is Forward
            }
        }),
{
}

/// The tool that a call names is the text under `name` in its parameters, or `unknown`
/// where there is none; its arguments are what stands under `arguments`.
pub proof fn law_calls_name_tool_and_arguments(r: Request)
    ensures
        match r.params {
            Some(Doc::Object(m)) => {
                &&& m.contains_key("name"@) && m["name"@] is Text ==> tool_of(r)
                    == m["name"@]->Text_0
                &&& !(m.contains_key("name"@) && m["name"@] is Text) ==> tool_of(r) == "unknown"@
                &&& m.contains_key("arguments"@) ==> arguments_of(r) == Some(m["arguments"@])
                &&& !m.contains_key("arguments"@) ==> arguments_of(r) is None
            },
            _ => tool_of(r) == "unknown"@ && arguments_of(r) is None,
        },
{
}

/// A call whose arguments a rule redacted goes to the tool server as the same request
/// with the redacted arguments in the place of its own; it waits for its answer under
/// the text of its id, with those arguments.
pub proof fn law_redacted_calls_go_on_redacted(
    s: SessionState,
    line: Seq<char>,
    r: Request,
    members: Map<Seq<char>, Doc>,
    arguments: Doc,
    at: Reading,
    started_at: nat,
)
    requires
        line.len() > 0,
        r.method == "tools/call"@,
        r.id is Some,
        r.params == Some(Doc::Object(members)),
        s.guard.judge(call_of(r, s.server), at).0.outcome == (Outcome::Allow {
            arguments: Some(arguments),
        }),
        arguments_of(r) != Some(arguments),
    ensures
        ({
            let (step, after) = s.after_inbound(line, Some(Message::Request(r)), at, started_at);
            let sent = Request {
                params: Some(Doc::Object(members.insert("arguments"@, arguments))),
                ..r
            };
            &&& step.action == (Inbound::Forward { line: sent.text() })
            &&& step.started
            &&& after.pending.contains_key(json_text(r.id->0))
            &&& after.pending[json_text(r.id->0)] == (Pending {
                tool: tool_of(r),
                arguments: Some(arguments),
                started_at,
            })
        }),
{
}

/// A call that the policy does not touch, that finds a token at both limits and whose
/// tool has a closed circuit goes on with its own arguments, nothing recorded.
pub proof fn law_free_calls_go_on(guard: Guard, call: Call, at: Reading)
    requires
        guard.policy is None || guard.policy->0.decision(
            call.tool,
            call.arguments,
            at.hour,
            at.policy_now,
        ).0 == Decision::Allow,
        guard.limits.verdict(call.tool, at.limiter_now) == LimitVerdict::Allow,
        circuit_of(guard.circuits, call.tool).state == CircuitState::Closed,
    ensures
        ({
            let (j, after) = guard.judge(call, at);
            &&& j.outcome == (Outcome::Allow { arguments: call.arguments })
            &&& j.record is None
            &&& j.tally is None
            &&& circuit_of(after.circuits, call.tool) == circuit_of(guard.circuits, call.tool)
            &&& after.limits == guard.limits.after_call(call.tool, at.limiter_now)
        }),
{
}

/// What a caller is answered whom the policy refuses: the message of the rule under
/// the code of an internal error, or the name of the rule that limits the rate under
/// the code of a rate limit. The record names the rule.
#[verifier::rlimit(40)]
pub proof fn law_policy_refusals_name_the_rule(guard: Guard, call: Call, at: Reading)
    requires
        guard.policy is Some,
    ensures
        ({
            let (decision, policy) = guard.policy->0.decision(
                call.tool,
                call.arguments,
                at.hour,
                at.policy_now,
            );
            let (j, after) = guard.judge(call, at);
            &&& decision matches Decision::Deny { rule_id, message } ==> {
                &&& j.outcome matches Outcome::Block { response }
                &&& response.jsonrpc == "2.0"@
                &&& response.error == Some(RpcError { code: -32603, message, data: None })
                &&& j.record matches Some(record)
                &&& record.policy_hit == Some(rule_id)
                &&& record.status == InvocationStatus::Denied
                &&& j.tally == Some(TallyMark::PolicyDenial { rule_id })
                &&& after == (Guard { policy: Some(policy), ..guard })
            }
            &&& decision matches Decision::RateLimited { rule_id } ==> {
                &&& j.outcome matches Outcome::Block { response }
                &&& response.jsonrpc == "2.0"@
                &&& response.error == Some(
                    RpcError {
                        code: -32029,
                        message: "Rate limit exceeded (rule '"@ + rule_id + "')"@,
                        data: None,
                    },
                )
                &&& j.record matches Some(record)
                &&& record.policy_hit == Some(rule_id)
                &&& record.status == InvocationStatus::RateLimited
                &&& j.tally == Some(TallyMark::RateLimitHit { scope: LimitScope::Policy })
                &&& after == (Guard { policy: Some(policy), ..guard })
            }
            &&& after.policy == Some(policy)
        }),
{
}

/// What a caller is answered whom a limit refuses, and how long it is told to wait: a
/// limit over all tools, or that of the tool.
#[verifier::rlimit(40)]
pub proof fn law_limit_refusals_tell_the_wait(guard: Guard, call: Call, at: Reading)
    requires
        guard.policy is None || guard.policy->0.decision(
            call.tool,
            call.arguments,
            at.hour,
            at.policy_now,
        ).0 == Decision::Allow,
    ensures
        ({
            let j = guard.judge(call, at).0;
            match guard.limits.verdict(call.tool, at.limiter_now) {
                LimitVerdict::GlobalLimitExceeded { retry_after_secs } => {
                    &&& j.outcome matches Outcome::Block { response }
                    &&& response.jsonrpc == "2.0"@
                    &&& response.error matches Some(e)
                    &&& e.code == -32029
                    &&& e.message == "Global rate limit exceeded. Retry after "@ + decimal(
                        retry_after_secs,
                    ) + "s."@
                    &&& e.data == Some(
                        Doc::Object(
                            Map::<Seq<char>, Doc>::empty().insert(
                                "retry_after_secs"@,
                                Doc::Number(decimal(retry_after_secs)),
                            ),
                        ),
                    )
                    &&& j.record matches Some(record)
                    &&& record.policy_hit == Some("global"@)
                    &&& record.status == InvocationStatus::RateLimited
                    &&& j.tally == Some(TallyMark::RateLimitHit { scope: LimitScope::Global })
                },
                LimitVerdict::ToolLimitExceeded { tool, retry_after_secs } => {
                    &&& j.outcome matches Outcome::Block { response }
                    &&& response.jsonrpc == "2.0"@
                    &&& response.error matches Some(e)
                    &&& e.code == -32029
                    &&& e.message == "Per-tool rate limit exceeded for '"@ + tool
                        + "'. Retry after "@ + decimal(retry_after_secs) + "s."@
                    &&& e.data == Some(
                        Doc::Object(
                            Map::<Seq<char>, Doc>::empty().insert(
                                "retry_after_secs"@,
                                Doc::Number(decimal(retry_after_secs)),
                            ).insert("tool"@, Doc::Text(tool)),
                        ),
                    )
                    &&& j.record matches Some(record)
                    &&& record.policy_hit == Some("per-tool"@)
                    &&& record.status == InvocationStatus::RateLimited
                    &&& j.tally == Some(TallyMark::RateLimitHit { scope: LimitScope::PerTool })
                },
                LimitVerdict::Allow => true,
            }
        }),
{
}

/// What a caller is answered whom an open circuit refuses, and how long it is told to
/// wait.
#[verifier::rlimit(40)]
pub proof fn law_circuit_refusals_tell_the_wait(guard: Guard, call: Call, at: Reading)
    requires
        guard.policy is None || guard.policy->0.decision(
            call.tool,
            call.arguments,
            at.hour,
            at.policy_now,
        ).0 == Decision::Allow,
        guard.limits.verdict(call.tool, at.limiter_now) == LimitVerdict::Allow,
    ensures
        ({
            let j = guard.judge(call, at).0;
            circuit_of(guard.circuits, call.tool).verdict(
                guard.breaker.cooldown_seconds,
                at.breaker_now,
            ) matches CircuitDecision::Open { retry_after_secs } ==> {
                &&& j.outcome matches Outcome::Block { response }
                &&& response.jsonrpc == "2.0"@
                &&& response.error matches Some(e)
                &&& e.code == -32030
                &&& e.message == "Circuit breaker open for '"@ + call.tool + "'. Retry after "@
                    + decimal(retry_after_secs as nat) + "s."@
                &&& e.data == Some(
                    Doc::Object(
                        Map::<Seq<char>, Doc>::empty().insert(
                            "retry_after_secs"@,
                            Doc::Number(decimal(retry_after_secs as nat)),
                        ).insert("state"@, Doc::Text("open"@)),
                    ),
                )
                &&& j.record matches Some(record)
                &&& record.policy_hit == Some("circuit-breaker"@)
                &&& record.status == InvocationStatus::Error
                &&& j.tally == Some(TallyMark::CircuitOpen)
            }
        }),
{
}

/// Over the network a request is held against policy, limits and circuits if and only
/// if it is one for `tools/call`; every other passes and leaves no trace.
pub proof fn law_only_tool_calls_are_judged_over_the_network(
    g: GatewayState,
    message: Option<Message>,
    at: Reading,
)
    ensures
        ({
            let (step, after) = g.after_request(message, at);
            let judged = match message {
                Some(Message::Request(r)) => r.method == "tools/call"@,
                _ => false,
            };
            &&& !judged ==> step == (ReqStep { action: Handling::Pass, record: None, tally: None })
                && after == g
            &&& judged ==> {
                let r = message->0->Request_0;
                let (j, guard) = g.guard.judge(call_of(r, g.server), at);
                &&& after == (GatewayState { guard, server: g.server })
                &&& step.record == j.record
                &&& step.tally == j.tally
                &&& step.action == match j.outcome {
                    Outcome::Block { response } => Handling::Reply { body: response.text() },
                    Outcome::Allow { arguments } => Handling::Call { tool: tool_of(r), arguments },
                }
            }
        }),
{
}

/// The answer to a call that went on under an id is waited for until it comes, and for
/// no other; a second answer under the same id comes as it came.
pub proof fn law_events_answer_once(
    policy: Option<Policy>,
    calls: Set<Seq<char>>,
    call: Request,
    tool: Seq<char>,
    arguments: Option<Doc>,
    event: SseEvent,
    again: SseEvent,
    r: Response,
)
    requires
        call.id is Some,
        r.id == call.id->0,
        event.data is Some,
    ensures
        ({
            let after = awaiting(
                calls,
                Some(Message::Request(call)),
                Handling::Call { tool, arguments },
            );
            let first = delivered(policy, after, event, Some(Message::Response(r)));
            &&& after == calls.insert(json_text(call.id->0))
            &&& first.1 == calls.remove(json_text(call.id->0))
            &&& first.0.event_type == event.event_type
            &&& first.0.id == event.id
            &&& first.0.data is Some
            &&& delivered(policy, first.1, again, Some(Message::Response(r))) == (again, first.1)
        }),
        awaiting(calls, Some(Message::Request(call)), Handling::Pass) == calls,
{
    assert(calls.insert(json_text(call.id->0)).remove(json_text(call.id->0)) =~= calls.remove(
        json_text(call.id->0),
    ));
}

/// A status from 200 to 299 says that a call went well, and every other that it did
/// not.
pub proof fn law_statuses_tell_success(status: u16)
    ensures
        200 <= status <= 299 ==> is_success(status) && ended(status) == InvocationStatus::Allowed,
        status < 200 || status > 299 ==> !is_success(status) && ended(status)
            == InvocationStatus::Error,
{
}

/// Four headers of a request go on, and four of an answer come back; whatever else
/// either carries stays behind.
pub proof fn law_only_named_headers_pass(name: Seq<char>)
    ensures
        goes_on(name) <==> seq![
            "content-type"@,
            "accept"@,
            "authorization"@,
            "x-request-id"@,
        ].contains(name),
        comes_back(name) <==> seq![
            "content-type"@,
            "content-length"@,
            "transfer-encoding"@,
            "cache-control"@,
        ].contains(name),
{
    let on = seq!["content-type"@, "accept"@, "authorization"@, "x-request-id"@];
    let back = seq![
        "content-type"@,
        "content-length"@,
        "transfer-encoding"@,
        "cache-control"@,
    ];
    assert(on[0] == "content-type"@ && on[1] == "accept"@ && on[2] == "authorization"@ && on[3]
        == "x-request-id"@);
    assert(back[0] == "content-type"@ && back[1] == "content-length"@ && back[2]
        == "transfer-encoding"@ && back[3] == "cache-control"@);
}

/// A tool whose circuit is open is not called before the cooldown has passed since it
/// opened, nor while a trial is under way: the call is refused and nothing is tried. The
/// first call after the cooldown goes on, as the one trial.
pub proof fn law_cut_off_tools_are_not_called(guard: Guard, call: Call, at: Reading)
    requires
        guard.policy is None || guard.policy->0.decision(
            call.tool,
            call.arguments,
            at.hour,
            at.policy_now,
        ).0 == Decision::Allow,
        guard.limits.verdict(call.tool, at.limiter_now) == LimitVerdict::Allow,
    ensures
        ({
            let (j, after) = guard.judge(call, at);
            let circuit = circuit_of(guard.circuits, call.tool);
            &&& circuit.state == CircuitState::HalfOpen ==> {
                &&& j.outcome matches Outcome::Block { response }
                &&& response.error->0.code == -32030
                &&& circuit_of(after.circuits, call.tool) == circuit
            }
            &&& circuit.state matches CircuitState::Open { opened_at } ==> opened_at
                <= at.breaker_now ==> {
                &&& at.breaker_now < opened_at + guard.breaker.cooldown_seconds * 1_000_000_000
                    ==> {
                    &&& j.outcome matches Outcome::Block { response }
                    &&& response.error->0.code == -32030
                    &&& circuit_of(after.circuits, call.tool) == circuit
                }
                &&& at.breaker_now >= opened_at + guard.breaker.cooldown_seconds * 1_000_000_000
                    ==> {
                    &&& j.outcome == (Outcome::Allow { arguments: call.arguments })
                    &&& circuit_of(after.circuits, call.tool).state == CircuitState::HalfOpen
                }
            }
        }),
{
    let circuit = circuit_of(guard.circuits, call.tool);
    if let CircuitState::Open { opened_at } = circuit.state {
        if opened_at <= at.breaker_now {
            law_open_circuit_refuses_for_the_cooldown(
                circuit,
                opened_at,
                guard.breaker.cooldown_seconds,
                at.breaker_now,
            );
        }
    }
}

} // verus!
