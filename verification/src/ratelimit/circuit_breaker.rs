//! Circuit breakers: a tool that keeps failing is cut off for a while.
use std::time::Instant;
use vstd::hash_map::StringHashMap;
use vstd::prelude::*;

use super::token_bucket::passed;
use crate::clock::{reads, Clock, NANOS};
use crate::config::CircuitBreakerConfig;

verus! {

/// Whether a circuit lets calls through.
#[derive(Debug, Clone, Copy, PartialEq, Eq, Structural)]
pub enum CircuitState {
    /// Calls pass.
    Closed,
    /// Calls are refused since this time, in nanoseconds.
    Open { opened_at: u128 },
    /// One call has been let through to try the tool; others are refused.
    HalfOpen,
}

/// The kinds of [`CircuitState`].
#[derive(Debug, Clone, Copy, PartialEq, Eq, Structural)]
pub enum CircuitStateKind {
    Closed,
    Open,
    HalfOpen,
}

/// Whether a call passes the circuit breaker.
#[derive(Debug, Clone, Copy, PartialEq, Eq, Structural)]
pub enum CircuitDecision {
    Allow { is_probe: bool },
    Open { retry_after_secs: u64 },
}

/// The circuit of one tool.
#[verifier::ext_equal]
pub struct Circuit {
    pub state: CircuitState,
    /// When the errors that still count came, in nanoseconds.
    pub errors: Seq<u128>,
}

impl Circuit {
    /// The circuit of a tool not met before.
    pub open spec fn fresh() -> Circuit {
        Circuit { state: CircuitState::Closed, errors: Seq::empty() }
    }

    pub open spec fn kind(self) -> CircuitStateKind {
        match self.state {
            CircuitState::Closed => CircuitStateKind::Closed,
            CircuitState::Open { .. } => CircuitStateKind::Open,
            CircuitState::HalfOpen => CircuitStateKind::HalfOpen,
        }
    }

    /// The time for which an open circuit refuses calls is over.
    pub open spec fn cooled(opened_at: u128, cooldown_seconds: nat, now: u128) -> bool {
        passed(opened_at as nat, now as nat) >= cooldown_seconds * NANOS as nat
    }

    /// What is decided of a call at `now`.
    pub open spec fn verdict(self, cooldown_seconds: u64, now: u128) -> CircuitDecision {
        match self.state {
            CircuitState::Closed => CircuitDecision::Allow { is_probe: false },
            CircuitState::Open { opened_at } => {
                let left = cooldown_seconds as nat * NANOS as nat - passed(
                    opened_at as nat,
                    now as nat,
                );
                if Circuit::cooled(opened_at, cooldown_seconds as nat, now) {
                    CircuitDecision::Allow { is_probe: true }
                } else if left / NANOS as int >= u64::MAX {
                    CircuitDecision::Open { retry_after_secs: u64::MAX }
                } else {
                    CircuitDecision::Open { retry_after_secs: (left / NANOS as int + 1) as u64 }
                }
            },
            CircuitState::HalfOpen => CircuitDecision::Open { retry_after_secs: cooldown_seconds },
        }
    }

    /// The circuit after a call at `now` was decided: one that has cooled down is
    /// tried with that call.
    pub open spec fn after_check(self, cooldown_seconds: u64, now: u128) -> Circuit {
        match self.state {
            CircuitState::Open { opened_at } if Circuit::cooled(
                opened_at,
                cooldown_seconds as nat,
                now,
            ) => Circuit { state: CircuitState::HalfOpen, ..self },
            _ => self,
        }
    }

    /// The circuit after a call succeeded: a trial that went well closes it.
    pub open spec fn after_success(self) -> Circuit {
        if self.state == CircuitState::HalfOpen {
            Circuit::fresh()
        } else {
            self
        }
    }

    /// The errors of the last window before `now`.
    pub open spec fn recent(self, window_seconds: u64, now: u128) -> Seq<u128> {
        self.errors.filter(
            |t: u128| passed(t as nat, now as nat) < window_seconds as nat * NANOS as nat,
        )
    }

    /// The circuit after a call failed at `now`: a trial that failed opens it
    /// again; else it opens once the last window has seen enough errors.
    pub open spec fn after_error(self, config: CircuitBreakerConfig, now: u128) -> Circuit {
        if self.state == CircuitState::HalfOpen {
            Circuit { state: CircuitState::Open { opened_at: now }, ..self }
        } else {
            let errors = self.recent(config.window_seconds, now).push(now);
            let state = if errors.len() >= config.error_threshold {
                CircuitState::Open { opened_at: now }
            } else {
                self.state
            };
            Circuit { state, errors }
        }
    }
}

/// The circuit of a tool among those that a breaker keeps.
pub open spec fn circuit_of(tools: Map<Seq<char>, Circuit>, tool: Seq<char>) -> Circuit {
    if tools.contains_key(tool) {
        tools[tool]
    } else {
        Circuit::fresh()
    }
}

/// What a breaker keeps of one tool.
#[derive(Debug)]
struct ToolState {
    circuit: CircuitState,
    error_window: Vec<u128>,
}

impl ToolState {
    spec fn view(&self) -> Circuit {
        Circuit { state: self.circuit, errors: self.error_window@ }
    }
}

/// Circuit breakers, one for each tool.
pub struct CircuitBreaker {
    config: CircuitBreakerConfig,
    clock: Clock,
    tools: StringHashMap<ToolState>,
}

impl View for CircuitBreaker {
    type V = Map<Seq<char>, Circuit>;

    /// The circuits of the tools met so far.
    closed spec fn view(&self) -> Map<Seq<char>, Circuit> {
        self.tools@.map_values(|s: ToolState| s@)
    }
}

impl CircuitBreaker {
    /// The settings of the breaker.
    pub closed spec fn settings(self) -> CircuitBreakerConfig {
        self.config
    }

    /// When the clock was started.
    pub closed spec fn started(self) -> Instant {
        self.clock.started()
    }

    /// A breaker that has met no tool.
    pub fn new(config: CircuitBreakerConfig) -> (b: CircuitBreaker)
        ensures
            b@ == Map::<Seq<char>, Circuit>::empty(),
            b.settings() == config,
    {
        let b = CircuitBreaker { config, clock: Clock::start(), tools: StringHashMap::new() };
        assert(b@ =~= Map::empty());
        b
    }

    /// What the breaker's clock reads.
    pub fn now(&self) -> (nanos: u128)
        ensures
            reads(self.started(), nanos as nat),
    {
        self.clock.now()
    }

    /// The circuit of a tool, taken out of the breaker's hands.
    fn copy_of(&self, tool_name: &str) -> (s: ToolState)
        ensures
            s@ == circuit_of(self@, tool_name@),
    {
        match self.tools.get(tool_name) {
            Some(s) => {
                let mut error_window: Vec<u128> = Vec::new();
                let mut i: usize = 0;
                while i < s.error_window.len()
                    invariant
                        i <= s.error_window@.len(),
                        error_window@ == s.error_window@.take(i as int),
                    decreases s.error_window@.len() - i,
                {
                    error_window.push(s.error_window[i]);
                    i += 1;
                    assert(error_window@ =~= s.error_window@.take(i as int));
                }
                assert(error_window@ =~= s.error_window@);
                ToolState { circuit: s.circuit, error_window }
            },
            None => ToolState { circuit: CircuitState::Closed, error_window: Vec::new() },
        }
    }

    /// Decides on a call of a tool, now.
    pub fn check(&mut self, tool_name: &str) -> (d: CircuitDecision)
        ensures
            final(self).settings() == old(self).settings(),
            final(self).started() == old(self).started(),
            exists|now: u128|
                reads(old(self).started(), now as nat) && d == #[trigger] circuit_of(
                    old(self)@,
                    tool_name@,
                ).verdict(old(self).settings().cooldown_seconds, now) && final(self)@ == old(self)@.insert(
                    tool_name@,
                    circuit_of(old(self)@, tool_name@).after_check(
                        old(self).settings().cooldown_seconds,
                        now,
                    ),
                ),
    {
        let now = self.now();
        self.check_at(tool_name, now)
    }

    /// Decides on a call of a tool when the breaker's clock reads `now`.
    pub fn check_at(&mut self, tool_name: &str, now: u128) -> (d: CircuitDecision)
        ensures
            final(self).settings() == old(self).settings(),
            final(self).started() == old(self).started(),
            d == circuit_of(old(self)@, tool_name@).verdict(
                old(self).settings().cooldown_seconds,
                now,
            ),
            final(self)@ == old(self)@.insert(
                tool_name@,
                circuit_of(old(self)@, tool_name@).after_check(
                    old(self).settings().cooldown_seconds,
                    now,
                ),
            ),
    {
        let mut state = self.copy_of(tool_name);
        let cooldown: u128 = self.config.cooldown_seconds as u128 * NANOS;
        let decision = match state.circuit {
            CircuitState::Closed => CircuitDecision::Allow { is_probe: false },
            CircuitState::Open { opened_at } => {
                let elapsed: u128 = if now > opened_at {
                    now - opened_at
                } else {
                    0
                };
                if elapsed >= cooldown {
                    state.circuit = CircuitState::HalfOpen;
                    CircuitDecision::Allow { is_probe: true }
                } else {
                    let left: u128 = (cooldown - elapsed) / NANOS;
                    let secs: u64 = left as u64;
                    CircuitDecision::Open { retry_after_secs: secs.saturating_add(1) }
                }
            },
            CircuitState::HalfOpen => CircuitDecision::Open {
                retry_after_secs: self.config.cooldown_seconds,
            },
        };
        self.tools.insert(tool_name.to_owned(), state);
        assert(self@ =~= old(self)@.insert(
            tool_name@,
            circuit_of(old(self)@, tool_name@).after_check(
                old(self).settings().cooldown_seconds,
                now,
            ),
        ));
        decision
    }

    /// Takes note that a call of a tool succeeded.
    pub fn on_success(&mut self, tool_name: &str)
        ensures
            final(self).settings() == old(self).settings(),
            final(self).started() == old(self).started(),
            final(self)@ == if old(self)@.contains_key(tool_name@) {
                old(self)@.insert(tool_name@, old(self)@[tool_name@].after_success())
            } else {
                old(self)@
            },
    {
        let half_open = match self.tools.get(tool_name) {
            Some(s) => matches!(s.circuit, CircuitState::HalfOpen),
            None => false,
        };
        if half_open {
            self.tools.insert(
                tool_name.to_owned(),
                ToolState { circuit: CircuitState::Closed, error_window: Vec::new() },
            );
        }
        assert(self@ =~= if old(self)@.contains_key(tool_name@) {
            old(self)@.insert(tool_name@, old(self)@[tool_name@].after_success())
        } else {
            old(self)@
        });
    }

    /// Takes note that a call of a tool failed, now.
    pub fn on_error(&mut self, tool_name: &str)
        ensures
            final(self).settings() == old(self).settings(),
            final(self).started() == old(self).started(),
            exists|now: u128|
                reads(old(self).started(), now as nat) && final(self)@ == old(self)@.insert(
                    tool_name@,
                    #[trigger] circuit_of(old(self)@, tool_name@).after_error(
                        old(self).settings(),
                        now,
                    ),
                ),
    {
        let now = self.now();
        self.on_error_at(tool_name, now);
    }

    /// Takes note that a call of a tool failed when the breaker's clock reads
    /// `now`.
    pub fn on_error_at(&mut self, tool_name: &str, now: u128)
        ensures
            final(self).settings() == old(self).settings(),
            final(self).started() == old(self).started(),
            final(self)@ == old(self)@.insert(
                tool_name@,
                circuit_of(old(self)@, tool_name@).after_error(old(self).settings(), now),
            ),
    {
        let ghost before = circuit_of(self@, tool_name@);
        let mut state = self.copy_of(tool_name);
        if matches!(state.circuit, CircuitState::HalfOpen) {
            state.circuit = CircuitState::Open { opened_at: now };
        } else {
            let window: u128 = self.config.window_seconds as u128 * NANOS;
            let mut kept: Vec<u128> = Vec::new();
            let mut i: usize = 0;
            let ghost pred = |t: u128|
                passed(t as nat, now as nat) < self.config.window_seconds as nat * NANOS as nat;
            while i < state.error_window.len()
                invariant
                    i <= state.error_window@.len(),
                    window == self.config.window_seconds as nat * NANOS as nat,
                    pred == (|t: u128|
                        passed(t as nat, now as nat) < self.config.window_seconds as nat
                            * NANOS as nat),
                    kept@ == state.error_window@.take(i as int).filter(pred),
                decreases state.error_window@.len() - i,
            {
                let t = state.error_window[i];
                let age: u128 = if now > t {
                    now - t
                } else {
                    0
                };
                proof {
                    reveal(Seq::filter);
                    assert(state.error_window@.take(i + 1).drop_last() =~= state.error_window@.take(
                        i as int,
                    ));
                }
                if age < window {
                    kept.push(t);
                }
                i += 1;
            }
            assert(state.error_window@.take(i as int) =~= state.error_window@);
            assert(kept@ == before.recent(self.config.window_seconds, now));
            kept.push(now);
            if kept.len() >= self.config.error_threshold {
                state.circuit = CircuitState::Open { opened_at: now };
            }
            state.error_window = kept;
        }
        assert(state@ == before.after_error(self.config, now));
        self.tools.insert(tool_name.to_owned(), state);
        assert(self@ =~= old(self)@.insert(tool_name@, before.after_error(self.config, now)));
    }

    /// Whether the circuit of a tool is closed, open or tried.
    pub fn state_kind(&self, tool_name: &str) -> (k: CircuitStateKind)
        ensures
            k == circuit_of(self@, tool_name@).kind(),
    {
        match self.tools.get(tool_name) {
            None => CircuitStateKind::Closed,
            Some(s) => match s.circuit {
                CircuitState::Closed => CircuitStateKind::Closed,
                CircuitState::Open { .. } => CircuitStateKind::Open,
                CircuitState::HalfOpen => CircuitStateKind::HalfOpen,
            },
        }
    }
}

/// The circuit after calls failed at these times, first to last.
pub open spec fn after_errors(c: Circuit, config: CircuitBreakerConfig, times: Seq<u128>) -> Circuit
    decreases times.len(),
{
    if times.len() == 0 {
        c
    } else {
        after_errors(c, config, times.drop_last()).after_error(config, times.last())
    }
}

/// Every one of these times is less than a window before every later one.
pub open spec fn within_window(times: Seq<u128>, window_seconds: u64) -> bool {
    forall|i: int, j: int|
        0 <= i <= j < times.len() ==> passed(
            #[trigger] times[i] as nat,
            #[trigger] times[j] as nat,
        ) < window_seconds as nat * NANOS as nat
}

proof fn lemma_keeps_all(s: Seq<u128>, pred: spec_fn(u128) -> bool)
    requires
        forall|i: int| 0 <= i < s.len() ==> pred(#[trigger] s[i]),
    ensures
        s.filter(pred) == s,
    decreases s.len(),
{
    reveal(Seq::filter);
    if s.len() > 0 {
        assert forall|i: int| 0 <= i < s.drop_last().len() implies pred(
            #[trigger] s.drop_last()[i],
        ) by {
            assert(s.drop_last()[i] == s[i]);
        }
        lemma_keeps_all(s.drop_last(), pred);
        assert(s.drop_last().push(s.last()) =~= s);
    }
}

proof fn lemma_drops_all(s: Seq<u128>, pred: spec_fn(u128) -> bool)
    requires
        forall|i: int| 0 <= i < s.len() ==> !pred(#[trigger] s[i]),
    ensures
        s.filter(pred) == Seq::<u128>::empty(),
    decreases s.len(),
{
    reveal(Seq::filter);
    if s.len() > 0 {
        assert forall|i: int| 0 <= i < s.drop_last().len() implies !pred(
            #[trigger] s.drop_last()[i],
        ) by {
            assert(s.drop_last()[i] == s[i]);
        }
        lemma_drops_all(s.drop_last(), pred);
    }
}

/// A circuit that sees errors within one window opens at the threshold: with one
/// error less it is closed, with that many or more it is open.
pub proof fn law_opens_at_the_threshold(config: CircuitBreakerConfig, times: Seq<u128>)
    requires
        config.error_threshold > 0,
        within_window(times, config.window_seconds),
    ensures
        after_errors(Circuit::fresh(), config, times).errors == times,
        after_errors(Circuit::fresh(), config, times).state == if times.len()
            >= config.error_threshold {
            CircuitState::Open { opened_at: times.last() }
        } else {
            CircuitState::Closed
        },
    decreases times.len(),
{
    if times.len() > 0 {
        let front = times.drop_last();
        let now = times.last();
        assert forall|i: int, j: int| 0 <= i <= j < front.len() implies passed(
            #[trigger] front[i] as nat,
            #[trigger] front[j] as nat,
        ) < config.window_seconds as nat * NANOS as nat by {
            assert(front[i] == times[i] && front[j] == times[j]);
        }
        law_opens_at_the_threshold(config, front);
        let pred = |t: u128|
            passed(t as nat, now as nat) < config.window_seconds as nat * NANOS as nat;
        assert forall|i: int| 0 <= i < front.len() implies pred(#[trigger] front[i]) by {
            assert(front[i] == times[i]);
            assert(passed(times[i] as nat, times[times.len() - 1] as nat) < config.window_seconds as nat
                * NANOS as nat);
        }
        lemma_keeps_all(front, pred);
        assert(front.push(now) =~= times);
    } else {
        assert(times =~= Seq::empty());
    }
}

/// Errors a window old or older no longer count.
pub proof fn law_old_errors_are_forgotten(c: Circuit, config: CircuitBreakerConfig, now: u128)
    requires
        c.state != CircuitState::HalfOpen,
        forall|i: int|
            0 <= i < c.errors.len() ==> passed(#[trigger] c.errors[i] as nat, now as nat)
                >= config.window_seconds as nat * NANOS as nat,
    ensures
        c.after_error(config, now).errors == seq![now],
{
    let pred = |t: u128|
        passed(t as nat, now as nat) < config.window_seconds as nat * NANOS as nat;
    lemma_drops_all(c.errors, pred);
    assert(Seq::<u128>::empty().push(now) =~= seq![now]);
}

/// An open circuit refuses calls until it has cooled down. Then it lets exactly
/// one call through, and refuses others until that call's outcome is known:
/// success closes it, an error opens it anew.
pub proof fn law_one_trial_after_the_cooldown(
    c: Circuit,
    config: CircuitBreakerConfig,
    opened_at: u128,
    now: u128,
    later: u128,
)
    requires
        c.state == (CircuitState::Open { opened_at }),
    ensures
        !Circuit::cooled(opened_at, config.cooldown_seconds as nat, now) ==> c.verdict(
            config.cooldown_seconds,
            now,
        ) is Open && c.after_check(config.cooldown_seconds, now) == c,
        Circuit::cooled(opened_at, config.cooldown_seconds as nat, now) ==> {
            let tried = c.after_check(config.cooldown_seconds, now);
            &&& c.verdict(config.cooldown_seconds, now) == CircuitDecision::Allow { is_probe: true }
            &&& tried.verdict(config.cooldown_seconds, later) is Open
            &&& tried.after_check(config.cooldown_seconds, later) == tried
            &&& tried.after_success() == Circuit::fresh()
            &&& tried.after_error(config, later).state == CircuitState::Open { opened_at: later }
        },
{
}

/// A caller whom an open circuit refuses and who waits as many seconds as told
/// finds it cooled down; the wait is too long by a second at most.
pub proof fn law_open_circuit_says_how_long_to_wait(
    c: Circuit,
    cooldown_seconds: u64,
    opened_at: u128,
    now: u128,
    retry_after_secs: u64,
    later: u128,
)
    requires
        c.state == (CircuitState::Open { opened_at }),
        c.verdict(cooldown_seconds, now) == (CircuitDecision::Open { retry_after_secs }),
        retry_after_secs < u64::MAX,
        opened_at <= now,
        now + retry_after_secs * NANOS <= later,
    ensures
        Circuit::cooled(opened_at, cooldown_seconds as nat, later),
        now - opened_at + (retry_after_secs - 1) * NANOS <= cooldown_seconds * NANOS,
{
    let left = cooldown_seconds as nat * NANOS as nat - passed(opened_at as nat, now as nat);
    assert(left / NANOS as int >= 0);
    assert(left < (left / NANOS as int + 1) * NANOS);
    assert((left / NANOS as int) * NANOS <= left);
}

/// What happens to one tool's circuit leaves the others as they are.
pub proof fn law_tools_have_their_own_circuits(
    tools: Map<Seq<char>, Circuit>,
    tool: Seq<char>,
    other: Seq<char>,
    c: Circuit,
)
    requires
        tool != other,
    ensures
        circuit_of(tools.insert(tool, c), other) == circuit_of(tools, other),
        circuit_of(tools.insert(tool, c), tool) == c,
{
}

} // verus!
