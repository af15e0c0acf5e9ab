//! What a circuit remembers of the calls of its tool.
use vstd::prelude::*;

use super::circuit_breaker::{Circuit, CircuitState};
use super::token_bucket::passed;
use crate::clock::NANOS;
use crate::config::CircuitBreakerConfig;

verus! {

/// What happens to a circuit.
pub enum Happening {
    /// A call was decided on.
    Checked { now: u128 },
    /// A call succeeded.
    Succeeded,
    /// A call failed.
    Failed { now: u128 },
}

impl Circuit {
    /// The circuit after something happened.
    pub open spec fn after(self, config: CircuitBreakerConfig, h: Happening) -> Circuit {
        match h {
            Happening::Checked { now } => self.after_check(config.cooldown_seconds, now),
            Happening::Succeeded => self.after_success(),
            Happening::Failed { now } => self.after_error(config, now),
        }
    }
}

/// A new circuit after all this happened.
pub open spec fn after_history(config: CircuitBreakerConfig, history: Seq<Happening>) -> Circuit
    decreases history.len(),
{
    if history.len() == 0 {
        Circuit::fresh()
    } else {
        after_history(config, history.drop_last()).after(config, history.last())
    }
}

/// When calls failed since the circuit last closed, or since it is there.
pub open spec fn failures_since_closed(
    config: CircuitBreakerConfig,
    history: Seq<Happening>,
) -> Seq<u128>
    decreases history.len(),
{
    if history.len() == 0 {
        Seq::empty()
    } else {
        let before = failures_since_closed(config, history.drop_last());
        match history.last() {
            Happening::Checked { .. } => before,
            Happening::Succeeded => if after_history(config, history.drop_last()).state
                == CircuitState::HalfOpen {
                Seq::empty()
            } else {
                before
            },
            Happening::Failed { now } => before.push(now),
        }
    }
}

/// Those of these times that lie less than a window before `now`.
pub open spec fn of_last_window(times: Seq<u128>, window_seconds: u64, now: u128) -> Seq<u128> {
    times.filter(|t: u128| passed(t as nat, now as nat) < window_seconds as nat * NANOS as nat)
}

/// No call failed after `now`, and none before one that failed earlier: the clock
/// does not run back.
pub open spec fn in_order(history: Seq<Happening>, now: u128) -> bool
    decreases history.len(),
{
    history.len() > 0 ==> match history.last() {
        Happening::Failed { now: last } => last <= now && in_order(history.drop_last(), last),
        _ => in_order(history.drop_last(), now),
    }
}

/// To keep what passes one test, and then of that what passes a stricter one, is
/// to keep what passes the stricter one.
proof fn lemma_filtered_twice(
    s: Seq<u128>,
    p: spec_fn(u128) -> bool,
    stricter: spec_fn(u128) -> bool,
)
    requires
        forall|t: u128| #[trigger] stricter(t) ==> p(t),
    ensures
        s.filter(p).filter(stricter) == s.filter(stricter),
    decreases s.len(),
{
    reveal(Seq::filter);
    if s.len() > 0 {
        let front = s.drop_last();
        lemma_filtered_twice(front, p, stricter);
        if p(s.last()) {
            assert(front.filter(p).push(s.last()).drop_last() =~= front.filter(p));
        }
    }
}

/// While a circuit is closed, what it remembers and what happened since it closed
/// hold the same failures of the last window.
proof fn lemma_remembers(config: CircuitBreakerConfig, history: Seq<Happening>, now: u128)
    requires
        in_order(history, now),
        after_history(config, history).state == CircuitState::Closed,
    ensures
        of_last_window(after_history(config, history).errors, config.window_seconds, now)
            == of_last_window(failures_since_closed(config, history), config.window_seconds, now),
    decreases history.len(),
{
    if history.len() > 0 {
        let front = history.drop_last();
        let before = after_history(config, front);
        let window = config.window_seconds;
        match history.last() {
            Happening::Checked { .. } => {
                lemma_remembers(config, front, now);
            },
            Happening::Succeeded => {
                if before.state != CircuitState::HalfOpen {
                    lemma_remembers(config, front, now);
                }
            },
            Happening::Failed { now: last } => {
                lemma_remembers(config, front, last);
                let seen = failures_since_closed(config, front);
                let then = |t: u128|
                    passed(t as nat, last as nat) < window as nat * NANOS as nat;
                let at_now = |t: u128|
                    passed(t as nat, now as nat) < window as nat * NANOS as nat;
                lemma_filtered_twice(seen, then, at_now);
                lemma_filtered_twice(before.errors, then, at_now);
                let kept = before.errors.filter(then);
                reveal(Seq::filter);
                assert(kept.push(last).drop_last() =~= kept);
                assert(seen.push(last).drop_last() =~= seen);
                assert(kept == seen.filter(then));
                assert(after_history(config, history).errors == kept.push(last));
            },
        }
    }
}

/// A closed circuit opens with an error if and only if that error and those of the
/// last window since the circuit last closed are as many as the threshold, whatever
/// happened before. One that is tried opens with any error, and an open one stays
/// open.
pub proof fn law_counts_the_errors_of_the_last_window(
    config: CircuitBreakerConfig,
    history: Seq<Happening>,
    now: u128,
)
    requires
        in_order(history, now),
    ensures
        ({
            let before = after_history(config, history);
            let after = before.after_error(config, now);
            let counted = of_last_window(
                failures_since_closed(config, history),
                config.window_seconds,
                now,
            ).len();
            match before.state {
                CircuitState::Closed => after.state == if counted + 1 >= config.error_threshold {
                    CircuitState::Open { opened_at: now }
                } else {
                    CircuitState::Closed
                },
                CircuitState::HalfOpen => after.state == (CircuitState::Open { opened_at: now }),
                CircuitState::Open { .. } => after.state is Open,
            }
        }),
{
    let before = after_history(config, history);
    if before.state == CircuitState::Closed {
        lemma_remembers(config, history, now);
        assert(before.recent(config.window_seconds, now) == of_last_window(
            before.errors,
            config.window_seconds,
            now,
        ));
    }
}

} // verus!
