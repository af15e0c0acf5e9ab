//! What a circuit does with calls, told by the times of the calls and the errors.
use vstd::prelude::*;

use super::circuit_breaker::{
    after_errors, law_old_errors_are_forgotten, law_opens_at_the_threshold, within_window, Circuit,
    CircuitDecision, CircuitState, CircuitStateKind,
};
use super::history::{after_history, Happening};
use super::token_bucket::passed;
use crate::clock::NANOS;
use crate::config::CircuitBreakerConfig;

verus! {

/// A closed circuit lets every call through, as no trial, and stays as it is, whatever
/// errors it has counted and whatever the time.
pub proof fn law_closed_circuit_lets_every_call_through(
    c: Circuit,
    cooldown_seconds: u64,
    now: u128,
)
    requires
        c.state == CircuitState::Closed,
    ensures
        c.verdict(cooldown_seconds, now) == (CircuitDecision::Allow { is_probe: false }),
        c.after_check(cooldown_seconds, now) == c,
        c.kind() == CircuitStateKind::Closed,
{
}

/// How many calls failed.
pub open spec fn failures(history: Seq<Happening>) -> nat
    decreases history.len(),
{
    if history.len() == 0 {
        0
    } else {
        failures(history.drop_last()) + if history.last() is Failed {
            1nat
        } else {
            0nat
        }
    }
}

proof fn lemma_filter_keeps_no_more(s: Seq<u128>, pred: spec_fn(u128) -> bool)
    ensures
        s.filter(pred).len() <= s.len(),
    decreases s.len(),
{
    reveal(Seq::filter);
    if s.len() > 0 {
        lemma_filter_keeps_no_more(s.drop_last(), pred);
    }
}

proof fn lemma_few_errors(config: CircuitBreakerConfig, history: Seq<Happening>)
    requires
        failures(history) < config.error_threshold,
    ensures
        after_history(config, history).state == CircuitState::Closed,
        after_history(config, history).errors.len() <= failures(history),
    decreases history.len(),
{
    if history.len() > 0 {
        let front = history.drop_last();
        lemma_few_errors(config, front);
        let before = after_history(config, front);
        match history.last() {
            Happening::Failed { now } => {
                lemma_filter_keeps_no_more(
                    before.errors,
                    |t: u128|
                        passed(t as nat, now as nat) < config.window_seconds as nat * NANOS as nat,
                );
            },
            _ => {},
        }
    }
}

/// A tool of whose calls fewer have failed than the threshold, whenever they did and
/// whatever else happened, is called freely.
pub proof fn law_few_errors_cut_nothing_off(
    config: CircuitBreakerConfig,
    history: Seq<Happening>,
    now: u128,
)
    requires
        failures(history) < config.error_threshold,
    ensures
        after_history(config, history).state == CircuitState::Closed,
        after_history(config, history).verdict(config.cooldown_seconds, now) == (
        CircuitDecision::Allow { is_probe: false }),
        after_history(config, history).after_check(config.cooldown_seconds, now) == after_history(
            config,
            history,
        ),
{
    lemma_few_errors(config, history);
}

/// An open circuit refuses a call if and only if the cooldown has not passed since it
/// opened, and stays as it is. The caller is told the whole seconds that are left, and
/// one more. The first call after the cooldown is let through as a trial.
pub proof fn law_open_circuit_refuses_for_the_cooldown(
    c: Circuit,
    opened_at: u128,
    cooldown_seconds: u64,
    now: u128,
)
    requires
        c.state == (CircuitState::Open { opened_at }),
        opened_at <= now,
    ensures
        c.kind() == CircuitStateKind::Open,
        now < opened_at + cooldown_seconds * 1_000_000_000 ==> {
            let left = opened_at + cooldown_seconds * 1_000_000_000 - now;
            &&& c.after_check(cooldown_seconds, now) == c
            &&& c.verdict(cooldown_seconds, now) matches CircuitDecision::Open { retry_after_secs }
            &&& cooldown_seconds < u64::MAX || retry_after_secs < u64::MAX ==> (retry_after_secs
                - 1) * 1_000_000_000 <= left < retry_after_secs * 1_000_000_000
        },
        now >= opened_at + cooldown_seconds * 1_000_000_000 ==> {
            &&& c.verdict(cooldown_seconds, now) == (CircuitDecision::Allow { is_probe: true })
            &&& c.after_check(cooldown_seconds, now) == (Circuit {
                state: CircuitState::HalfOpen,
                errors: c.errors,
            })
        },
{
    let left = opened_at + cooldown_seconds * 1_000_000_000 - now;
    if left > 0 {
        assert(left == cooldown_seconds as nat * NANOS as nat - passed(
            opened_at as nat,
            now as nat,
        ));
        assert(left < (left / 1_000_000_000 + 1) * 1_000_000_000);
        assert((left / 1_000_000_000) * 1_000_000_000 <= left);
        assert(left / 1_000_000_000 <= cooldown_seconds);
    }
}

/// An open circuit on a clock that has run back counts as opened just now: it refuses,
/// where there is a cooldown at all.
pub proof fn law_clock_that_runs_back_opens_nothing(
    c: Circuit,
    opened_at: u128,
    cooldown_seconds: u64,
    now: u128,
)
    requires
        c.state == (CircuitState::Open { opened_at }),
        now < opened_at,
        cooldown_seconds > 0,
    ensures
        c.verdict(cooldown_seconds, now) is Open,
        c.after_check(cooldown_seconds, now) == c,
{
}

/// While a trial is under way every other call is refused, with the cooldown as the
/// time to wait. If the trial goes well the circuit is as new; if it fails the circuit
/// opens at that time.
pub proof fn law_trial_decides(
    c: Circuit,
    config: CircuitBreakerConfig,
    now: u128,
)
    requires
        c.state == CircuitState::HalfOpen,
    ensures
        c.kind() == CircuitStateKind::HalfOpen,
        c.verdict(config.cooldown_seconds, now) == (CircuitDecision::Open {
            retry_after_secs: config.cooldown_seconds,
        }),
        c.after_check(config.cooldown_seconds, now) == c,
        c.after_success().state == CircuitState::Closed,
        c.after_success().errors.len() == 0,
        c.after_error(config, now).state == (CircuitState::Open { opened_at: now }),
        c.after_error(config, now).errors == c.errors,
{
}

proof fn lemma_filter_contains(s: Seq<u128>, pred: spec_fn(u128) -> bool, t: u128)
    ensures
        s.filter(pred).contains(t) <==> s.contains(t) && pred(t),
    decreases s.len(),
{
    reveal(Seq::filter);
    if s.len() > 0 {
        let front = s.drop_last();
        let last = s.last();
        lemma_filter_contains(front, pred, t);
        assert(front.push(last) =~= s);
        if front.contains(t) {
            let i = choose|i: int| 0 <= i < front.len() && front[i] == t;
            assert(s[i] == t);
        }
        if s.contains(t) && t != last {
            let i = choose|i: int| 0 <= i < s.len() && s[i] == t;
            assert(front[i] == t);
        }
        if s.contains(t) && t == last {
            assert(s[s.len() - 1] == t);
        }
        if t == last {
            assert(s[s.len() - 1] == t);
        }
        let kept = front.filter(pred);
        if pred(last) {
            assert(s.filter(pred) == kept.push(last));
            if kept.contains(t) {
                let i = choose|i: int| 0 <= i < kept.len() && kept[i] == t;
                assert(kept.push(last)[i] == t);
            }
            if kept.push(last).contains(t) && t != last {
                let i = choose|i: int| 0 <= i < kept.push(last).len() && kept.push(last)[i] == t;
                assert(kept[i] == t);
            }
            assert(kept.push(last)[kept.len() as int] == last);
        }
    }
}

/// An error of a circuit that is not tried is counted, with those before it that lie less
/// than a window back and no others; if they are as many as the threshold the circuit
/// opens at that time, else it stays as it was.
pub proof fn law_errors_of_the_last_window_count(
    c: Circuit,
    config: CircuitBreakerConfig,
    now: u128,
    t: u128,
)
    requires
        c.state != CircuitState::HalfOpen,
        t < now,
    ensures
        ({
            let after = c.after_error(config, now);
            &&& after.errors.len() > 0
            &&& after.errors.last() == now
            &&& after.errors.contains(t) <==> c.errors.contains(t) && now - t
                < config.window_seconds * 1_000_000_000
            &&& after.errors.len() >= config.error_threshold ==> after.state == (
            CircuitState::Open { opened_at: now })
            &&& after.errors.len() < config.error_threshold ==> after.state == c.state
        }),
{
    let pred = |e: u128|
        passed(e as nat, now as nat) < config.window_seconds as nat * NANOS as nat;
    let kept = c.errors.filter(pred);
    lemma_filter_contains(c.errors, pred, t);
    let all = kept.push(now);
    assert(c.after_error(config, now).errors == all);
    if kept.contains(t) {
        let i = choose|i: int| 0 <= i < kept.len() && kept[i] == t;
        assert(all[i] == t);
    }
    if all.contains(t) {
        let i = choose|i: int| 0 <= i < all.len() && all[i] == t;
        assert(kept[i] == t);
    }
}

/// Success changes a circuit only if it is tried.
pub proof fn law_success_changes_only_a_tried_circuit(c: Circuit)
    requires
        c.state != CircuitState::HalfOpen,
    ensures
        c.after_success() == c,
{
}

/// Calls that failed within less than a window of each other, as many as the threshold
/// or more, cut the tool off: until the cooldown has passed since the last of them
/// every call is refused, and the first one after it is a trial.
pub proof fn law_threshold_errors_cut_off(
    config: CircuitBreakerConfig,
    times: Seq<u128>,
    now: u128,
)
    requires
        config.error_threshold > 0,
        times.len() >= config.error_threshold,
        forall|i: int, j: int|
            0 <= i <= j < times.len() ==> #[trigger] times[i] <= #[trigger] times[j] < times[i]
                + config.window_seconds * 1_000_000_000,
        times.last() <= now,
    ensures
        ({
            let c = after_errors(Circuit::fresh(), config, times);
            &&& now < times.last() + config.cooldown_seconds * 1_000_000_000 ==> c.verdict(
                config.cooldown_seconds,
                now,
            ) is Open
            &&& now >= times.last() + config.cooldown_seconds * 1_000_000_000 ==> c.verdict(
                config.cooldown_seconds,
                now,
            ) == (CircuitDecision::Allow { is_probe: true })
        }),
{
    assert forall|i: int, j: int| 0 <= i <= j < times.len() implies passed(
        #[trigger] times[i] as nat,
        #[trigger] times[j] as nat,
    ) < config.window_seconds as nat * NANOS as nat by {}
    assert(within_window(times, config.window_seconds));
    law_opens_at_the_threshold(config, times);
    let c = after_errors(Circuit::fresh(), config, times);
    law_open_circuit_refuses_for_the_cooldown(c, times.last(), config.cooldown_seconds, now);
}

/// Calls that failed a window or more apart do not add up: where the threshold is more
/// than one they leave the circuit closed, however many they are.
pub proof fn law_errors_far_apart_do_not_add_up(config: CircuitBreakerConfig, times: Seq<u128>)
    requires
        config.error_threshold > 1,
        config.window_seconds > 0,
        forall|i: int|
            0 <= i < times.len() - 1 ==> (#[trigger] times[i]) + config.window_seconds
                * 1_000_000_000 <= times[i + 1],
    ensures
        after_errors(Circuit::fresh(), config, times).state == CircuitState::Closed,
        times.len() > 0 ==> after_errors(Circuit::fresh(), config, times).errors == seq![
            times.last(),
        ],
    decreases times.len(),
{
    if times.len() > 0 {
        let front = times.drop_last();
        let now = times.last();
        assert forall|i: int| 0 <= i < front.len() - 1 implies (#[trigger] front[i])
            + config.window_seconds * 1_000_000_000 <= front[i + 1] by {
            assert(front[i] == times[i]);
            assert(front[i + 1] == times[i + 1]);
        }
        law_errors_far_apart_do_not_add_up(config, front);
        let before = after_errors(Circuit::fresh(), config, front);
        assert forall|i: int| 0 <= i < before.errors.len() implies passed(
            #[trigger] before.errors[i] as nat,
            now as nat,
        ) >= config.window_seconds as nat * NANOS as nat by {
            let last = times.len() - 2;
            assert(front.last() == times[last]);
            assert(times[last + 1] == now);
        }
        law_old_errors_are_forgotten(before, config, now);
    }
}

} // verus!
