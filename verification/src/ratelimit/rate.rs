//! How many calls pass in how long a time.
use vstd::arithmetic::div_mod::{lemma_fundamental_div_mod, lemma_mod_bound};
use vstd::arithmetic::mul::{
    lemma_mul_inequality, lemma_mul_is_commutative, lemma_mul_is_distributive_add,
    lemma_mul_is_distributive_sub,
};
use vstd::prelude::*;

use super::limiter::{LimitVerdict, Limits};
use super::token_bucket::{
    after_calls, law_no_more_than_the_rate, lemma_full_is_sound, served,
    Bucket, MOST_SHARES,
};

verus! {

/// A bucket was last filled when the latest call came.
proof fn lemma_filled_last(b: Bucket, times: Seq<nat>, latest: nat)
    requires
        b.at <= latest,
        forall|i: int| 0 <= i < times.len() ==> #[trigger] times[i] <= latest,
    ensures
        b.at <= after_calls(b, times).at <= latest,
    decreases times.len(),
{
    if times.len() > 0 {
        let front = times.drop_last();
        assert forall|i: int| 0 <= i < front.len() implies #[trigger] front[i] <= latest by {
            assert(front[i] == times[i]);
        }
        assert(times.last() == times[times.len() - 1]);
        lemma_filled_last(b, front, latest);
    }
}

/// A full bucket allows no more calls in a window than it was made for, and as many
/// where they can be counted.
proof fn lemma_full(calls: nat, seconds: nat, now: nat)
    requires
        0 < seconds <= u64::MAX,
    ensures
        Bucket::full(calls, seconds, now).sound(),
        Bucket::full(calls, seconds, now).limit <= calls,
        Bucket::full(calls, seconds, now).window == seconds * 1_000_000_000,
        Bucket::full(calls, seconds, now).at == now,
        calls * (seconds * 1_000_000_000) <= MOST_SHARES ==> Bucket::full(
            calls,
            seconds,
            now,
        ).limit == calls,
{
    lemma_full_is_sound(calls, seconds, now);
    let window = (seconds * 1_000_000_000) as int;
    let most = MOST_SHARES as int / window;
    if calls * window <= MOST_SHARES && calls > most {
        lemma_fundamental_div_mod(MOST_SHARES as int, window);
        lemma_mod_bound(MOST_SHARES as int, window);
        lemma_mul_inequality(most + 1, calls as int, window);
        lemma_mul_is_commutative(window, most);
        lemma_mul_is_distributive_add(window, most, 1);
        lemma_mul_is_commutative(window, most + 1);
    }
}

/// Of calls that come in a span of nanoseconds from when a bucket was made for so
/// many calls in so many seconds, no more pass than those, and as many again for
/// every such time in the span.
pub proof fn law_calls_in_a_span(
    calls: nat,
    seconds: nat,
    start: nat,
    times: Seq<nat>,
    span: nat,
)
    requires
        0 < seconds <= u64::MAX,
        forall|i: int| 0 <= i < times.len() ==> #[trigger] times[i] <= start + span,
    ensures
        served(Bucket::full(calls, seconds, start), times) * (seconds * 1_000_000_000) <= calls * (
        seconds * 1_000_000_000 + span),
{
    let b = Bucket::full(calls, seconds, start);
    lemma_full(calls, seconds, start);
    law_no_more_than_the_rate(b, times);
    lemma_filled_last(b, times, start + span);
    let past = after_calls(b, times).at - start;
    lemma_mul_inequality(past, span as int, b.limit as int);
    lemma_mul_is_commutative(span as int, b.limit as int);
    lemma_mul_is_distributive_add(b.limit as int, b.window as int, span as int);
    lemma_mul_inequality(b.limit as int, calls as int, (b.window + span) as int);
}

/// What time adds to a bucket it adds whether or not one looks at it in between.
proof fn lemma_filled_first(b: Bucket, from: nat, times: Seq<nat>)
    requires
        b.sound(),
        b.at <= from,
        forall|i: int| 0 <= i < times.len() ==> from <= #[trigger] times[i],
    ensures
        served(b.filled(from), times) == served(b, times),
        times.len() > 0 ==> after_calls(b.filled(from), times) == after_calls(b, times),
    decreases times.len(),
{
    if times.len() > 0 {
        let front = times.drop_last();
        let now = times.last();
        assert(now == times[times.len() - 1]);
        assert forall|i: int| 0 <= i < front.len() implies from <= #[trigger] front[i] by {
            assert(front[i] == times[i]);
        }
        lemma_filled_first(b, from, front);
        if front.len() == 0 {
            let limit = b.limit as int;
            lemma_mul_is_distributive_add(limit, from - b.at, now - from);
            lemma_mul_is_commutative(limit, from - b.at);
            lemma_mul_is_commutative(limit, now - from);
            lemma_mul_is_commutative(limit, now - b.at);
            lemma_mul_inequality(0, now - from, limit);
            lemma_mul_inequality(0, from - b.at, limit);
            assert(b.filled(from).filled(now) == b.filled(now));
        }
    }
}

/// Of calls that come in any span of nanoseconds, whatever calls came before it, no
/// more pass than the bucket was made for, and as many again for every such time in
/// the span.
#[verifier::rlimit(40)]
pub proof fn law_calls_in_any_span(
    calls: nat,
    seconds: nat,
    start: nat,
    earlier: Seq<nat>,
    times: Seq<nat>,
    from: nat,
    span: nat,
)
    requires
        0 < seconds <= u64::MAX,
        start <= from,
        forall|i: int| 0 <= i < earlier.len() ==> #[trigger] earlier[i] <= from,
        forall|i: int| 0 <= i < times.len() ==> from <= #[trigger] times[i] <= from + span,
    ensures
        served(after_calls(Bucket::full(calls, seconds, start), earlier), times) * (seconds
            * 1_000_000_000) <= calls * (seconds * 1_000_000_000 + span),
{
    let full = Bucket::full(calls, seconds, start);
    lemma_full(calls, seconds, start);
    law_no_more_than_the_rate(full, earlier);
    lemma_filled_last(full, earlier, from);
    let mid = after_calls(full, earlier);
    let b = mid.filled(from);
    lemma_filled_first(mid, from, times);
    law_no_more_than_the_rate(b, times);
    lemma_filled_last(b, times, from + span);
    let past = after_calls(b, times).at - from;
    lemma_mul_inequality(past, span as int, b.limit as int);
    lemma_mul_is_commutative(span as int, b.limit as int);
    lemma_mul_is_distributive_add(b.limit as int, b.window as int, span as int);
    lemma_mul_inequality(b.limit as int, calls as int, (b.window + span) as int);
}

/// The first calls, as many as the bucket was made for, all pass, whenever they come.
#[verifier::rlimit(40)]
pub proof fn law_first_calls_pass(calls: nat, seconds: nat, start: nat, times: Seq<nat>)
    requires
        0 < seconds <= u64::MAX,
        calls * (seconds * 1_000_000_000) <= MOST_SHARES,
        times.len() <= calls,
    ensures
        served(Bucket::full(calls, seconds, start), times) == times.len(),
        after_calls(Bucket::full(calls, seconds, start), times).level >= (calls - times.len()) * (
        seconds * 1_000_000_000),
    decreases times.len(),
{
    let b = Bucket::full(calls, seconds, start);
    lemma_full(calls, seconds, start);
    if times.len() > 0 {
        let front = times.drop_last();
        law_first_calls_pass(calls, seconds, start, front);
        law_no_more_than_the_rate(b, front);
        let mid = after_calls(b, front);
        let window = b.window as int;
        let left = calls - front.len();
        lemma_mul_inequality(1, left, window);
        lemma_mul_is_distributive_sub(window, left, 1);
        lemma_mul_is_commutative(window, left);
        lemma_mul_is_commutative(window, left - 1);
        lemma_mul_inequality(left, calls as int, window);
        let now = times.last();
        let gain = (now - mid.at) * b.limit;
        if now > mid.at {
            lemma_mul_inequality(0, now - mid.at, b.limit as int);
        }
        assert(mid.filled(now).level >= left * window);
        assert(mid.filled(now).has_token());
    }
}

/// Calls that come no faster than the bucket fills all pass.
#[verifier::rlimit(40)]
pub proof fn law_slow_calls_pass(calls: nat, seconds: nat, start: nat, times: Seq<nat>)
    requires
        0 < seconds <= u64::MAX,
        calls > 0,
        calls * (seconds * 1_000_000_000) <= MOST_SHARES,
        times.len() > 0 ==> start <= times[0],
        forall|i: int|
            0 <= i < times.len() - 1 ==> (#[trigger] times[i]) <= times[i + 1] && (times[i + 1]
                - times[i]) * calls >= seconds * 1_000_000_000,
    ensures
        served(Bucket::full(calls, seconds, start), times) == times.len(),
        times.len() > 0 ==> after_calls(Bucket::full(calls, seconds, start), times).at
            == times.last(),
    decreases times.len(),
{
    let b = Bucket::full(calls, seconds, start);
    lemma_full(calls, seconds, start);
    if times.len() > 0 {
        let front = times.drop_last();
        assert forall|i: int| 0 <= i < front.len() - 1 implies (#[trigger] front[i]) <= front[i + 1]
            && (front[i + 1] - front[i]) * calls >= seconds * 1_000_000_000 by {
            assert(front[i] == times[i]);
            assert(front[i + 1] == times[i + 1]);
        }
        law_slow_calls_pass(calls, seconds, start, front);
        law_no_more_than_the_rate(b, front);
        let mid = after_calls(b, front);
        lemma_mul_inequality(1, calls as int, b.window as int);
        if front.len() > 0 {
            let i = times.len() - 2;
            assert(front.last() == times[i]);
            assert(times.last() == times[i + 1]);
        }
    }
}

/// A bucket that has rested for its whole time lets a call through, whatever calls
/// came before.
pub proof fn law_rested_bucket_lets_through(
    calls: nat,
    seconds: nat,
    start: nat,
    times: Seq<nat>,
    latest: nat,
    now: nat,
)
    requires
        0 < seconds <= u64::MAX,
        calls > 0,
        calls * (seconds * 1_000_000_000) <= MOST_SHARES,
        start <= latest,
        forall|i: int| 0 <= i < times.len() ==> #[trigger] times[i] <= latest,
        latest + seconds * 1_000_000_000 <= now,
    ensures
        after_calls(Bucket::full(calls, seconds, start), times).admits(now),
{
    let b = Bucket::full(calls, seconds, start);
    lemma_full(calls, seconds, start);
    law_no_more_than_the_rate(b, times);
    lemma_filled_last(b, times, latest);
    let end = after_calls(b, times);
    lemma_mul_inequality(1, calls as int, b.window as int);
    lemma_mul_inequality(b.window as int, now - end.at, calls as int);
    lemma_mul_is_commutative(b.window as int, calls as int);
}

/// A window of no length fills at once: a call that comes later than all before it is
/// let through, where any may.
pub proof fn law_no_window_means_no_wait(
    calls: nat,
    start: nat,
    times: Seq<nat>,
    latest: nat,
    now: nat,
)
    requires
        0 < calls <= u64::MAX,
        start <= latest < now,
        forall|i: int| 0 <= i < times.len() ==> #[trigger] times[i] <= latest,
    ensures
        after_calls(Bucket::full(calls, 0, start), times).admits(now),
{
    let b = Bucket::full(calls, 0, start);
    lemma_full_is_sound(calls, 0, start);
    law_no_more_than_the_rate(b, times);
    lemma_filled_last(b, times, latest);
    let end = after_calls(b, times);
    assert(MOST_SHARES as nat / 1 == MOST_SHARES);
    assert(b.limit == calls);
    lemma_mul_inequality(1, now - end.at, calls as int);
}

/// A limit of no calls lets none through.
pub proof fn law_no_calls_means_none(seconds: nat, start: nat, times: Seq<nat>)
    requires
        0 < seconds <= u64::MAX,
    ensures
        served(Bucket::full(0, seconds, start), times) == 0,
    decreases times.len(),
{
    let b = Bucket::full(0, seconds, start);
    lemma_full(0, seconds, start);
    if times.len() > 0 {
        law_no_calls_means_none(seconds, start, times.drop_last());
        law_no_more_than_the_rate(b, times.drop_last());
    }
}

/// A call of a tool at a time.
pub struct CallAt {
    pub tool: Seq<char>,
    pub now: nat,
}

/// The limits after these calls, first to last.
pub open spec fn after_all(l: Limits, calls: Seq<CallAt>) -> Limits
    decreases calls.len(),
{
    if calls.len() == 0 {
        l
    } else {
        after_all(l, calls.drop_last()).after_call(calls.last().tool, calls.last().now)
    }
}

/// How many of these calls pass.
pub open spec fn passing(l: Limits, calls: Seq<CallAt>) -> nat
    decreases calls.len(),
{
    if calls.len() == 0 {
        0
    } else {
        let before = after_all(l, calls.drop_last());
        passing(l, calls.drop_last()) + if before.verdict(calls.last().tool, calls.last().now)
            == LimitVerdict::Allow {
            1nat
        } else {
            0nat
        }
    }
}

/// How many of these calls are of one tool and pass.
pub open spec fn passing_of(l: Limits, calls: Seq<CallAt>, tool: Seq<char>) -> nat
    decreases calls.len(),
{
    if calls.len() == 0 {
        0
    } else {
        let before = after_all(l, calls.drop_last());
        passing_of(l, calls.drop_last(), tool) + if calls.last().tool == tool && before.verdict(
            tool,
            calls.last().now,
        ) == LimitVerdict::Allow {
            1nat
        } else {
            0nat
        }
    }
}

/// Limits that have met no call.
pub open spec fn unused(l: Limits, calls: nat, per_tool: nat, start: nat) -> bool {
    &&& l.global == Bucket::full(calls, 60, start)
    &&& l.per_tool_max == per_tool
    &&& l.per_tool == Map::<Seq<char>, Bucket>::empty()
}

/// When the calls came.
spec fn all_times(calls: Seq<CallAt>) -> Seq<nat> {
    Seq::new(calls.len(), |i: int| calls[i].now)
}

/// When the calls of a tool came that drew on its own bucket.
spec fn own_times(l: Limits, calls: Seq<CallAt>, tool: Seq<char>) -> Seq<nat>
    decreases calls.len(),
{
    if calls.len() == 0 {
        Seq::empty()
    } else {
        let front = own_times(l, calls.drop_last(), tool);
        if calls.last().tool == tool && after_all(l, calls.drop_last()).global.admits(
            calls.last().now,
        ) {
            front.push(calls.last().now)
        } else {
            front
        }
    }
}

proof fn lemma_global(l: Limits, calls: Seq<CallAt>)
    ensures
        after_all(l, calls).global == after_calls(l.global, all_times(calls)),
        after_all(l, calls).per_tool_max == l.per_tool_max,
        passing(l, calls) <= served(l.global, all_times(calls)),
    decreases calls.len(),
{
    if calls.len() > 0 {
        lemma_global(l, calls.drop_last());
        assert(all_times(calls).drop_last() =~= all_times(calls.drop_last()));
        assert(all_times(calls).last() == calls.last().now);
    } else {
        assert(all_times(calls) =~= Seq::empty());
    }
}

proof fn lemma_own(l: Limits, calls: Seq<CallAt>, tool: Seq<char>)
    requires
        l.per_tool == Map::<Seq<char>, Bucket>::empty(),
    ensures
        ({
            let times = own_times(l, calls, tool);
            let after = after_all(l, calls);
            let full = Bucket::full(l.per_tool_max, 60, times[0]);
            &&& after.per_tool.contains_key(tool) <==> times.len() > 0
            &&& times.len() > 0 ==> after.per_tool[tool] == after_calls(full, times)
            &&& times.len() > 0 ==> passing_of(l, calls, tool) == served(full, times)
            &&& times.len() == 0 ==> passing_of(l, calls, tool) == 0
            &&& after.per_tool_max == l.per_tool_max
        }),
    decreases calls.len(),
{
    if calls.len() > 0 {
        let front = calls.drop_last();
        lemma_own(l, front, tool);
        let before = own_times(l, front, tool);
        let times = own_times(l, calls, tool);
        if times.len() > before.len() {
            assert(times.drop_last() =~= before);
            assert(times.last() == calls.last().now);
            if before.len() == 0 {
                let full = Bucket::full(l.per_tool_max, 60, times[0]);
                assert(after_calls(full, before) == full);
                assert(served(full, before) == 0);
            } else {
                assert(times[0] == before[0]);
            }
        }
    }
}

/// Of the times of a tool's own calls none is earlier or later than all calls.
proof fn lemma_own_between(l: Limits, calls: Seq<CallAt>, tool: Seq<char>, start: nat, end: nat)
    requires
        forall|i: int| 0 <= i < calls.len() ==> start <= (#[trigger] calls[i]).now <= end,
    ensures
        forall|i: int|
            0 <= i < own_times(l, calls, tool).len() ==> start <= #[trigger] own_times(
                l,
                calls,
                tool,
            )[i] <= end,
    decreases calls.len(),
{
    if calls.len() > 0 {
        let front = calls.drop_last();
        assert forall|i: int| 0 <= i < front.len() implies start <= (#[trigger] front[i]).now
            <= end by {
            assert(front[i] == calls[i]);
        }
        assert(calls.last() == calls[calls.len() - 1]);
        lemma_own_between(l, front, tool, start, end);
        let times = own_times(l, calls, tool);
        let before = own_times(l, front, tool);
        assert forall|i: int| 0 <= i < times.len() implies start <= #[trigger] times[i] <= end by {
            if i < before.len() {
                assert(times[i] == before[i]);
            }
        }
    }
}

/// Of calls that come in a span of nanoseconds no more pass than a minute allows, and
/// as many again for every minute in the span.
pub proof fn law_minute_limits_all_calls(
    l: Limits,
    per_minute: nat,
    per_tool: nat,
    start: nat,
    calls: Seq<CallAt>,
    span: nat,
)
    requires
        unused(l, per_minute, per_tool, start),
        forall|i: int| 0 <= i < calls.len() ==> (#[trigger] calls[i]).now <= start + span,
    ensures
        passing(l, calls) * 60_000_000_000 <= per_minute * (60_000_000_000 + span),
{
    lemma_global(l, calls);
    let times = all_times(calls);
    assert forall|i: int| 0 <= i < times.len() implies #[trigger] times[i] <= start + span by {
        assert(times[i] == calls[i].now);
    }
    law_calls_in_a_span(per_minute, 60, start, times, span);
    let most = served(l.global, times);
    lemma_mul_inequality(passing(l, calls) as int, most as int, 60_000_000_000);
    assert(most * 60_000_000_000 <= per_minute * (60_000_000_000 + span));
}

/// Of calls of one tool that come in a span of nanoseconds no more pass than a minute
/// allows of a tool, and as many again for every minute in the span, whatever other
/// tools are called.
pub proof fn law_minute_limits_each_tool(
    l: Limits,
    per_minute: nat,
    per_tool: nat,
    start: nat,
    calls: Seq<CallAt>,
    tool: Seq<char>,
    from: nat,
    span: nat,
)
    requires
        unused(l, per_minute, per_tool, start),
        forall|i: int| 0 <= i < calls.len() ==> from <= (#[trigger] calls[i]).now <= from + span,
    ensures
        passing_of(l, calls, tool) * 60_000_000_000 <= per_tool * (60_000_000_000 + span),
{
    lemma_own(l, calls, tool);
    lemma_own_between(l, calls, tool, from, from + span);
    let times = own_times(l, calls, tool);
    if times.len() > 0 {
        assert(from <= times[0]);
        law_calls_in_a_span(per_tool, 60, times[0], times, span);
    } else {
        assert(per_tool * (60_000_000_000 + span) >= 0) by (nonlinear_arith);
    }
}

/// After a minute without calls a call passes, where a minute allows any of all tools
/// and of each.
pub proof fn law_quiet_minute_lets_through(
    l: Limits,
    per_minute: nat,
    per_tool: nat,
    start: nat,
    calls: Seq<CallAt>,
    tool: Seq<char>,
    latest: nat,
    now: nat,
)
    requires
        unused(l, per_minute, per_tool, start),
        0 < per_minute <= u64::MAX,
        0 < per_tool <= u64::MAX,
        start <= latest,
        forall|i: int| 0 <= i < calls.len() ==> (#[trigger] calls[i]).now <= latest,
        latest + 60_000_000_000 <= now,
    ensures
        after_all(l, calls).verdict(tool, now) == LimitVerdict::Allow,
{
    lemma_global(l, calls);
    let times = all_times(calls);
    assert forall|i: int| 0 <= i < times.len() implies #[trigger] times[i] <= latest by {
        assert(times[i] == calls[i].now);
    }
    lemma_mul_inequality(per_minute as int, u64::MAX as int, 60_000_000_000);
    lemma_mul_inequality(per_tool as int, u64::MAX as int, 60_000_000_000);
    law_rested_bucket_lets_through(per_minute, 60, start, times, latest, now);
    lemma_own(l, calls, tool);
    let own = own_times(l, calls, tool);
    if own.len() > 0 {
        lemma_own_between(l, calls, tool, 0, latest);
        law_rested_bucket_lets_through(per_tool, 60, own[0], own, latest, now);
    } else {
        let none = Seq::<nat>::empty();
        law_rested_bucket_lets_through(per_tool, 60, now, none, now, now + 60_000_000_000);
        lemma_first_call(per_tool, 60, now);
    }
}

/// The first call passes, where any may.
proof fn lemma_first_call(calls: nat, seconds: nat, now: nat)
    requires
        0 < seconds <= u64::MAX,
        calls > 0,
        calls * (seconds * 1_000_000_000) <= MOST_SHARES,
    ensures
        Bucket::full(calls, seconds, now).admits(now),
{
    law_slow_calls_pass(calls, seconds, now, seq![now]);
    let b = Bucket::full(calls, seconds, now);
    assert(seq![now].drop_last() =~= Seq::<nat>::empty());
    assert(served(b, seq![now]) == 1);
    assert(served(b, Seq::<nat>::empty()) == 0);
}

/// A call passes if and only if both limits let it; a refusal says which limit it
/// was, and that over all tools is asked first.
pub proof fn law_both_limits_decide(l: Limits, tool: Seq<char>, now: nat)
    ensures
        l.verdict(tool, now) == LimitVerdict::Allow <==> l.global.admits(now) && l.bucket(
            tool,
            now,
        ).admits(now),
        l.verdict(tool, now) is GlobalLimitExceeded <==> !l.global.admits(now),
        l.verdict(tool, now) matches LimitVerdict::ToolLimitExceeded { tool: t, .. } ==> t == tool
            && !l.bucket(tool, now).admits(now),
        l.per_tool.contains_key(tool) ==> l.bucket(tool, now) == l.per_tool[tool],
{
}

/// Whoever finds a token need not wait, and where no call is ever let through the wait
/// is as long as can be told.
pub proof fn law_waits_at_the_ends(b: Bucket)
    ensures
        b.limit == 0 ==> b.wait_seconds() == u64::MAX,
        b.limit > 0 && b.level >= b.window ==> b.wait_seconds() == 0,
{
}

/// A bucket fills evenly: each nanosecond adds as many shares as it allows calls, up to
/// what it holds when full, and a clock that has run back adds none. A call that is let
/// through takes the shares of one token, one that is refused takes nothing.
pub proof fn law_buckets_fill_evenly(b: Bucket, now: nat)
    requires
        b.sound(),
    ensures
        b.filled(now).limit == b.limit,
        b.filled(now).window == b.window,
        now <= b.at ==> b.filled(now) == b,
        now > b.at ==> b.filled(now).at == now,
        now > b.at && b.level + (now - b.at) * b.limit <= b.limit * b.window ==> b.filled(now).level
            == b.level + (now - b.at) * b.limit,
        now > b.at && b.level + (now - b.at) * b.limit >= b.limit * b.window ==> b.filled(now).level
            == b.limit * b.window,
        b.admits(now) <==> b.limit > 0 && b.filled(now).level >= b.window,
        b.admits(now) ==> b.after_call(now) == (Bucket {
            level: (b.filled(now).level - b.window) as nat,
            ..b.filled(now)
        }),
        !b.admits(now) ==> b.after_call(now) == b.filled(now),
{
    assert(0 * b.limit == 0) by (nonlinear_arith);
}

/// A refused call makes no difference to those that come later: each is let through if
/// and only if it would have been without it.
pub proof fn law_refused_calls_make_no_difference(b: Bucket, refused: nat, later: Seq<nat>)
    requires
        b.sound(),
        b.at <= refused,
        !b.admits(refused),
        forall|i: int| 0 <= i < later.len() ==> refused <= #[trigger] later[i],
    ensures
        served(b.after_call(refused), later) == served(b, later),
{
    lemma_filled_first(b, refused, later);
}

} // verus!
