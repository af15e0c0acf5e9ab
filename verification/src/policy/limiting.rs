//! What a rule that limits the rate comes to, told by the numbers written in it.
use vstd::prelude::*;

use super::engine::{applicable, covers, decide, rule_bucket, Compiled, Decision, Policy};
use super::laws::{lemma_asked_splits, lemma_place_among_asked};
use super::rules::RuleAction;
use crate::document::Doc;
use crate::ratelimit::rate::{
    law_calls_in_a_span, law_calls_in_any_span, law_first_calls_pass,
    law_rested_bucket_lets_through, law_slow_calls_pass,
};
use crate::ratelimit::token_bucket::{after_calls, served, Bucket};

verus! {

/// A call: its tool, its arguments, the hour of the day at which it comes and what the
/// clock reads.
pub struct Asked {
    pub tool: Seq<char>,
    pub arguments: Option<Doc>,
    pub hour: u32,
    pub now: nat,
}

/// The policy after these calls, first to last.
pub open spec fn after_asked(policy: Policy, calls: Seq<Asked>) -> Policy
    decreases calls.len(),
{
    if calls.len() == 0 {
        policy
    } else {
        let c = calls.last();
        after_asked(policy, calls.drop_last()).decision(c.tool, c.arguments, c.hour, c.now).1
    }
}

/// How many of these calls are allowed.
pub open spec fn allowed_of(policy: Policy, calls: Seq<Asked>) -> nat
    decreases calls.len(),
{
    if calls.len() == 0 {
        0
    } else {
        let c = calls.last();
        let before = after_asked(policy, calls.drop_last());
        allowed_of(policy, calls.drop_last()) + if before.decision(
            c.tool,
            c.arguments,
            c.hour,
            c.now,
        ).0 == Decision::Allow {
            1nat
        } else {
            0nat
        }
    }
}

/// The only rule for a tool is that at place `k`; it limits the rate without a
/// condition, and has not been asked yet.
pub open spec fn only_limited(policy: Policy, k: int, tool: Seq<char>) -> bool {
    &&& 0 <= k < policy.rules.len()
    &&& policy.rules[k].rule.tool == tool || policy.rules[k].rule.tool == "*"@
    &&& policy.rules[k].rule.tool_prefix is None
    &&& policy.rules[k].condition is None
    &&& policy.rules[k].rule.action == RuleAction::RateLimit
    &&& forall|i: int|
        0 <= i < policy.rules.len() && i != k ==> (#[trigger] policy.rules[i]).rule.tool != tool
            && policy.rules[i].rule.tool != "*"@
    &&& !policy.buckets.contains_key(policy.rules[k].rule.id)
}

/// The rule at place `k` is the only one for the tool of every call.
pub open spec fn all_limited(policy: Policy, k: int, calls: Seq<Asked>) -> bool {
    forall|i: int| 0 <= i < calls.len() ==> only_limited(policy, k, (#[trigger] calls[i]).tool)
}

/// The calls that a rule allows in its window: the number written in it, or a
/// hundred.
pub open spec fn written_calls(c: Compiled) -> nat {
    match c.rule.max_calls {
        Some(n) => n as nat,
        None => 100,
    }
}

/// The seconds in a rule's window: the number written in it, or sixty.
pub open spec fn written_seconds(c: Compiled) -> nat {
    match c.rule.window_seconds {
        Some(n) => n as nat,
        None => 60,
    }
}

proof fn lemma_none_asked(rules: Seq<Compiled>, tool: Seq<char>)
    requires
        forall|i: int| 0 <= i < rules.len() ==> !covers((#[trigger] rules[i]).rule, tool),
    ensures
        applicable(rules, tool) == Seq::<Compiled>::empty(),
    decreases rules.len(),
{
    reveal(Seq::filter);
    if rules.len() > 0 {
        let front = rules.drop_last();
        assert forall|i: int| 0 <= i < front.len() implies !covers(
            (#[trigger] front[i]).rule,
            tool,
        ) by {
            assert(front[i] == rules[i]);
        }
        lemma_none_asked(front, tool);
        assert(rules.last() == rules[rules.len() - 1]);
    }
    assert(applicable(rules, tool) =~= Seq::<Compiled>::empty());
}

proof fn lemma_only_asked(rules: Seq<Compiled>, k: int, tool: Seq<char>)
    requires
        0 <= k < rules.len(),
        covers(rules[k].rule, tool),
        forall|i: int|
            0 <= i < rules.len() && i != k ==> !covers((#[trigger] rules[i]).rule, tool),
    ensures
        applicable(rules, tool) == seq![rules[k]],
{
    let above = rules.take(k);
    let below = rules.skip(k + 1);
    assert forall|i: int| 0 <= i < above.len() implies !covers((#[trigger] above[i]).rule, tool) by {
        assert(above[i] == rules[i]);
    }
    assert forall|i: int| 0 <= i < below.len() implies !covers((#[trigger] below[i]).rule, tool) by {
        assert(below[i] == rules[k + 1 + i]);
    }
    lemma_none_asked(above, tool);
    lemma_none_asked(below, tool);
    lemma_place_among_asked(rules, k, tool);
    let one = rules.take(k + 1);
    assert(rules =~= one + below);
    lemma_asked_splits(one, below, tool);
    lemma_asked_splits(above, seq![rules[k]], tool);
    assert(one =~= above + seq![rules[k]]);
    assert(applicable(seq![rules[k]], tool) == seq![rules[k]]) by {
        reveal(Seq::filter);
        assert(seq![rules[k]].drop_last() =~= Seq::<Compiled>::empty());
        assert(seq![rules[k]].last() == rules[k]);
        assert(applicable(seq![rules[k]], tool) =~= seq![rules[k]]);
    }
    assert(applicable(rules, tool) =~= seq![rules[k]]);
}

/// When the calls come.
spec fn times_of(calls: Seq<Asked>) -> Seq<nat> {
    Seq::new(calls.len(), |i: int| calls[i].now)
}

/// Under its only rule a tool's calls draw on one bucket, and each that finds no
/// token is refused in the name of that rule.
proof fn lemma_one_call(policy: Policy, k: int, call: Asked)
    requires
        0 <= k < policy.rules.len(),
        covers(policy.rules[k].rule, call.tool),
        policy.rules[k].condition is None,
        policy.rules[k].rule.action == RuleAction::RateLimit,
        forall|i: int|
            0 <= i < policy.rules.len() && i != k ==> !covers(
                (#[trigger] policy.rules[i]).rule,
                call.tool,
            ),
    ensures
        ({
            let rule = policy.rules[k].rule;
            let bucket = rule_bucket(rule, policy.buckets, call.now);
            let after = Policy {
                buckets: policy.buckets.insert(rule.id, bucket.after_call(call.now)),
                ..policy
            };
            policy.decision(call.tool, call.arguments, call.hour, call.now) == (
                if bucket.admits(call.now) {
                    Decision::Allow
                } else {
                    Decision::RateLimited { rule_id: rule.id }
                },
                after,
            )
        }),
{
    let c = policy.rules[k];
    lemma_only_asked(policy.rules, k, call.tool);
    let asked = seq![c];
    assert(asked[0] == c);
    assert(asked.skip(1) =~= Seq::empty());
    let bucket = rule_bucket(c.rule, policy.buckets, call.now);
    let drawn = policy.buckets.insert(c.rule.id, bucket.after_call(call.now));
    assert(decide(asked.skip(1), call.arguments, call.hour, call.now, drawn) == (
        Decision::Allow,
        drawn,
    ));
}

proof fn lemma_after_asked(policy: Policy, k: int, calls: Seq<Asked>)
    requires
        all_limited(policy, k, calls),
        calls.len() > 0,
    ensures
        ({
            let c = policy.rules[k];
            let full = Bucket::full(written_calls(c), written_seconds(c), calls[0].now);
            let after = after_asked(policy, calls);
            &&& after.rules == policy.rules
            &&& after.buckets.contains_key(c.rule.id)
            &&& after.buckets[c.rule.id] == after_calls(full, times_of(calls))
            &&& allowed_of(policy, calls) == served(full, times_of(calls))
        }),
    decreases calls.len(),
{
    let c = policy.rules[k];
    let front = calls.drop_last();
    let full = Bucket::full(written_calls(c), written_seconds(c), calls[0].now);
    assert forall|i: int| 0 <= i < front.len() implies only_limited(
        policy,
        k,
        (#[trigger] front[i]).tool,
    ) by {
        assert(front[i] == calls[i]);
    }
    assert(times_of(calls).drop_last() =~= times_of(front));
    assert(times_of(calls).last() == calls.last().now);
    assert(calls.last() == calls[calls.len() - 1]);
    if front.len() > 0 {
        lemma_after_asked(policy, k, front);
        assert(front[0] == calls[0]);
    } else {
        assert(times_of(front) =~= Seq::<nat>::empty());
        assert(after_calls(full, times_of(front)) == full);
        assert(served(full, times_of(front)) == 0);
    }
    let before = after_asked(policy, front);
    let call = calls.last();
    lemma_one_call(before, k, call);
    let bucket = rule_bucket(c.rule, before.buckets, call.now);
    assert(bucket == after_calls(full, times_of(front)));
    let got = before.decision(call.tool, call.arguments, call.hour, call.now);
    assert(got.1 == after_asked(policy, calls));
    assert(got.0 == Decision::Allow <==> bucket.admits(call.now));
    assert(allowed_of(policy, front) == served(full, times_of(front)));
}

proof fn lemma_asked_together(policy: Policy, a: Seq<Asked>, b: Seq<Asked>)
    ensures
        after_asked(policy, a + b) == after_asked(after_asked(policy, a), b),
        allowed_of(policy, a + b) == allowed_of(policy, a) + allowed_of(
            after_asked(policy, a),
            b,
        ),
    decreases b.len(),
{
    if b.len() == 0 {
        assert(a + b =~= a);
    } else {
        assert((a + b).drop_last() =~= a + b.drop_last());
        assert((a + b).last() == b.last());
        lemma_asked_together(policy, a, b.drop_last());
    }
}

proof fn lemma_served_together(b: Bucket, x: Seq<nat>, y: Seq<nat>)
    ensures
        after_calls(b, x + y) == after_calls(after_calls(b, x), y),
        served(b, x + y) == served(b, x) + served(after_calls(b, x), y),
    decreases y.len(),
{
    if y.len() == 0 {
        assert(x + y =~= x);
    } else {
        assert((x + y).drop_last() =~= x + y.drop_last());
        assert((x + y).last() == y.last());
        lemma_served_together(b, x, y.drop_last());
    }
}

/// Tools whose only rule is one that limits the rate: of their calls that come in any
/// span of nanoseconds, whatever calls came before it, no more are allowed than the
/// number of calls written in the rule, and as many again for every window in the span;
/// a hundred calls and sixty seconds count where the rule does not say.
#[verifier::rlimit(40)]
pub proof fn law_limiting_rule_keeps_its_rate(
    policy: Policy,
    k: int,
    earlier: Seq<Asked>,
    calls: Seq<Asked>,
    from: nat,
    span: nat,
)
    requires
        0 <= k < policy.rules.len(),
        all_limited(policy, k, earlier),
        all_limited(policy, k, calls),
        policy.rules[k].rule.window_seconds != Some(0u64),
        forall|i: int| 0 <= i < earlier.len() ==> (#[trigger] earlier[i]).now <= from,
        forall|i: int|
            0 <= i < calls.len() ==> from <= (#[trigger] calls[i]).now <= from + span,
    ensures
        ({
            let n: nat = match policy.rules[k].rule.max_calls {
                Some(n) => n as nat,
                None => 100,
            };
            let w: nat = match policy.rules[k].rule.window_seconds {
                Some(w) => w as nat,
                None => 60,
            };
            allowed_of(after_asked(policy, earlier), calls) * (w * 1_000_000_000) <= n
                * (w * 1_000_000_000 + span)
        }),
{
    let c = policy.rules[k];
    let n = written_calls(c);
    let w = written_seconds(c);
    let all = earlier + calls;
    assert forall|i: int| 0 <= i < all.len() implies only_limited(
        policy,
        k,
        (#[trigger] all[i]).tool,
    ) by {
        if i < earlier.len() {
            assert(all[i] == earlier[i]);
        } else {
            assert(all[i] == calls[i - earlier.len()]);
        }
    }
    lemma_asked_together(policy, earlier, calls);
    let x = times_of(earlier);
    let y = times_of(calls);
    assert(times_of(all) =~= x + y);
    assert forall|i: int| 0 <= i < x.len() implies #[trigger] x[i] <= from by {
        assert(x[i] == earlier[i].now);
    }
    assert forall|i: int| 0 <= i < y.len() implies from <= #[trigger] y[i] <= from + span by {
        assert(y[i] == calls[i].now);
    }
    let passed = allowed_of(after_asked(policy, earlier), calls);
    if calls.len() == 0 {
        assert(passed == 0);
        assert(n * (w * 1_000_000_000 + span) >= 0) by (nonlinear_arith);
        assert(passed * (w * 1_000_000_000) == 0) by (nonlinear_arith)
            requires
                passed == 0,
        ;
    } else {
        lemma_after_asked(policy, k, all);
        let start = all[0].now;
        let full = Bucket::full(n, w, start);
        lemma_served_together(full, x, y);
        if earlier.len() > 0 {
            assert(all[0] == earlier[0]);
            lemma_after_asked(policy, k, earlier);
            assert(start <= from);
            law_calls_in_any_span(n, w, start, x, y, from, span);
            assert(passed == served(after_calls(full, x), y));
            assert(passed * (w * 1_000_000_000) <= n * (w * 1_000_000_000 + span));
        } else {
            assert(all[0] == calls[0]);
            assert(x =~= Seq::<nat>::empty());
            assert(after_calls(full, x) == full);
            assert(served(full, x) == 0);
            assert(allowed_of(policy, earlier) == 0);
            assert(start <= from + span);
            lemma_span_from_later(n, w, start, y, from, span);
            assert(after_asked(policy, earlier) == policy);
            assert(served(full, x + y) == served(full, y));
            assert(passed == served(full, y));
            assert(passed * (w * 1_000_000_000) <= n * (w * 1_000_000_000 + span));
        }
    }
}

/// The bound of a span counted from a later start within it.
proof fn lemma_span_from_later(
    n: nat,
    w: nat,
    start: nat,
    times: Seq<nat>,
    from: nat,
    span: nat,
)
    requires
        0 < w <= u64::MAX,
        from <= start,
        forall|i: int| 0 <= i < times.len() ==> from <= #[trigger] times[i] <= from + span,
    ensures
        served(Bucket::full(n, w, start), times) * (w * 1_000_000_000) <= n * (w * 1_000_000_000
            + span),
{
    assert forall|i: int| 0 <= i < times.len() implies #[trigger] times[i] <= start + span by {
        assert(times[i] <= from + span);
    }
    law_calls_in_a_span(n, w, start, times, span);
}

/// Tools whose only rule is one that limits the rate: as many of their first calls as the
/// rule says are all allowed, whenever they come. A limit whose calls and nanoseconds
/// multiplied do not fit in 127 bits is beyond counting and left out.
pub proof fn law_limiting_rule_allows_its_calls(
    policy: Policy,
    k: int,
    calls: Seq<Asked>,
)
    requires
        all_limited(policy, k, calls),
        policy.rules[k].rule.window_seconds != Some(0u64),
        written_calls(policy.rules[k]) * (written_seconds(policy.rules[k]) * 1_000_000_000)
            <= 170141183460469231731687303715884105727,
        calls.len() <= match policy.rules[k].rule.max_calls {
            Some(n) => n as nat,
            None => 100,
        },
    ensures
        allowed_of(policy, calls) == calls.len(),
{
    let c = policy.rules[k];
    if calls.len() > 0 {
        lemma_after_asked(policy, k, calls);
        law_first_calls_pass(
            written_calls(c),
            written_seconds(c),
            calls[0].now,
            times_of(calls),
        );
    }
}

/// Tools whose only rule is one that limits the rate: calls that come no faster than the
/// rule says, at least its window divided by its number of calls apart, are all allowed.
pub proof fn law_limiting_rule_allows_slow_calls(
    policy: Policy,
    k: int,
    calls: Seq<Asked>,
)
    requires
        all_limited(policy, k, calls),
        policy.rules[k].rule.window_seconds != Some(0u64),
        policy.rules[k].rule.max_calls != Some(0u64),
        written_calls(policy.rules[k]) * (written_seconds(policy.rules[k]) * 1_000_000_000)
            <= 170141183460469231731687303715884105727,
        forall|i: int|
            0 <= i < calls.len() - 1 ==> (#[trigger] calls[i]).now <= calls[i + 1].now && (calls[i
                + 1].now - calls[i].now) * (match policy.rules[k].rule.max_calls {
                Some(n) => n as nat,
                None => 100,
            }) >= (match policy.rules[k].rule.window_seconds {
                Some(w) => w as nat,
                None => 60,
            }) * 1_000_000_000,
    ensures
        allowed_of(policy, calls) == calls.len(),
{
    let c = policy.rules[k];
    if calls.len() > 0 {
        lemma_after_asked(policy, k, calls);
        let times = times_of(calls);
        assert forall|i: int| 0 <= i < times.len() - 1 implies (#[trigger] times[i]) <= times[i + 1]
            && (times[i + 1] - times[i]) * written_calls(c) >= written_seconds(c)
            * 1_000_000_000 by {
            assert(times[i] == calls[i].now);
            assert(times[i + 1] == calls[i + 1].now);
        }
        law_slow_calls_pass(written_calls(c), written_seconds(c), calls[0].now, times);
    }
}

/// Tools whose only rule is one that limits the rate: after its window has passed without
/// calls a call is allowed, whatever calls came before.
pub proof fn law_limiting_rule_allows_after_a_rest(
    policy: Policy,
    k: int,
    calls: Seq<Asked>,
    latest: nat,
    call: Asked,
)
    requires
        all_limited(policy, k, calls),
        only_limited(policy, k, call.tool),
        policy.rules[k].rule.window_seconds != Some(0u64),
        policy.rules[k].rule.max_calls != Some(0u64),
        written_calls(policy.rules[k]) * (written_seconds(policy.rules[k]) * 1_000_000_000)
            <= 170141183460469231731687303715884105727,
        forall|i: int| 0 <= i < calls.len() ==> (#[trigger] calls[i]).now <= latest,
        call.now >= latest + (match policy.rules[k].rule.window_seconds {
            Some(w) => w as nat,
            None => 60,
        }) * 1_000_000_000,
    ensures
        after_asked(policy, calls).decision(call.tool, call.arguments, call.hour, call.now).0
            == Decision::Allow,
{
    let c = policy.rules[k];
    let before = after_asked(policy, calls);
    if calls.len() > 0 {
        lemma_after_asked(policy, k, calls);
        let times = times_of(calls);
        assert forall|i: int| 0 <= i < times.len() implies #[trigger] times[i] <= latest by {
            assert(times[i] == calls[i].now);
        }
        assert(calls[0].now <= latest);
        law_rested_bucket_lets_through(
            written_calls(c),
            written_seconds(c),
            calls[0].now,
            times,
            latest,
            call.now,
        );
        lemma_one_call(before, k, call);
    } else {
        assert(seq![call][0] == call);
        law_limiting_rule_allows_its_calls(policy, k, seq![call]);
        assert(seq![call].drop_last() =~= calls);
        assert(seq![call].last() == call);
        assert(allowed_of(policy, seq![call]) == 1);
        assert(allowed_of(policy, calls) == 0);
    }
}

/// Tools whose only rule is one that limits the rate: a call is allowed, or refused in
/// the name of that rule, and either way no other rule's count changes.
pub proof fn law_limiting_rule_refuses_in_its_name(
    policy: Policy,
    k: int,
    calls: Seq<Asked>,
    call: Asked,
)
    requires
        all_limited(policy, k, calls),
        only_limited(policy, k, call.tool),
    ensures
        ({
            let before = after_asked(policy, calls);
            let got = before.decision(call.tool, call.arguments, call.hour, call.now);
            let id = policy.rules[k].rule.id;
            &&& got.0 == Decision::Allow || got.0 == (Decision::RateLimited { rule_id: id })
            &&& got.1.rules == policy.rules
            &&& got.1.buckets.remove(id) == policy.buckets.remove(id)
        }),
    decreases calls.len(),
{
    let id = policy.rules[k].rule.id;
    let before = after_asked(policy, calls);
    if calls.len() > 0 {
        lemma_after_asked(policy, k, calls);
        assert forall|i: int| 0 <= i < calls.drop_last().len() implies only_limited(
            policy,
            k,
            (#[trigger] calls.drop_last()[i]).tool,
        ) by {
            assert(calls.drop_last()[i] == calls[i]);
        }
        assert(calls.last() == calls[calls.len() - 1]);
        law_limiting_rule_refuses_in_its_name(
            policy,
            k,
            calls.drop_last(),
            calls.last(),
        );
    }
    lemma_one_call(before, k, call);
    let got = before.decision(call.tool, call.arguments, call.hour, call.now);
    assert(got.1.buckets.remove(id) =~= before.buckets.remove(id));
}

} // verus!
