//! What holds of every policy.
use regex::Regex;
use vstd::prelude::*;

use super::condition::{holds, meaning, Fault, Form};
use super::engine::{
    all_compiled, applicable, applies, calls_in_window, compiled, covers, decide, denial,
    lemma_first_fault, redacts, redacts_alone, rule_bucket, scrubbed, window_length, Compiled,
    Decision, Policy, PolicyEngine, PolicyFault,
};
use super::redact::{
    alike, clean, law_redaction_keeps_the_shape, law_redaction_leaves_no_match,
    law_redaction_of_the_settled, leaves_none, redacted, settled,
};
use super::rules::{put_in, Rule, RuleAction};
use crate::document::Doc;
use crate::json::Json;
use crate::pattern::{regex_compiled, seals};
use crate::ratelimit::token_bucket::{
    after_calls, law_bucket_stays_sound, law_burst_of_the_limit, lemma_full_is_sound, served,
    Bucket,
};

verus! {

/// A rule is for a tool if and only if it names the tool or is for every tool, and
/// the tool's name begins with what the rule says it must, if it says so.
pub proof fn law_rules_name_their_tools(rule: Rule, tool: Seq<char>)
    ensures
        covers(rule, tool) <==> {
            &&& rule.tool == tool || rule.tool == "*"@
            &&& match rule.tool_prefix {
                None => true,
                Some(p) => p.is_prefix_of(tool),
            }
        },
{
}

/// A rule without a condition applies to every call; one with a condition to those
/// for which it holds, and to no others.
pub proof fn law_rules_apply_where_their_conditions_hold(
    c: Compiled,
    arguments: Option<Doc>,
    hour: u32,
)
    ensures
        c.condition is None ==> applies(c, arguments, hour),
        c.condition matches Some(f) ==> (applies(c, arguments, hour) <==> holds(
            f,
            arguments,
            hour,
        )),
{
}

/// Rules are asked from top to bottom and the first match wins: where no rule above
/// it is for the tool and applies, a rule that is and does decides, whatever rules
/// follow it, and takes nothing from any bucket, if it allows, if it denies, or if it
/// redacts and there are arguments and a pattern to redact them by. Whoever is denied
/// is told the rule's message, or the rule's id where it has none.
pub proof fn law_first_match_wins(
    policy: Policy,
    k: int,
    tool: Seq<char>,
    arguments: Option<Doc>,
    hour: u32,
    now: nat,
)
    requires
        0 <= k < policy.rules.len(),
        forall|i: int|
            0 <= i < k ==> !(covers((#[trigger] policy.rules[i]).rule, tool) && applies(
                policy.rules[i],
                arguments,
                hour,
            )),
        covers(policy.rules[k].rule, tool),
        applies(policy.rules[k], arguments, hour),
    ensures
        ({
            let c = policy.rules[k];
            let got = policy.decision(tool, arguments, hour, now);
            &&& c.rule.action == RuleAction::Allow ==> got == (Decision::Allow, policy)
            &&& c.rule.action == RuleAction::Deny ==> got == (
                Decision::Deny { rule_id: c.rule.id, message: denial(c.rule) },
                policy,
            )
            &&& c.rule.action == RuleAction::Deny ==> got.0->message == match c.rule.message {
                Some(m) => m,
                None => "Blocked by policy rule '"@ + c.rule.id + "'"@,
            }
            &&& c.rule.action == RuleAction::Redact && arguments is Some && c.redact_re is Some
                ==> got == (
                Decision::Redact {
                    rule_id: c.rule.id,
                    arguments: redacted(
                        arguments->0,
                        c.redact_re->0,
                        match c.rule.replacement {
                            Some(r) => r,
                            None => Seq::empty(),
                        },
                    ),
                },
                policy,
            )
        }),
{
    let rules = policy.rules;
    let above = rules.take(k);
    let asked = applicable(rules, tool);
    let n = applicable(above, tool).len() as int;
    lemma_place_among_asked(rules, k, tool);
    lemma_asked(above, tool);
    assert forall|i: int| 0 <= i < n implies !applies(#[trigger] asked[i], arguments, hour) by {
        let c = applicable(above, tool)[i];
        assert(asked[i] == c);
        let j = choose|j: int| 0 <= j < above.len() && above[j] == c;
        assert(rules[j] == c);
    }
    lemma_skip_to(asked, n, arguments, hour, now, policy.buckets);
    assert(asked.skip(n)[0] == asked[n]);
}

/// Where a redacting rule with a pattern is the first that is for the tool and
/// applies, the pattern matches nowhere in the arguments that are decided on, if
/// replacing leaves no match in any text; and they differ from those of the call in
/// their strings alone.
pub proof fn law_redacting_rule_strikes_the_arguments(
    policy: Policy,
    k: int,
    tool: Seq<char>,
    arguments: Doc,
    hour: u32,
    now: nat,
)
    requires
        0 <= k < policy.rules.len(),
        forall|i: int|
            0 <= i < k ==> !(covers((#[trigger] policy.rules[i]).rule, tool) && applies(
                policy.rules[i],
                Some(arguments),
                hour,
            )),
        policy.rules[k].rule.tool == tool || policy.rules[k].rule.tool == "*"@,
        policy.rules[k].rule.tool_prefix matches Some(p) ==> p.is_prefix_of(tool),
        applies(policy.rules[k], Some(arguments), hour),
        policy.rules[k].rule.action == RuleAction::Redact,
        policy.rules[k].redact_re is Some,
    ensures
        ({
            let re = policy.rules[k].redact_re->0;
            let replacement = match policy.rules[k].rule.replacement {
                Some(r) => r,
                None => Seq::empty(),
            };
            let got = policy.decision(tool, Some(arguments), hour, now);
            &&& got.1 == policy
            &&& got.0 matches Decision::Redact { rule_id, arguments: left }
            &&& rule_id == policy.rules[k].rule.id
            &&& alike(arguments, left)
            &&& leaves_none(re, replacement) ==> clean(left, re)
        }),
{
    let re = policy.rules[k].redact_re->0;
    let replacement = put_in(policy.rules[k].rule);
    law_first_match_wins(policy, k, tool, Some(arguments), hour, now);
    law_redaction_keeps_the_shape(arguments, re, replacement);
    if leaves_none(re, replacement) {
        law_redaction_leaves_no_match(arguments, re, replacement);
    }
}

/// A rule that settles nothing has no say: the decision is what it would be without
/// it, and the buckets after it too. Such a rule is not for the tool, or does not
/// apply, or redacts where there are no arguments or it has no pattern.
pub proof fn law_rules_that_settle_nothing_have_no_say(
    policy: Policy,
    i: int,
    tool: Seq<char>,
    arguments: Option<Doc>,
    hour: u32,
    now: nat,
)
    requires
        0 <= i < policy.rules.len(),
        !covers(policy.rules[i].rule, tool) || !applies(policy.rules[i], arguments, hour) || (
        policy.rules[i].rule.action == RuleAction::Redact && (arguments is None
            || policy.rules[i].redact_re is None)),
    ensures
        ({
            let without = Policy { rules: policy.rules.remove(i), ..policy };
            let got = policy.decision(tool, arguments, hour, now);
            let got_without = without.decision(tool, arguments, hour, now);
            got.0 == got_without.0 && got.1.buckets == got_without.1.buckets
        }),
{
    if !covers(policy.rules[i].rule, tool) {
        law_rules_of_other_tools_have_no_say(policy, i, tool, arguments, hour, now);
    } else {
        let rules = policy.rules;
        let a = rules.take(i);
        let b = rules.skip(i + 1);
        let one = seq![rules[i]];
        assert(rules =~= (a + one) + b);
        assert(rules.remove(i) =~= a + b);
        lemma_asked_splits(a + one, b, tool);
        lemma_asked_splits(a, one, tool);
        lemma_asked_splits(a, b, tool);
        assert(applicable(one, tool) == one) by {
            reveal(Seq::filter);
            assert(one.drop_last() =~= Seq::<Compiled>::empty());
            assert(one.last() == rules[i]);
            assert(applicable(one, tool) =~= one);
        }
        let x = applicable(a, tool);
        let y = applicable(b, tool);
        assert(applicable(rules, tool) =~= x + one + y);
        lemma_unsettled(x, rules[i], y, arguments, hour, now, policy.buckets);
    }
}

proof fn lemma_unsettled(
    x: Seq<Compiled>,
    c: Compiled,
    y: Seq<Compiled>,
    arguments: Option<Doc>,
    hour: u32,
    now: nat,
    buckets: Map<Seq<char>, Bucket>,
)
    requires
        !applies(c, arguments, hour) || (c.rule.action == RuleAction::Redact && (arguments is None
            || c.redact_re is None)),
    ensures
        decide(x + seq![c] + y, arguments, hour, now, buckets) == decide(
            x + y,
            arguments,
            hour,
            now,
            buckets,
        ),
    decreases x.len(),
{
    let all = x + seq![c] + y;
    if x.len() == 0 {
        assert(all[0] == c);
        assert(all.skip(1) =~= y);
        assert(x + y =~= y);
    } else {
        let first = x[0];
        assert(all[0] == first);
        assert((x + y)[0] == first);
        assert(all.skip(1) =~= x.skip(1) + seq![c] + y);
        assert((x + y).skip(1) =~= x.skip(1) + y);
        let drawn = buckets.insert(
            first.rule.id,
            rule_bucket(first.rule, buckets, now).after_call(now),
        );
        lemma_unsettled(x.skip(1), c, y, arguments, hour, now, buckets);
        lemma_unsettled(x.skip(1), c, y, arguments, hour, now, drawn);
    }
}

/// A rule for the tool is asked after those for the tool above it.
pub proof fn lemma_place_among_asked(rules: Seq<Compiled>, k: int, tool: Seq<char>)
    requires
        0 <= k < rules.len(),
        covers(rules[k].rule, tool),
    ensures
        ({
            let above = applicable(rules.take(k), tool);
            let asked = applicable(rules, tool);
            &&& above.len() < asked.len()
            &&& asked.take(above.len() as int) == above
            &&& asked[above.len() as int] == rules[k]
        }),
{
    reveal(Seq::filter);
    let a = rules.take(k);
    let one = rules.take(k + 1);
    let b = rules.skip(k + 1);
    assert(rules =~= one + b);
    lemma_asked_splits(one, b, tool);
    assert(one.drop_last() =~= a);
    assert(one.last() == rules[k]);
    assert(applicable(one, tool) == applicable(a, tool).push(rules[k]));
    assert(applicable(rules, tool).take(applicable(a, tool).len() as int) =~= applicable(a, tool));
}

/// Rules at the start that do not apply have no say.
pub proof fn lemma_skip_to(
    asked: Seq<Compiled>,
    k: int,
    arguments: Option<Doc>,
    hour: u32,
    now: nat,
    buckets: Map<Seq<char>, Bucket>,
)
    requires
        0 <= k <= asked.len(),
        forall|i: int| 0 <= i < k ==> !applies(#[trigger] asked[i], arguments, hour),
    ensures
        decide(asked, arguments, hour, now, buckets) == decide(
            asked.skip(k),
            arguments,
            hour,
            now,
            buckets,
        ),
    decreases k,
{
    if k == 0 {
        assert(asked.skip(0) =~= asked);
    } else {
        lemma_skip_to(asked, k - 1, arguments, hour, now, buckets);
        assert(asked.skip(k - 1)[0] == asked[k - 1]);
        assert(asked.skip(k - 1).skip(1) =~= asked.skip(k));
    }
}

/// What no rule applies to is allowed.
pub proof fn law_allowed_unless_a_rule_applies(
    policy: Policy,
    tool: Seq<char>,
    arguments: Option<Doc>,
    hour: u32,
    now: nat,
)
    requires
        forall|i: int|
            0 <= i < applicable(policy.rules, tool).len() ==> !applies(
                #[trigger] applicable(policy.rules, tool)[i],
                arguments,
                hour,
            ),
    ensures
        policy.decision(tool, arguments, hour, now) == (Decision::Allow, policy),
{
    let asked = applicable(policy.rules, tool);
    lemma_skip_to(asked, asked.len() as int, arguments, hour, now, policy.buckets);
}

/// Where the first rule for a tool denies and has no condition, every call of the
/// tool is denied, whatever its arguments and whenever it comes.
pub proof fn law_deny_is_unconditional(
    rules: Seq<Compiled>,
    buckets: Map<Seq<char>, Bucket>,
    k: int,
    tool: Seq<char>,
    arguments: Option<Doc>,
    hour: u32,
    now: nat,
)
    requires
        0 <= k < rules.len(),
        forall|i: int| 0 <= i < k ==> !covers((#[trigger] rules[i]).rule, tool),
        covers(rules[k].rule, tool),
        rules[k].rule.action == RuleAction::Deny,
        rules[k].condition is None,
    ensures
        ({
            let policy = Policy { rules, buckets };
            policy.decision(tool, arguments, hour, now) == (
                Decision::Deny { rule_id: rules[k].rule.id, message: denial(rules[k].rule) },
                policy,
            )
        }),
{
    law_first_match_wins(Policy { rules, buckets }, k, tool, arguments, hour, now);
}

/// The rules that are asked are those of a first part, then those of the rest.
pub proof fn lemma_asked_splits(a: Seq<Compiled>, b: Seq<Compiled>, tool: Seq<char>)
    ensures
        applicable(a + b, tool) == applicable(a, tool) + applicable(b, tool),
    decreases b.len(),
{
    reveal(Seq::filter);
    if b.len() == 0 {
        assert(a + b =~= a);
        assert(applicable(a, tool) + applicable(b, tool) =~= applicable(a, tool));
    } else {
        assert((a + b).drop_last() =~= a + b.drop_last());
        assert((a + b).last() == b.last());
        lemma_asked_splits(a, b.drop_last(), tool);
        assert(applicable(a + b, tool) =~= applicable(a, tool) + applicable(b, tool));
    }
}

/// A rule that is not for the tool has no say: the decision is what it would be
/// without it, and the buckets after it too.
pub proof fn law_rules_of_other_tools_have_no_say(
    policy: Policy,
    i: int,
    tool: Seq<char>,
    arguments: Option<Doc>,
    hour: u32,
    now: nat,
)
    requires
        0 <= i < policy.rules.len(),
        !covers(policy.rules[i].rule, tool),
    ensures
        ({
            let without = Policy { rules: policy.rules.remove(i), ..policy };
            let got = policy.decision(tool, arguments, hour, now);
            let got_without = without.decision(tool, arguments, hour, now);
            got.0 == got_without.0 && got.1.buckets == got_without.1.buckets
        }),
{
    reveal(Seq::filter);
    let rules = policy.rules;
    let a = rules.take(i);
    let one = rules.take(i + 1);
    let b = rules.skip(i + 1);
    assert(rules =~= one + b);
    assert(rules.remove(i) =~= a + b);
    assert(one.drop_last() =~= a);
    assert(one.last() == rules[i]);
    assert(applicable(one, tool) == applicable(a, tool));
    lemma_asked_splits(one, b, tool);
    lemma_asked_splits(a, b, tool);
}

/// Every rule that is asked is a rule of the policy, and for the tool.
pub proof fn lemma_asked(rules: Seq<Compiled>, tool: Seq<char>)
    ensures
        forall|i: int|
            #![trigger applicable(rules, tool)[i]]
            0 <= i < applicable(rules, tool).len() ==> rules.contains(applicable(rules, tool)[i])
                && covers(applicable(rules, tool)[i].rule, tool),
    decreases rules.len(),
{
    reveal(Seq::filter);
    if rules.len() > 0 {
        let front = rules.drop_last();
        lemma_asked(front, tool);
        assert forall|i: int|
            #![trigger applicable(rules, tool)[i]]
            0 <= i < applicable(rules, tool).len() implies rules.contains(
            applicable(rules, tool)[i],
        ) && covers(applicable(rules, tool)[i].rule, tool) by {
            if i < applicable(front, tool).len() {
                let c = applicable(front, tool)[i];
                assert(applicable(rules, tool)[i] == c);
                let j = choose|j: int| 0 <= j < front.len() && front[j] == c;
                assert(rules[j] == c);
            } else {
                assert(applicable(rules, tool)[i] == rules[rules.len() - 1]);
            }
        }
    }
}

/// A tool that no denying rule is for is never denied.
pub proof fn law_deny_touches_only_its_tool(
    policy: Policy,
    tool: Seq<char>,
    arguments: Option<Doc>,
    hour: u32,
    now: nat,
)
    requires
        forall|i: int|
            0 <= i < policy.rules.len() && (#[trigger] policy.rules[i]).rule.action
                == RuleAction::Deny ==> !covers(policy.rules[i].rule, tool),
    ensures
        !(policy.decision(tool, arguments, hour, now).0 is Deny),
{
    let rules = policy.rules;
    let asked = applicable(rules, tool);
    lemma_asked(rules, tool);
    assert forall|i: int| 0 <= i < asked.len() implies (#[trigger] asked[i]).rule.action
        != RuleAction::Deny by {
        let c = asked[i];
        let j = choose|j: int| 0 <= j < rules.len() && rules[j] == c;
        assert(rules[j] == c);
    }
    lemma_no_deny(asked, arguments, hour, now, policy.buckets);
}

proof fn lemma_no_deny(
    asked: Seq<Compiled>,
    arguments: Option<Doc>,
    hour: u32,
    now: nat,
    buckets: Map<Seq<char>, Bucket>,
)
    requires
        forall|i: int|
            0 <= i < asked.len() ==> (#[trigger] asked[i]).rule.action != RuleAction::Deny,
    ensures
        !(decide(asked, arguments, hour, now, buckets).0 is Deny),
    decreases asked.len(),
{
    if asked.len() > 0 {
        let rest = asked.skip(1);
        assert forall|i: int| 0 <= i < rest.len() implies (#[trigger] rest[i]).rule.action
            != RuleAction::Deny by {
            assert(rest[i] == asked[i + 1]);
        }
        let c = asked[0];
        let after = buckets.insert(c.rule.id, rule_bucket(c.rule, buckets, now).after_call(now));
        lemma_no_deny(rest, arguments, hour, now, buckets);
        lemma_no_deny(rest, arguments, hour, now, after);
    }
}

/// Deciding on a call keeps the rules, keeps every bucket that is there, and
/// keeps all buckets sound.
pub proof fn law_deciding_keeps_the_policy(
    policy: Policy,
    tool: Seq<char>,
    arguments: Option<Doc>,
    hour: u32,
    now: nat,
)
    requires
        forall|id: Seq<char>| #[trigger]
            policy.buckets.contains_key(id) ==> policy.buckets[id].sound(),
    ensures
        ({
            let after = policy.decision(tool, arguments, hour, now).1;
            &&& after.rules == policy.rules
            &&& forall|id: Seq<char>|
                policy.buckets.contains_key(id) ==> #[trigger] after.buckets.contains_key(id)
            &&& forall|id: Seq<char>| #[trigger]
                after.buckets.contains_key(id) ==> after.buckets[id].sound()
        }),
{
    lemma_buckets(applicable(policy.rules, tool), arguments, hour, now, policy.buckets);
}

proof fn lemma_buckets(
    asked: Seq<Compiled>,
    arguments: Option<Doc>,
    hour: u32,
    now: nat,
    buckets: Map<Seq<char>, Bucket>,
)
    requires
        forall|id: Seq<char>| #[trigger] buckets.contains_key(id) ==> buckets[id].sound(),
    ensures
        ({
            let after = decide(asked, arguments, hour, now, buckets).1;
            &&& forall|id: Seq<char>|
                buckets.contains_key(id) ==> #[trigger] after.contains_key(id)
            &&& forall|id: Seq<char>| #[trigger]
                after.contains_key(id) ==> after[id].sound()
        }),
    decreases asked.len(),
{
    if asked.len() > 0 {
        let c = asked[0];
        let bucket = rule_bucket(c.rule, buckets, now);
        if !buckets.contains_key(c.rule.id) {
            let max_calls = calls_in_window(c.rule);
            let window_seconds = window_length(c.rule);
            lemma_full_is_sound(max_calls, window_seconds, now);
        }
        law_bucket_stays_sound(bucket, now);
        let drawn = buckets.insert(c.rule.id, bucket.after_call(now));
        lemma_buckets(asked.skip(1), arguments, hour, now, buckets);
        lemma_buckets(asked.skip(1), arguments, hour, now, drawn);
        let after = decide(asked, arguments, hour, now, buckets).1;
        let passed_over = decide(asked.skip(1), arguments, hour, now, buckets).1;
        let let_through = decide(asked.skip(1), arguments, hour, now, drawn).1;
        assert(after == buckets || after == drawn || after == passed_over || after == let_through);
        assert forall|id: Seq<char>| buckets.contains_key(id) implies #[trigger] after.contains_key(
            id,
        ) by {
            assert(drawn.contains_key(id));
            assert(let_through.contains_key(id));
            assert(passed_over.contains_key(id));
        }
    }
}

/// A rule that limits the rate, where none of the rules before it applies, refuses
/// a call if and only if its bucket has no token for it; the call draws on that
/// bucket either way.
pub proof fn law_limiting_rule_refuses_without_a_token(
    policy: Policy,
    k: int,
    tool: Seq<char>,
    arguments: Option<Doc>,
    hour: u32,
    now: nat,
)
    requires
        0 <= k < applicable(policy.rules, tool).len(),
        forall|i: int|
            0 <= i < k ==> !applies(#[trigger] applicable(policy.rules, tool)[i], arguments, hour),
        applies(applicable(policy.rules, tool)[k], arguments, hour),
        applicable(policy.rules, tool)[k].rule.action == RuleAction::RateLimit,
    ensures
        ({
            let rule = applicable(policy.rules, tool)[k].rule;
            let bucket = rule_bucket(rule, policy.buckets, now);
            let drawn = policy.buckets.insert(rule.id, bucket.after_call(now));
            let got = policy.decision(tool, arguments, hour, now);
            if bucket.admits(now) {
                let rest = decide(
                    applicable(policy.rules, tool).skip(k + 1),
                    arguments,
                    hour,
                    now,
                    drawn,
                );
                got == (rest.0, Policy { buckets: rest.1, ..policy })
            } else {
                got == (
                    Decision::RateLimited { rule_id: rule.id },
                    Policy { buckets: drawn, ..policy },
                )
            }
        }),
{
    let asked = applicable(policy.rules, tool);
    lemma_skip_to(asked, k, arguments, hour, now, policy.buckets);
    assert(asked.skip(k)[0] == asked[k]);
    assert(asked.skip(k).skip(1) =~= asked.skip(k + 1));
}

/// The policy after as many calls at one time.
pub open spec fn after_burst(
    policy: Policy,
    tool: Seq<char>,
    arguments: Option<Doc>,
    hour: u32,
    now: nat,
    calls: nat,
) -> Policy
    decreases calls,
{
    if calls == 0 {
        policy
    } else {
        after_burst(policy, tool, arguments, hour, now, (calls - 1) as nat).decision(
            tool,
            arguments,
            hour,
            now,
        ).1
    }
}

/// A tool whose only rule limits the rate and has not been asked yet: of calls
/// that all come at one time, as many are allowed as the limit allows, and no more.
pub proof fn law_limiting_rule_counts_calls(
    policy: Policy,
    c: Compiled,
    tool: Seq<char>,
    arguments: Option<Doc>,
    hour: u32,
    now: nat,
    calls: nat,
)
    requires
        applicable(policy.rules, tool) == seq![c],
        c.rule.action == RuleAction::RateLimit,
        c.condition is None,
        !policy.buckets.contains_key(c.rule.id),
    ensures
        ({
            let limit = rule_bucket(c.rule, policy.buckets, now).limit;
            let before = after_burst(policy, tool, arguments, hour, now, calls);
            before.decision(tool, arguments, hour, now).0 == if calls < limit {
                Decision::Allow
            } else {
                Decision::RateLimited { rule_id: c.rule.id }
            }
        }),
{
    let max_calls = calls_in_window(c.rule);
    let window_seconds = window_length(c.rule);
    let times = Seq::new(calls, |i: int| now);
    let more = Seq::new(calls + 1, |i: int| now);
    lemma_burst(policy, c, tool, arguments, hour, now, calls);
    law_burst_of_the_limit(max_calls, window_seconds, now, calls);
    law_burst_of_the_limit(max_calls, window_seconds, now, calls + 1);
    assert(more.drop_last() =~= times);
    assert(more.last() == now);
    let before = after_burst(policy, tool, arguments, hour, now, calls);
    let bucket = rule_bucket(c.rule, before.buckets, now);
    let full = rule_bucket(c.rule, policy.buckets, now);
    assert(bucket.admits(now) <==> served(full, more) > served(full, times));
    let drawn = before.buckets.insert(c.rule.id, bucket.after_call(now));
    assert(seq![c].skip(1) =~= Seq::empty());
    assert(seq![c][0] == c);
    assert(decide(seq![c].skip(1), arguments, hour, now, drawn) == (Decision::Allow, drawn));
}

/// The bucket of the rule after a burst is that of a bucket after as many calls.
proof fn lemma_burst(
    policy: Policy,
    c: Compiled,
    tool: Seq<char>,
    arguments: Option<Doc>,
    hour: u32,
    now: nat,
    calls: nat,
)
    requires
        applicable(policy.rules, tool) == seq![c],
        c.rule.action == RuleAction::RateLimit,
        c.condition is None,
        !policy.buckets.contains_key(c.rule.id),
    ensures
        ({
            let b = rule_bucket(c.rule, policy.buckets, now);
            let after = after_burst(policy, tool, arguments, hour, now, calls);
            &&& after.rules == policy.rules
            &&& rule_bucket(c.rule, after.buckets, now) == after_calls(
                b,
                Seq::new(calls, |i: int| now),
            )
        }),
    decreases calls,
{
    if calls > 0 {
        lemma_burst(policy, c, tool, arguments, hour, now, (calls - 1) as nat);
        let times = Seq::new(calls, |i: int| now);
        assert(times.drop_last() =~= Seq::new((calls - 1) as nat, |i: int| now));
        assert(seq![c].skip(1) =~= Seq::empty());
        assert(seq![c][0] == c);
        let before = after_burst(policy, tool, arguments, hour, now, (calls - 1) as nat);
        let drawn = before.buckets.insert(
            c.rule.id,
            rule_bucket(c.rule, before.buckets, now).after_call(now),
        );
        assert(decide(seq![c].skip(1), arguments, hour, now, drawn) == (Decision::Allow, drawn));
        assert(before.decision(tool, arguments, hour, now).1.buckets == drawn);
    }
}

/// Every redacting rule leaves every string in the document as it is.
pub open spec fn all_settled(rules: Seq<Compiled>, d: Doc) -> bool {
    forall|i: int|
        0 <= i < rules.len() && redacts(#[trigger] rules[i]) ==> settled(
            d,
            rules[i].redact_re->0,
            put_in(rules[i].rule),
        )
}

/// A result in which no redacting rule has anything left to replace is kept as
/// it is.
pub proof fn law_scrubbing_of_the_settled(rules: Seq<Compiled>, d: Doc)
    requires
        all_settled(rules, d),
    ensures
        scrubbed(rules, d) == d,
    decreases rules.len(),
{
    if rules.len() > 0 {
        let front = rules.drop_last();
        assert forall|i: int| 0 <= i < front.len() && redacts(#[trigger] front[i]) implies settled(
            d,
            front[i].redact_re->0,
            put_in(front[i].rule),
        ) by {
            assert(front[i] == rules[i]);
        }
        law_scrubbing_of_the_settled(front, d);
        let c = rules[rules.len() - 1];
        if redacts(c) {
            law_redaction_of_the_settled(d, c.redact_re->0, put_in(c.rule));
        }
    }
}

/// Rules scrub a result one after the other, in the order of the policy: each rule
/// that redacts and has a pattern redacts what those before it left, and every other
/// rule leaves it.
pub proof fn law_scrubbing_goes_rule_by_rule(rules: Seq<Compiled>, c: Compiled, d: Doc)
    ensures
        scrubbed(Seq::empty(), d) == d,
        c.rule.action == RuleAction::Redact && c.redact_re is Some ==> scrubbed(rules.push(c), d)
            == redacted(
            scrubbed(rules, d),
            c.redact_re->0,
            match c.rule.replacement {
                Some(r) => r,
                None => Seq::empty(),
            },
        ),
        c.rule.action != RuleAction::Redact || c.redact_re is None ==> scrubbed(rules.push(c), d)
            == scrubbed(rules, d),
{
    assert(rules.push(c).drop_last() =~= rules);
}

/// Where one rule alone redacts, a result is scrubbed to what that rule redacts it to,
/// wherever it stands among the rules and whatever tool it names.
pub proof fn law_one_redacting_rule_scrubs_alone(rules: Seq<Compiled>, k: int, d: Doc)
    requires
        0 <= k < rules.len(),
        rules[k].rule.action == RuleAction::Redact,
        rules[k].redact_re is Some,
        forall|i: int|
            0 <= i < rules.len() && i != k ==> (#[trigger] rules[i]).rule.action
                != RuleAction::Redact || rules[i].redact_re is None,
    ensures
        scrubbed(rules, d) == redacted(
            d,
            rules[k].redact_re->0,
            match rules[k].rule.replacement {
                Some(r) => r,
                None => Seq::empty(),
            },
        ),
    decreases rules.len(),
{
    let front = rules.drop_last();
    assert(front.push(rules.last()) =~= rules);
    law_scrubbing_goes_rule_by_rule(front, rules.last(), d);
    if k < rules.len() - 1 {
        assert(front[k] == rules[k]);
        assert forall|i: int| 0 <= i < front.len() && i != k implies (
        #[trigger] front[i]).rule.action != RuleAction::Redact || front[i].redact_re is None by {
            assert(front[i] == rules[i]);
        }
        law_one_redacting_rule_scrubs_alone(front, k, d);
        assert(rules.last() == rules[rules.len() - 1]);
    } else {
        assert forall|i: int| 0 <= i < front.len() && redacts(#[trigger] front[i]) implies settled(
            d,
            front[i].redact_re->0,
            put_in(front[i].rule),
        ) by {
            assert(front[i] == rules[i]);
        }
        law_scrubbing_of_the_settled(front, d);
    }
}

/// A policy compiles if and only if the condition of every rule is a condition and its
/// pattern a regular expression. Then it has the rules of the file, every rule in its
/// place and as it was, with what its condition means and its pattern compiled.
#[verifier::rlimit(40)]
pub proof fn law_compiled_policies_have_the_rules_of_the_file(rules: Seq<Rule>)
    ensures
        all_compiled(rules) is Ok <==> forall|i: int|
            0 <= i < rules.len() ==> (match (#[trigger] rules[i]).condition {
                Some(c) => meaning(c) is Ok,
                None => true,
            }) && (match rules[i].pattern {
                Some(p) => regex_compiled(p) is Ok,
                None => true,
            }),
        all_compiled(rules) matches Ok(cs) ==> cs.len() == rules.len() && forall|i: int|
            0 <= i < rules.len() ==> (#[trigger] cs[i]).rule == rules[i] && (
            match rules[i].condition {
                Some(c) => cs[i].condition is Some && meaning(c) == Ok::<Form, Fault>(
                    cs[i].condition->0,
                ),
                None => cs[i].condition is None,
            }) && (match rules[i].pattern {
                Some(p) => cs[i].redact_re is Some && regex_compiled(p) == Ok::<Regex, Seq<char>>(
                    cs[i].redact_re->0,
                ),
                None => cs[i].redact_re is None,
            }),
    decreases rules.len(),
{
    if rules.len() > 0 {
        let front = rules.drop_last();
        let last = rules.last();
        law_compiled_policies_have_the_rules_of_the_file(front);
        assert(last == rules[rules.len() - 1]);
        assert forall|i: int| 0 <= i < front.len() implies #[trigger] front[i] == rules[i] by {}
        if all_compiled(rules) is Ok {
            let cs = all_compiled(rules)->Ok_0;
            let before = all_compiled(front)->Ok_0;
            assert forall|i: int| 0 <= i < front.len() implies #[trigger] cs[i] == before[i] by {}
            assert forall|i: int| 0 <= i < rules.len() implies (match (
            #[trigger] rules[i]).condition {
                Some(c) => meaning(c) is Ok,
                None => true,
            }) && (match rules[i].pattern {
                Some(p) => regex_compiled(p) is Ok,
                None => true,
            }) by {
                if i < front.len() {
                    assert(front[i] == rules[i]);
                }
            }
        } else if all_compiled(front) is Err {
            let bad = choose|i: int|
                0 <= i < front.len() && !((match (#[trigger] front[i]).condition {
                    Some(c) => meaning(c) is Ok,
                    None => true,
                }) && (match front[i].pattern {
                    Some(p) => regex_compiled(p) is Ok,
                    None => true,
                }));
            assert(rules[bad] == front[bad]);
        }
    }
}

/// A policy that does not compile is refused for its first rule that does not: the
/// complaint names that rule, and is of its condition if that is none, else of its
/// pattern.
pub proof fn law_first_broken_rule_is_named(rules: Seq<Rule>, k: int)
    requires
        0 <= k < rules.len(),
        all_compiled(rules.take(k)) is Ok,
        compiled(rules[k]) is Err,
    ensures
        match rules[k].condition {
            Some(c) => match meaning(c) {
                Err(fault) => all_compiled(rules) == Err::<Seq<Compiled>, PolicyFault>(
                    PolicyFault::InvalidCondition { rule_id: rules[k].id, fault },
                ),
                Ok(_) => regex_compiled(rules[k].pattern->0) is Err && all_compiled(rules) == Err::<
                    Seq<Compiled>,
                    PolicyFault,
                >(
                    PolicyFault::InvalidPattern {
                        rule_id: rules[k].id,
                        reason: regex_compiled(rules[k].pattern->0)->Err_0,
                    },
                ),
            },
            None => regex_compiled(rules[k].pattern->0) is Err && all_compiled(rules) == Err::<
                Seq<Compiled>,
                PolicyFault,
            >(
                PolicyFault::InvalidPattern {
                    rule_id: rules[k].id,
                    reason: regex_compiled(rules[k].pattern->0)->Err_0,
                },
            ),
        },
    decreases rules.len(),
{
    let upto = rules.take(k + 1);
    assert(upto.drop_last() =~= rules.take(k));
    assert(upto.last() == rules[k]);
    lemma_first_fault(rules, k + 1);
}

/// Scrubbing a result twice gives what scrubbing it once gives, where the first
/// time leaves nothing for any redacting rule to replace.
pub proof fn law_scrubbing_is_idempotent(rules: Seq<Compiled>, d: Doc)
    requires
        all_settled(rules, scrubbed(rules, d)),
    ensures
        scrubbed(rules, scrubbed(rules, d)) == scrubbed(rules, d),
{
    law_scrubbing_of_the_settled(rules, scrubbed(rules, d));
}

/// To scrub a result twice is to scrub it once, where one rule alone redacts and its
/// replacement seals; and a result in which that rule's pattern matches nowhere is
/// given back as it is.
pub proof fn law_scrubbing_twice_is_scrubbing_once(
    engine: PolicyEngine,
    k: int,
    value: Json,
    once: Json,
    twice: Json,
)
    requires
        redacts_alone(engine@.rules, k),
        seals(engine@.rules[k].redact_re->0, put_in(engine@.rules[k].rule)),
        call_ensures(PolicyEngine::redact_output, (&engine, &value), once),
        call_ensures(PolicyEngine::redact_output, (&engine, &once), twice),
    ensures
        twice@ == once@,
        clean(value@, engine@.rules[k].redact_re->0) ==> once@ == value@,
{
}

/// Scrubbing changes strings alone.
pub proof fn law_scrubbing_keeps_the_shape(rules: Seq<Compiled>, d: Doc)
    ensures
        alike(d, scrubbed(rules, d)),
    decreases rules.len(),
{
    if rules.len() == 0 {
        lemma_alike_itself(d);
    } else {
        let c = rules.last();
        let before = scrubbed(rules.drop_last(), d);
        law_scrubbing_keeps_the_shape(rules.drop_last(), d);
        if redacts(c) {
            law_redaction_keeps_the_shape(before, c.redact_re->0, put_in(c.rule));
            lemma_alike_chains(d, before, scrubbed(rules, d));
        }
    }
}

proof fn lemma_alike_itself(d: Doc)
    ensures
        alike(d, d),
    decreases d,
{
    match d {
        Doc::Array(a) => {
            assert forall|i: int| 0 <= i < a.len() implies alike(#[trigger] a[i], a[i]) by {
                lemma_alike_itself(a[i]);
            }
        },
        Doc::Object(m) => {
            assert forall|k: Seq<char>| #[trigger] m.contains_key(k) implies alike(m[k], m[k]) by {
                lemma_alike_itself(m[k]);
            }
        },
        _ => {},
    }
}

proof fn lemma_alike_chains(a: Doc, b: Doc, c: Doc)
    requires
        alike(a, b),
        alike(b, c),
    ensures
        alike(a, c),
    decreases a,
{
    match a {
        Doc::Array(x) => {
            assert forall|i: int| 0 <= i < x.len() implies alike(
                #[trigger] x[i],
                c->Array_0[i],
            ) by {
                assert(alike(b->Array_0[i], c->Array_0[i]));
                lemma_alike_chains(x[i], b->Array_0[i], c->Array_0[i]);
            }
        },
        Doc::Object(x) => {
            assert forall|k: Seq<char>| #[trigger] x.contains_key(k) implies alike(
                x[k],
                c->Object_0[k],
            ) by {
                assert(b->Object_0.contains_key(k));
                lemma_alike_chains(x[k], b->Object_0[k], c->Object_0[k]);
            }
        },
        _ => {},
    }
}

/// A rule that limits the rate and has a token left does not settle a call: it draws on
/// its bucket, and what is decided is what the policy without it, the token taken,
/// decides.
#[verifier::rlimit(40)]
pub proof fn law_admitted_calls_are_held_against_the_rules_below(
    policy: Policy,
    k: int,
    tool: Seq<char>,
    arguments: Option<Doc>,
    hour: u32,
    now: nat,
)
    requires
        0 <= k < policy.rules.len(),
        forall|i: int|
            0 <= i < k ==> !(covers((#[trigger] policy.rules[i]).rule, tool) && applies(
                policy.rules[i],
                arguments,
                hour,
            )),
        covers(policy.rules[k].rule, tool),
        applies(policy.rules[k], arguments, hour),
        policy.rules[k].rule.action == RuleAction::RateLimit,
        policy.buckets.contains_key(policy.rules[k].rule.id),
    ensures
        ({
            let id = policy.rules[k].rule.id;
            let bucket = policy.buckets[id];
            let drawn = policy.buckets.insert(id, bucket.after_call(now));
            let below = Policy { rules: policy.rules.skip(k + 1), buckets: drawn };
            let got = policy.decision(tool, arguments, hour, now);
            let got_below = below.decision(tool, arguments, hour, now);
            &&& bucket.admits(now) ==> got.0 == got_below.0 && got.1.buckets
                == got_below.1.buckets
            &&& !bucket.admits(now) ==> got == (
                Decision::RateLimited { rule_id: id },
                Policy { rules: policy.rules, buckets: drawn },
            )
        }),
{
    let rules = policy.rules;
    let above = rules.take(k);
    let asked = applicable(rules, tool);
    let n = applicable(above, tool).len() as int;
    lemma_place_among_asked(rules, k, tool);
    lemma_asked(above, tool);
    assert forall|i: int| 0 <= i < n implies !applies(#[trigger] asked[i], arguments, hour) by {
        let c = applicable(above, tool)[i];
        assert(asked.take(n)[i] == asked[i]);
        let j = choose|j: int| 0 <= j < above.len() && above[j] == c;
        assert(rules[j] == c);
    }
    lemma_skip_to(asked, n, arguments, hour, now, policy.buckets);
    assert(asked.skip(n)[0] == asked[n]);
    assert(asked.skip(n).skip(1) =~= asked.skip(n + 1));
    let one = seq![rules[k]];
    let below = rules.skip(k + 1);
    assert(rules =~= (above + one) + below);
    lemma_asked_splits(above + one, below, tool);
    lemma_asked_splits(above, one, tool);
    assert(applicable(one, tool) == one) by {
        reveal(Seq::filter);
        assert(one.drop_last() =~= Seq::<Compiled>::empty());
        assert(one.last() == rules[k]);
        assert(applicable(one, tool) =~= one);
    }
    assert(asked.skip(n + 1) =~= applicable(below, tool));
}

/// A rule of a policy file applies to a call if and only if it has no condition, or what
/// its condition says holds for the arguments and the hour of the call.
pub proof fn law_written_conditions_decide(
    rules: Seq<Rule>,
    i: int,
    arguments: Option<Doc>,
    hour: u32,
)
    requires
        0 <= i < rules.len(),
        all_compiled(rules) is Ok,
    ensures
        ({
            let c = all_compiled(rules)->Ok_0[i];
            &&& c.rule == rules[i]
            &&& rules[i].condition is None ==> applies(c, arguments, hour)
            &&& rules[i].condition matches Some(text) ==> meaning(text) is Ok && (applies(
                c,
                arguments,
                hour,
            ) <==> holds(meaning(text)->Ok_0, arguments, hour))
        }),
{
    law_compiled_policies_have_the_rules_of_the_file(rules);
    assert(all_compiled(rules)->Ok_0[i].rule == rules[i]);
}

} // verus!
