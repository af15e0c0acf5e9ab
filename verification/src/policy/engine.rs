//! The policy engine: compiles the rules of a policy and decides on tool calls.
use regex::Regex;
use std::time::Instant;
use vstd::hash_map::StringHashMap;
use vstd::prelude::*;

use super::condition::{doc_of, holds, meaning, ConditionError, EvalCtx, Expr, Fault, Form};
use super::redact::{clean, redact_value, redacted};
use super::rules::{put_in, rule_views, PolicyFile, PolicyRule, Rule, RuleAction};
use super::telling::fault_text;
use crate::clock::{reads, Clock, Timestamp};
use crate::document::Doc;
use crate::json::Json;
use crate::pattern::{compile, regex_compiled, seals};
use crate::ratelimit::token_bucket::{Bucket, TokenBucket};
use crate::text::{after_prefix, begins_with};

verus! {

/// What a policy decides of a call.
#[derive(Debug)]
pub enum PolicyDecision {
    Allow,
    Deny { rule_id: String, message: String },
    Redact { rule_id: String, arguments: Json },
    RateLimited { rule_id: String },
}

/// What a decision says.
#[verifier::ext_equal]
pub enum Decision {
    Allow,
    Deny { rule_id: Seq<char>, message: Seq<char> },
    Redact { rule_id: Seq<char>, arguments: Doc },
    RateLimited { rule_id: Seq<char> },
}

impl View for PolicyDecision {
    type V = Decision;

    open spec fn view(&self) -> Decision {
        match self {
            PolicyDecision::Allow => Decision::Allow,
            PolicyDecision::Deny { rule_id, message } => Decision::Deny {
                rule_id: rule_id@,
                message: message@,
            },
            PolicyDecision::Redact { rule_id, arguments } => Decision::Redact {
                rule_id: rule_id@,
                arguments: arguments@,
            },
            PolicyDecision::RateLimited { rule_id } => Decision::RateLimited { rule_id: rule_id@ },
        }
    }
}

/// Why a policy does not compile.
#[derive(Debug)]
pub enum PolicyError {
    /// The condition of a rule is no condition.
    InvalidCondition { rule_id: String, error: ConditionError },
    /// The pattern of a rule is no regular expression.
    InvalidPattern { rule_id: String, reason: String },
}

/// What an error says.
#[verifier::ext_equal]
pub enum PolicyFault {
    InvalidCondition { rule_id: Seq<char>, fault: Fault },
    InvalidPattern { rule_id: Seq<char>, reason: Seq<char> },
}

impl View for PolicyError {
    type V = PolicyFault;

    open spec fn view(&self) -> PolicyFault {
        match self {
            PolicyError::InvalidCondition { rule_id, error } => PolicyFault::InvalidCondition {
                rule_id: rule_id@,
                fault: error@,
            },
            PolicyError::InvalidPattern { rule_id, reason } => PolicyFault::InvalidPattern {
                rule_id: rule_id@,
                reason: reason@,
            },
        }
    }
}

/// What the user is told of an error.
pub open spec fn told(fault: PolicyFault) -> Seq<char> {
    match fault {
        PolicyFault::InvalidCondition { rule_id, .. } => "Invalid condition in rule '"@ + rule_id
            + "'"@,
        PolicyFault::InvalidPattern { rule_id, .. } => "Invalid redact pattern in rule '"@ + rule_id
            + "'"@,
    }
}

impl PolicyError {
    /// What the user is told.
    pub fn message(&self) -> (text: String)
        ensures
            text@ == told(self@),
    {
        match self {
            PolicyError::InvalidCondition { rule_id, .. } => {
                let mut text = "Invalid condition in rule '".to_owned();
                text.append(rule_id.as_str());
                text.append("'");
                text
            },
            PolicyError::InvalidPattern { rule_id, .. } => {
                let mut text = "Invalid redact pattern in rule '".to_owned();
                text.append(rule_id.as_str());
                text.append("'");
                text
            },
        }
    }
}

/// The user is told which rule is wrong, and whether its condition or its pattern is.
pub proof fn law_errors_name_the_rule(rule_id: Seq<char>, fault: Fault, reason: Seq<char>)
    ensures
        told(PolicyFault::InvalidCondition { rule_id, fault }) == "Invalid condition in rule '"@
            + rule_id + "'"@,
        told(PolicyFault::InvalidPattern { rule_id, reason }) == "Invalid redact pattern in rule '"@
            + rule_id + "'"@,
        reason_of(PolicyFault::InvalidCondition { rule_id, fault }) == fault_text(fault),
        reason_of(PolicyFault::InvalidPattern { rule_id, reason }) == reason,
{
}

/// What is wrong with the condition or the pattern.
pub open spec fn reason_of(fault: PolicyFault) -> Seq<char> {
    match fault {
        PolicyFault::InvalidCondition { fault, .. } => fault_text(fault),
        PolicyFault::InvalidPattern { reason, .. } => reason,
    }
}

impl PolicyError {
    /// What is wrong with the condition or the pattern.
    pub fn reason(&self) -> (text: String)
        ensures
            text@ == reason_of(self@),
    {
        match self {
            PolicyError::InvalidCondition { error, .. } => error.message(),
            PolicyError::InvalidPattern { reason, .. } => reason.clone(),
        }
    }
}

/// A rule, its condition and its pattern compiled.
struct CompiledRule {
    rule: PolicyRule,
    condition: Option<Expr>,
    redact_re: Option<Regex>,
}

/// What a compiled rule says.
#[verifier::ext_equal]
pub struct Compiled {
    pub rule: Rule,
    pub condition: Option<Form>,
    pub redact_re: Option<Regex>,
}

impl View for CompiledRule {
    type V = Compiled;

    closed spec fn view(&self) -> Compiled {
        Compiled {
            rule: self.rule@,
            condition: match self.condition {
                Some(e) => Some(e@),
                None => None,
            },
            redact_re: self.redact_re,
        }
    }
}

/// What a rule compiles to. The condition is looked at before the pattern.
pub open spec fn compiled(rule: Rule) -> Result<Compiled, PolicyFault> {
    let condition: Result<Option<Form>, Fault> = match rule.condition {
        None => Ok(None),
        Some(c) => match meaning(c) {
            Ok(f) => Ok(Some(f)),
            Err(fault) => Err(fault),
        },
    };
    let redact_re: Result<Option<Regex>, Seq<char>> = match rule.pattern {
        None => Ok(None),
        Some(p) => match regex_compiled(p) {
            Ok(re) => Ok(Some(re)),
            Err(reason) => Err(reason),
        },
    };
    match condition {
        Err(fault) => Err(PolicyFault::InvalidCondition { rule_id: rule.id, fault }),
        Ok(condition) => match redact_re {
            Err(reason) => Err(PolicyFault::InvalidPattern { rule_id: rule.id, reason }),
            Ok(redact_re) => Ok(Compiled { rule, condition, redact_re }),
        },
    }
}

/// What a list of rules compiles to: every rule in its place, or the fault of the
/// first rule that has one.
pub open spec fn all_compiled(rules: Seq<Rule>) -> Result<Seq<Compiled>, PolicyFault>
    decreases rules.len(),
{
    if rules.len() == 0 {
        Ok(Seq::empty())
    } else {
        match all_compiled(rules.drop_last()) {
            Err(fault) => Err(fault),
            Ok(front) => match compiled(rules.last()) {
                Err(fault) => Err(fault),
                Ok(c) => Ok(front.push(c)),
            },
        }
    }
}

/// Compiles a rule.
fn compile_rule(rule: PolicyRule) -> (r: Result<CompiledRule, PolicyError>)
    ensures
        match r {
            Ok(c) => compiled(rule@) == Ok::<Compiled, PolicyFault>(c@),
            Err(e) => compiled(rule@) == Err::<Compiled, PolicyFault>(e@),
        },
{
    let condition = match &rule.condition {
        None => None,
        Some(c) => match Expr::parse(c.as_str()) {
            Ok(e) => Some(e),
            Err(error) => {
                return Err(PolicyError::InvalidCondition { rule_id: rule.id.clone(), error });
            },
        },
    };
    let redact_re = match &rule.pattern {
        None => None,
        Some(p) => match compile(p.as_str()) {
            Ok(re) => Some(re),
            Err(reason) => {
                return Err(PolicyError::InvalidPattern { rule_id: rule.id.clone(), reason });
            },
        },
    };
    Ok(CompiledRule { rule, condition, redact_re })
}

/// What compiled rules say.
spec fn compiled_views(rules: Seq<CompiledRule>) -> Seq<Compiled> {
    Seq::new(rules.len(), |i: int| rules[i]@)
}

/// Where one of the first rules does not compile, the list does not either, for
/// the same reason.
pub proof fn lemma_first_fault(rules: Seq<Rule>, n: int)
    requires
        0 <= n <= rules.len(),
        all_compiled(rules.take(n)) is Err,
    ensures
        all_compiled(rules) == all_compiled(rules.take(n)),
    decreases rules.len(),
{
    if n == rules.len() {
        assert(rules.take(n) =~= rules);
    } else {
        assert(rules.drop_last().take(n) =~= rules.take(n));
        lemma_first_fault(rules.drop_last(), n);
    }
}

/// Compiles the rules of a policy file.
fn compile_file(file: PolicyFile) -> (r: Result<Vec<CompiledRule>, PolicyError>)
    ensures
        match r {
            Ok(c) => all_compiled(rule_views(file.rules@)) == Ok::<Seq<Compiled>, PolicyFault>(
                compiled_views(c@),
            ),
            Err(e) => all_compiled(rule_views(file.rules@)) == Err::<Seq<Compiled>, PolicyFault>(
                e@,
            ),
        },
{
    let ghost rules = rule_views(file.rules@);
    let mut out: Vec<CompiledRule> = Vec::new();
    assert(rules.take(0) =~= Seq::empty());
    assert(compiled_views(out@) =~= Seq::empty());
    for rule in it: file.rules
        invariant
            rules == rule_views(it.seq()),
            all_compiled(rules.take(it.index())) == Ok::<Seq<Compiled>, PolicyFault>(
                compiled_views(out@),
            ),
    {
        let ghost n = it.index();
        let ghost done = out@;
        assert(rules.take(n + 1).drop_last() =~= rules.take(n));
        match compile_rule(rule) {
            Ok(c) => {
                out.push(c);
                assert(compiled_views(out@) =~= compiled_views(done).push(c@));
            },
            Err(e) => {
                proof {
                    lemma_first_fault(rules, n + 1);
                }
                return Err(e);
            },
        }
    }
    assert(rules.take(rules.len() as int) =~= rules);
    Ok(out)
}

/// The rule is for calls of a tool: it names the tool or every tool, and the
/// tool's name begins as it says.
pub open spec fn covers(rule: Rule, tool: Seq<char>) -> bool {
    &&& rule.tool == tool || rule.tool == "*"@
    &&& rule.tool_prefix matches Some(p) ==> begins_with(tool, p)
}

/// The rules that a call of a tool is held against, in the order in which they
/// are asked: that of the policy file.
pub open spec fn applicable(rules: Seq<Compiled>, tool: Seq<char>) -> Seq<Compiled> {
    rules.filter(|c: Compiled| covers(c.rule, tool))
}

/// The places among the first `n` rules of those that name a tool.
spec fn places(rules: Seq<Compiled>, tool: Seq<char>, n: nat) -> Seq<usize>
    decreases n,
{
    if n == 0 {
        Seq::empty()
    } else if rules[n - 1].rule.tool == tool {
        places(rules, tool, (n - 1) as nat).push((n - 1) as usize)
    } else {
        places(rules, tool, (n - 1) as nat)
    }
}

/// The rules at these places.
spec fn at_places(rules: Seq<Compiled>, at: Seq<usize>) -> Seq<Compiled> {
    Seq::new(at.len(), |i: int| rules[at[i] as int])
}

/// Every place comes after those before it.
spec fn ascending(at: Seq<usize>) -> bool {
    forall|i: int, j: int| 0 <= i < j < at.len() ==> #[trigger] at[i] < #[trigger] at[j]
}

/// The places of the rules that name a tool ascend, and are those of the rules
/// that do.
proof fn lemma_places(rules: Seq<Compiled>, tool: Seq<char>, n: nat)
    requires
        n <= rules.len() <= usize::MAX,
    ensures
        ascending(places(rules, tool, n)),
        forall|i: int|
            0 <= i < places(rules, tool, n).len() ==> (#[trigger] places(rules, tool, n)[i]) < n
                && rules[places(rules, tool, n)[i] as int].rule.tool == tool,
        forall|p: usize|
            p < n && (#[trigger] rules[p as int]).rule.tool == tool ==> places(
                rules,
                tool,
                n,
            ).contains(p),
    decreases n,
{
    if n > 0 {
        let m = (n - 1) as nat;
        let front = places(rules, tool, m);
        let all = places(rules, tool, n);
        lemma_places(rules, tool, m);
        assert forall|p: usize|
            p < n && (#[trigger] rules[p as int]).rule.tool == tool implies all.contains(p) by {
            if p == m {
                assert(all[all.len() - 1] == p);
            } else {
                let k = choose|k: int| 0 <= k < front.len() && front[k] == p;
                assert(all[k] == p);
            }
        }
    }
}

/// Places that ascend, and are just those of the first `n` rules that cover a
/// tool, hold the rules that a call of the tool is held against.
proof fn lemma_asked_in_order(rules: Seq<Compiled>, tool: Seq<char>, n: nat, at: Seq<usize>)
    requires
        n <= rules.len() <= usize::MAX,
        ascending(at),
        forall|p: usize| #[trigger]
            at.contains(p) <==> p < n && covers(rules[p as int].rule, tool),
    ensures
        at_places(rules, at) == applicable(rules.take(n as int), tool),
    decreases n,
{
    reveal(Seq::filter);
    let front = rules.take(n as int);
    if n == 0 {
        if at.len() > 0 {
            assert(at.contains(at[0]));
        }
        assert(at_places(rules, at) =~= applicable(front, tool));
    } else {
        let last = (n - 1) as usize;
        assert(front.drop_last() =~= rules.take(n - 1));
        assert(front.last() == rules[n - 1]);
        if covers(rules[n - 1].rule, tool) {
            assert(at.contains(last));
            let k = choose|k: int| 0 <= k < at.len() && at[k] == last;
            if k < at.len() - 1 {
                assert(at.contains(at[at.len() - 1]));
            }
            let less = at.drop_last();
            assert forall|p: usize| #[trigger]
                less.contains(p) <==> p < n - 1 && covers(rules[p as int].rule, tool) by {
                if less.contains(p) {
                    let i = choose|i: int| 0 <= i < less.len() && less[i] == p;
                    assert(at[i] == p);
                    assert(at.contains(p));
                }
                if p < n - 1 && covers(rules[p as int].rule, tool) {
                    assert(at.contains(p));
                    let i = choose|i: int| 0 <= i < at.len() && at[i] == p;
                    assert(less[i] == p);
                }
            }
            lemma_asked_in_order(rules, tool, (n - 1) as nat, less);
            assert(at_places(rules, at) =~= at_places(rules, less).push(rules[n - 1]));
        } else {
            assert forall|p: usize| #[trigger]
                at.contains(p) <==> p < n - 1 && covers(rules[p as int].rule, tool) by {}
            lemma_asked_in_order(rules, tool, (n - 1) as nat, at);
        }
        assert(at_places(rules, at) =~= applicable(front, tool));
    }
}

/// The rules of a policy with an index by tool, so that a call is held only
/// against the rules that can apply to it.
struct CompiledPolicy {
    rules: Vec<CompiledRule>,
    by_tool: StringHashMap<Vec<usize>>,
    wildcard: Vec<usize>,
}

/// An index lists, for each tool, the places among the first `n` rules of those
/// that name it.
spec fn indexed(
    rules: Seq<Compiled>,
    by_tool: Map<Seq<char>, Vec<usize>>,
    wildcard: Seq<usize>,
    n: nat,
) -> bool {
    &&& wildcard == places(rules, "*"@, n)
    &&& forall|tool: Seq<char>|
        #![trigger by_tool.contains_key(tool)]
        tool != "*"@ ==> if by_tool.contains_key(tool) {
            by_tool[tool]@ == places(rules, tool, n)
        } else {
            places(rules, tool, n).len() == 0
        }
    &&& !by_tool.contains_key("*"@)
}

impl CompiledPolicy {
    #[verifier::type_invariant]
    spec fn sound(self) -> bool {
        indexed(
            compiled_views(self.rules@),
            self.by_tool@,
            self.wildcard@,
            self.rules@.len(),
        )
    }

    /// Indexes compiled rules by tool.
    fn build(compiled_rules: Vec<CompiledRule>) -> (p: CompiledPolicy)
        ensures
            p.rules == compiled_rules,
    {
        let mut by_tool: StringHashMap<Vec<usize>> = StringHashMap::new();
        let mut wildcard: Vec<usize> = Vec::new();
        let ghost rules = compiled_views(compiled_rules@);
        let mut idx: usize = 0;
        while idx < compiled_rules.len()
            invariant
                idx <= compiled_rules@.len(),
                rules == compiled_views(compiled_rules@),
                indexed(rules, by_tool@, wildcard@, idx as nat),
            decreases compiled_rules@.len() - idx,
        {
            let tool = &compiled_rules[idx].rule.tool;
            let ghost before = by_tool@;
            let ghost wild = wildcard@;
            assert(rules[idx as int].rule.tool == tool@);
            if *tool.as_str() == *"*" {
                wildcard.push(idx);
            } else {
                let mut own: Vec<usize> = match by_tool.get(tool.as_str()) {
                    Some(own) => copy_places(own),
                    None => Vec::new(),
                };
                own.push(idx);
                by_tool.insert(tool.clone(), own);
            }
            proof {
                let n = (idx + 1) as nat;
                assert forall|t: Seq<char>|
                    #![trigger by_tool@.contains_key(t)]
                    t != "*"@ implies if by_tool@.contains_key(t) {
                    by_tool@[t]@ == places(rules, t, n)
                } else {
                    places(rules, t, n).len() == 0
                } by {
                    if t == tool@ && !before.contains_key(t) {
                        assert(places(rules, t, idx as nat) =~= Seq::empty());
                    }
                }
            }
            idx += 1;
        }
        CompiledPolicy { rules: compiled_rules, by_tool, wildcard }
    }

    /// The places of the rules that name a tool, and then of those that name every
    /// tool.
    fn matching_indices(&self, tool_name: &str) -> (out: Vec<usize>)
        ensures
            ({
                let rules = compiled_views(self.rules@);
                let every = places(rules, "*"@, rules.len());
                out@ == if tool_name@ == "*"@ {
                    every
                } else {
                    places(rules, tool_name@, rules.len()) + every
                }
            }),
    {
        let mut out: Vec<usize> = match self.by_tool.get(tool_name) {
            Some(own) => copy_places(own),
            None => Vec::new(),
        };
        let ghost own = out@;
        let mut i: usize = 0;
        while i < self.wildcard.len()
            invariant
                i <= self.wildcard@.len(),
                out@ == own + self.wildcard@.take(i as int),
            decreases self.wildcard@.len() - i,
        {
            out.push(self.wildcard[i]);
            i += 1;
            assert(out@ =~= own + self.wildcard@.take(i as int));
        }
        proof {
            use_type_invariant(self);
            let rules = compiled_views(self.rules@);
            assert(self.wildcard@.take(i as int) =~= self.wildcard@);
            if tool_name@ == "*"@ {
                assert(own =~= Seq::empty());
                assert(out@ =~= self.wildcard@);
            } else {
                assert(own =~= places(rules, tool_name@, rules.len()));
            }
        }
        out
    }

    /// The places of the rules that a call of a tool is held against, in the order
    /// of the policy file.
    fn asked_indices(&self, tool_name: &str) -> (out: Vec<usize>)
        ensures
            ascending(out@),
            forall|p: usize| #[trigger]
                out@.contains(p) <==> p < self.rules@.len() && covers(
                    self.rules@[p as int]@.rule,
                    tool_name@,
                ),
    {
        let at = self.matching_indices(tool_name);
        let len: usize = self.rules.len();
        let ghost rules = compiled_views(self.rules@);
        proof {
            use_type_invariant(self);
            assert(len == rules.len());
            lemma_places(rules, tool_name@, rules.len());
            lemma_places(rules, "*"@, rules.len());
        }
        let split: usize = at.len() - self.wildcard.len();
        let mut i: usize = 0;
        let mut j: usize = split;
        let mut out: Vec<usize> = Vec::new();
        while i < split || j < at.len()
            invariant
                rules == compiled_views(self.rules@),
                i <= split <= j <= at@.len(),
                ascending(at@.take(split as int)),
                ascending(at@.skip(split as int)),
                forall|k: int, l: int|
                    0 <= k < split <= l < at@.len() ==> #[trigger] at@[k] != #[trigger] at@[l],
                forall|k: int| 0 <= k < at@.len() ==> (#[trigger] at@[k]) < rules.len(),
                ascending(out@),
                forall|k: int, l: int|
                    0 <= k < out@.len() && (i <= l < split || j <= l < at@.len())
                        ==> #[trigger] out@[k] < #[trigger] at@[l],
                forall|k: int| 0 <= k < out@.len() ==> at@.contains(#[trigger] out@[k]) && covers(
                    rules[out@[k] as int].rule,
                    tool_name@,
                ),
                forall|l: int|
                    (0 <= l < i || split <= l < j) && covers(
                        rules[#[trigger] at@[l] as int].rule,
                        tool_name@,
                    ) ==> out@.contains(at@[l]),
                forall|l: int|
                    0 <= l < at@.len() ==> rules[#[trigger] at@[l] as int].rule.tool == tool_name@
                        || rules[at@[l] as int].rule.tool == "*"@,
            decreases (split - i) + (at@.len() - j),
        {
            let first = j >= at.len() || (i < split && at[i] < at[j]);
            let next: usize = if first {
                at[i]
            } else {
                at[j]
            };
            let ghost before = out@;
            let ghost place: int = if first {
                i as int
            } else {
                j as int
            };
            proof {
                assert forall|l: int|
                    l != place && (i <= l < split || j <= l < at@.len()) implies next
                    < #[trigger] at@[l] by {
                    if l < split {
                        assert(at@.take(split as int)[l] == at@[l]);
                        assert(at@.take(split as int)[i as int] == at@[i as int]);
                    } else {
                        assert(at@.skip(split as int)[l - split] == at@[l]);
                        assert(at@.skip(split as int)[j - split] == at@[j as int]);
                    }
                }
            }
            let fits = match &self.rules[next].rule.tool_prefix {
                Some(p) => after_prefix(tool_name, p.as_str()).is_some(),
                None => true,
            };
            assert(rules[next as int] == self.rules@[next as int]@);
            assert(fits == covers(rules[next as int].rule, tool_name@));
            if fits {
                out.push(next);
            }
            proof {
                assert forall|l: int|
                    (0 <= l < i || split <= l < j || l == place) && covers(
                        rules[#[trigger] at@[l] as int].rule,
                        tool_name@,
                    ) implies out@.contains(at@[l]) by {
                    if l == place {
                        assert(out@[out@.len() - 1] == at@[l]);
                    } else {
                        let k = choose|k: int| 0 <= k < before.len() && before[k] == at@[l];
                        assert(out@[k] == at@[l]);
                    }
                }
                if fits {
                    assert(at@[place] == next);
                }
            }
            if first {
                i += 1;
            } else {
                j += 1;
            }
        }
        proof {
            assert forall|p: usize| #[trigger]
                out@.contains(p) <==> p < self.rules@.len() && covers(
                    self.rules@[p as int]@.rule,
                    tool_name@,
                ) by {
                if out@.contains(p) {
                    let k = choose|k: int| 0 <= k < out@.len() && out@[k] == p;
                    assert(at@.contains(out@[k]));
                    assert(rules[p as int] == self.rules@[p as int]@);
                }
                if p < self.rules@.len() && covers(self.rules@[p as int]@.rule, tool_name@) {
                    assert(rules[p as int] == self.rules@[p as int]@);
                    lemma_in_either(rules, tool_name@, at@, p);
                    let l = choose|l: int| 0 <= l < at@.len() && at@[l] == p;
                    assert(out@.contains(at@[l]));
                }
            }
        }
        out
    }
}

/// A rule that names the tool or every tool has its place among those.
proof fn lemma_in_either(rules: Seq<Compiled>, tool: Seq<char>, at: Seq<usize>, p: usize)
    requires
        p < rules.len() <= usize::MAX,
        rules[p as int].rule.tool == tool || rules[p as int].rule.tool == "*"@,
        at == if tool == "*"@ {
            places(rules, "*"@, rules.len())
        } else {
            places(rules, tool, rules.len()) + places(rules, "*"@, rules.len())
        },
    ensures
        at.contains(p),
{
    let own = places(rules, tool, rules.len());
    let every = places(rules, "*"@, rules.len());
    lemma_places(rules, tool, rules.len());
    lemma_places(rules, "*"@, rules.len());
    if tool != "*"@ {
        if rules[p as int].rule.tool == tool {
            let k = choose|k: int| 0 <= k < own.len() && own[k] == p;
            assert(at[k] == p);
        } else {
            let k = choose|k: int| 0 <= k < every.len() && every[k] == p;
            assert(at[own.len() + k] == p);
        }
    }
}

/// A copy of a list of places.
fn copy_places(at: &Vec<usize>) -> (out: Vec<usize>)
    ensures
        out@ == at@,
{
    let mut out: Vec<usize> = Vec::new();
    let mut i: usize = 0;
    while i < at.len()
        invariant
            i <= at@.len(),
            out@ == at@.take(i as int),
        decreases at@.len() - i,
    {
        out.push(at[i]);
        i += 1;
        assert(out@ =~= at@.take(i as int));
    }
    assert(out@ =~= at@);
    out
}

/// The rule applies to a call with these arguments at this hour.
pub open spec fn applies(c: Compiled, arguments: Option<Doc>, hour: u32) -> bool {
    match c.condition {
        Some(f) => holds(f, arguments, hour),
        None => true,
    }
}

/// What a caller is told that a rule refuses.
pub open spec fn denial(rule: Rule) -> Seq<char> {
    match rule.message {
        Some(m) => m,
        None => "Blocked by policy rule '"@ + rule.id + "'"@,
    }
}

/// How many calls a rate-limiting rule lets through in a window.
pub open spec fn calls_in_window(rule: Rule) -> nat {
    match rule.max_calls {
        Some(n) => n as nat,
        None => 100,
    }
}

/// How many seconds the window of a rate-limiting rule has.
pub open spec fn window_length(rule: Rule) -> nat {
    match rule.window_seconds {
        Some(n) => n as nat,
        None => 60,
    }
}

/// The bucket that calls under a rate-limiting rule draw from: the one that the
/// rule's id has, or a full one.
pub open spec fn rule_bucket(rule: Rule, buckets: Map<Seq<char>, Bucket>, now: nat) -> Bucket {
    if buckets.contains_key(rule.id) {
        buckets[rule.id]
    } else {
        Bucket::full(calls_in_window(rule), window_length(rule), now)
    }
}

/// What these rules, asked one after the other, decide of a call, and the
/// buckets after it. The first rule that settles the call decides. A rule that
/// does not apply settles nothing, nor does one that limits the rate and has a
/// token left, nor one that redacts without arguments or a pattern. What nothing
/// settles is allowed.
pub open spec fn decide(
    rules: Seq<Compiled>,
    arguments: Option<Doc>,
    hour: u32,
    now: nat,
    buckets: Map<Seq<char>, Bucket>,
) -> (Decision, Map<Seq<char>, Bucket>)
    decreases rules.len(),
{
    if rules.len() == 0 {
        (Decision::Allow, buckets)
    } else {
        let c = rules[0];
        let rest = rules.skip(1);
        if !applies(c, arguments, hour) {
            decide(rest, arguments, hour, now, buckets)
        } else {
            match c.rule.action {
                RuleAction::Allow => (Decision::Allow, buckets),
                RuleAction::Deny => (
                    Decision::Deny { rule_id: c.rule.id, message: denial(c.rule) },
                    buckets,
                ),
                RuleAction::Redact => match (arguments, c.redact_re) {
                    (Some(d), Some(re)) => (
                        Decision::Redact {
                            rule_id: c.rule.id,
                            arguments: redacted(d, re, put_in(c.rule)),
                        },
                        buckets,
                    ),
                    _ => decide(rest, arguments, hour, now, buckets),
                },
                RuleAction::RateLimit => {
                    let bucket = rule_bucket(c.rule, buckets, now);
                    let after = buckets.insert(c.rule.id, bucket.after_call(now));
                    if bucket.admits(now) {
                        decide(rest, arguments, hour, now, after)
                    } else {
                        (Decision::RateLimited { rule_id: c.rule.id }, after)
                    }
                },
            }
        }
    }
}

/// The document with what every redacting rule strikes out replaced, rule after
/// rule.
pub open spec fn scrubbed(rules: Seq<Compiled>, d: Doc) -> Doc
    decreases rules.len(),
{
    if rules.len() == 0 {
        d
    } else {
        let c = rules.last();
        let before = scrubbed(rules.drop_last(), d);
        match (c.rule.action, c.redact_re) {
            (RuleAction::Redact, Some(re)) => redacted(before, re, put_in(c.rule)),
            _ => before,
        }
    }
}

/// The rule redacts the results of tools.
pub open spec fn redacts(c: Compiled) -> bool {
    c.rule.action == RuleAction::Redact && c.redact_re is Some
}

/// The rule at this place is the only one that redacts.
pub open spec fn redacts_alone(rules: Seq<Compiled>, k: int) -> bool {
    &&& 0 <= k < rules.len()
    &&& redacts(rules[k])
    &&& forall|i: int| 0 <= i < rules.len() && i != k ==> !redacts(#[trigger] rules[i])
}

/// The decision is to redact under this rule, and the rule's pattern matches nowhere
/// in the arguments that it leaves.
pub open spec fn struck(d: Decision, c: Compiled) -> bool {
    &&& d matches Decision::Redact { rule_id, arguments }
    &&& rule_id == c.rule.id
    &&& clean(arguments, c.redact_re->0)
}

/// The rule at this place is the first that is for the tool and applies, and it has
/// arguments to redact and a pattern to redact them by.
pub open spec fn redacts_first(
    policy: Policy,
    k: int,
    tool: Seq<char>,
    arguments: Option<Doc>,
    hour: u32,
) -> bool {
    &&& 0 <= k < policy.rules.len()
    &&& forall|i: int|
        0 <= i < k ==> !(covers((#[trigger] policy.rules[i]).rule, tool) && applies(
            policy.rules[i],
            arguments,
            hour,
        ))
    &&& covers(policy.rules[k].rule, tool)
    &&& applies(policy.rules[k], arguments, hour)
    &&& redacts(policy.rules[k])
    &&& arguments is Some
}

/// Among the places of the rules that are asked, that of the first that is for the
/// tool and applies comes before all that apply.
proof fn lemma_first_asked(
    policy: Policy,
    k: int,
    tool: Seq<char>,
    arguments: Option<Doc>,
    hour: u32,
    order: Seq<usize>,
    at: int,
)
    requires
        redacts_first(policy, k, tool, arguments, hour),
        policy.rules.len() <= usize::MAX,
        ascending(order),
        forall|p: usize| #[trigger]
            order.contains(p) <==> p < policy.rules.len() && covers(
                policy.rules[p as int].rule,
                tool,
            ),
        0 <= at < order.len(),
        applies(policy.rules[order[at] as int], arguments, hour),
        forall|j: int|
            0 <= j < at ==> !(applies(policy.rules[#[trigger] order[j] as int], arguments, hour)
                && redacts(policy.rules[order[j] as int])),
    ensures
        order[at] == k,
{
    assert(order.contains(k as usize));
    let n = choose|n: int| 0 <= n < order.len() && order[n] == k as usize;
    assert(order.contains(order[at]));
    if order[at] < k {
        assert(covers(policy.rules[order[at] as int].rule, tool));
    }
    if n < at {
        assert(redacts(policy.rules[order[n] as int]));
    } else if at < n {
        assert(order[at] < order[n]);
    }
}

/// The state of a policy engine.
#[verifier::ext_equal]
pub struct Policy {
    pub rules: Seq<Compiled>,
    /// The bucket of each rate-limiting rule that has been asked, by the rule's
    /// id.
    pub buckets: Map<Seq<char>, Bucket>,
}

impl Policy {
    /// What is decided of a call of `tool` at this hour, when the clock reads
    /// `now`, and the policy after the call.
    pub open spec fn decision(
        self,
        tool: Seq<char>,
        arguments: Option<Doc>,
        hour: u32,
        now: nat,
    ) -> (Decision, Policy) {
        let (d, buckets) = decide(
            applicable(self.rules, tool),
            arguments,
            hour,
            now,
            self.buckets,
        );
        (d, Policy { buckets, ..self })
    }
}

/// Decides on tool calls by the rules of a policy.
pub struct PolicyEngine {
    compiled: CompiledPolicy,
    rate_limiters: StringHashMap<TokenBucket>,
    clock: Clock,
}

impl View for PolicyEngine {
    type V = Policy;

    closed spec fn view(&self) -> Policy {
        Policy {
            rules: compiled_views(self.compiled.rules@),
            buckets: self.rate_limiters@.map_values(|b: TokenBucket| b@),
        }
    }
}

impl PolicyEngine {
    /// When the clock was started.
    pub closed spec fn started(self) -> Instant {
        self.clock.started()
    }

    /// An engine for the rules of a policy file.
    pub fn load(file: PolicyFile) -> (r: Result<PolicyEngine, PolicyError>)
        ensures
            match r {
                Ok(p) => all_compiled(rule_views(file.rules@)) == Ok::<Seq<Compiled>, PolicyFault>(
                    p@.rules,
                ) && p@.buckets == Map::<Seq<char>, Bucket>::empty(),
                Err(e) => all_compiled(rule_views(file.rules@)) == Err::<
                    Seq<Compiled>,
                    PolicyFault,
                >(e@),
            },
    {
        let rules = match compile_file(file) {
            Ok(rules) => rules,
            Err(e) => {
                return Err(e);
            },
        };
        let p = PolicyEngine {
            compiled: CompiledPolicy::build(rules),
            rate_limiters: StringHashMap::new(),
            clock: Clock::start(),
        };
        assert(p@.buckets =~= Map::empty());
        Ok(p)
    }

    /// Takes the rules of a policy file in place of those it had. If they do not
    /// compile, the engine stays as it was. The calls that rate limits have
    /// counted stay counted.
    pub fn reload(&mut self, file: PolicyFile) -> (r: Result<(), PolicyError>)
        ensures
            final(self).started() == old(self).started(),
            match r {
                Ok(_) => all_compiled(rule_views(file.rules@)) == Ok::<Seq<Compiled>, PolicyFault>(
                    final(self)@.rules,
                ) && final(self)@.buckets == old(self)@.buckets,
                Err(e) => all_compiled(rule_views(file.rules@)) == Err::<
                    Seq<Compiled>,
                    PolicyFault,
                >(e@) && final(self)@ == old(self)@,
            },
    {
        match compile_file(file) {
            Ok(rules) => {
                self.compiled = CompiledPolicy::build(rules);
                Ok(())
            },
            Err(e) => Err(e),
        }
    }

    /// What the engine's clock reads.
    pub fn now(&self) -> (nanos: u128)
        ensures
            reads(self.started(), nanos as nat),
    {
        self.clock.now()
    }

    /// Decides on a call of a tool, now.
    pub fn evaluate(&mut self, tool_name: &str, arguments: Option<&Json>) -> (d: PolicyDecision)
        ensures
            final(self).started() == old(self).started(),
            exists|hour: u32, now: nat|
                hour < 24 && reads(old(self).started(), now) && #[trigger] old(self)@.decision(
                    tool_name@,
                    doc_of(arguments),
                    hour,
                    now,
                ) == (d@, final(self)@) && forall|k: int| #[trigger]
                    redacts_first(old(self)@, k, tool_name@, doc_of(arguments), hour) && seals(
                        old(self)@.rules[k].redact_re->0,
                        put_in(old(self)@.rules[k].rule),
                    ) ==> struck(d@, old(self)@.rules[k]),
    {
        let hour = Timestamp::now().hour();
        let now = self.now();
        let d = self.evaluate_at(tool_name, arguments, hour, now);
        assert(old(self)@.decision(tool_name@, doc_of(arguments), hour, now as nat) == (d@, self@));
        d
    }

    /// Decides on a call of a tool at an hour of the day, when the engine's clock
    /// reads `now`.
    pub fn evaluate_at(
        &mut self,
        tool_name: &str,
        arguments: Option<&Json>,
        hour: u32,
        now: u128,
    ) -> (d: PolicyDecision)
        ensures
            final(self).started() == old(self).started(),
            old(self)@.decision(tool_name@, doc_of(arguments), hour, now as nat) == (
                d@,
                final(self)@,
            ),
            forall|k: int| #[trigger]
                redacts_first(old(self)@, k, tool_name@, doc_of(arguments), hour) && seals(
                    old(self)@.rules[k].redact_re->0,
                    put_in(old(self)@.rules[k].rule),
                ) ==> struck(d@, old(self)@.rules[k]),
    {
        let ctx = EvalCtx { arguments, hour };
        let order = self.compiled.asked_indices(tool_name);
        let len: usize = self.compiled.rules.len();
        let ghost rules = self@.rules;
        let ghost asked = applicable(rules, tool_name@);
        proof {
            assert forall|p: usize| #[trigger]
                order@.contains(p) <==> p < rules.len() && covers(
                    rules[p as int].rule,
                    tool_name@,
                ) by {
                if p < rules.len() {
                    assert(rules[p as int] == self.compiled.rules@[p as int]@);
                }
            }
            assert(len == rules.len());
            lemma_asked_in_order(rules, tool_name@, rules.len(), order@);
            assert(rules.take(rules.len() as int) =~= rules);
            assert forall|k: int| 0 <= k < order@.len() implies (#[trigger] order@[k])
                < self.compiled.rules@.len() by {
                assert(order@.contains(order@[k]));
            }
        }
        let ghost doc = doc_of(arguments);
        let ghost all = decide(asked, doc, hour, now as nat, self@.buckets);
        let mut i: usize = 0;
        assert(asked.skip(0) =~= asked);
        while i < order.len()
            invariant
                i <= order@.len(),
                rules == old(self)@.rules,
                self@.rules == rules,
                self.compiled == old(self).compiled,
                self.clock == old(self).clock,
                asked == applicable(rules, tool_name@),
                asked == at_places(rules, order@),
                forall|k: int|
                    0 <= k < order@.len() ==> (#[trigger] order@[k]) < self.compiled.rules@.len(),
                doc == doc_of(arguments),
                ctx.arguments == arguments,
                ctx.hour == hour,
                all == decide(asked, doc, hour, now as nat, old(self)@.buckets),
                all == decide(asked.skip(i as int), doc, hour, now as nat, self@.buckets),
                ascending(order@),
                rules.len() <= usize::MAX,
                forall|p: usize| #[trigger]
                    order@.contains(p) <==> p < rules.len() && covers(
                        rules[p as int].rule,
                        tool_name@,
                    ),
                doc is Some ==> forall|j: int|
                    0 <= j < i ==> !(applies(rules[#[trigger] order@[j] as int], doc, hour)
                        && redacts(rules[order@[j] as int])),
                forall|j: int|
                    0 <= j < i && applies(rules[#[trigger] order@[j] as int], doc, hour)
                        ==> rules[order@[j] as int].rule.action == RuleAction::RateLimit
                        || rules[order@[j] as int].rule.action == RuleAction::Redact,
            decreases order@.len() - i,
        {
            let cr = &self.compiled.rules[order[i]];
            let ghost c = asked[i as int];
            proof {
                assert(cr@ == c);
                assert(asked.skip(i as int)[0] == c);
                assert(asked.skip(i as int).skip(1) =~= asked.skip(i + 1));
            }
            i += 1;
            let applies_now = match &cr.condition {
                Some(cond) => cond.evaluate(&ctx),
                None => true,
            };
            if applies_now {
                proof {
                    assert forall|k: int| #[trigger]
                        redacts_first(old(self)@, k, tool_name@, doc, hour) implies c
                        == old(self)@.rules[k] by {
                        lemma_first_asked(
                            old(self)@,
                            k,
                            tool_name@,
                            doc,
                            hour,
                            order@,
                            i - 1,
                        );
                    }
                }
                match cr.rule.action {
                    RuleAction::Allow => {
                        return PolicyDecision::Allow;
                    },
                    RuleAction::Deny => {
                        let rule_id = cr.rule.id.clone();
                        let message = match &cr.rule.message {
                            Some(m) => m.clone(),
                            None => {
                                let mut m = "Blocked by policy rule '".to_owned();
                                m.append(cr.rule.id.as_str());
                                m.append("'");
                                m
                            },
                        };
                        return PolicyDecision::Deny { rule_id, message };
                    },
                    RuleAction::Redact => {
                        if let (Some(args), Some(re)) = (arguments, &cr.redact_re) {
                            let arguments = redact_value(args, re, cr.rule.put_in().as_str());
                            return PolicyDecision::Redact { rule_id: cr.rule.id.clone(), arguments };
                        }
                    },
                    RuleAction::RateLimit => {
                        let rule_id = cr.rule.id.clone();
                        let max_calls: u64 = match cr.rule.max_calls {
                            Some(n) => n,
                            None => 100,
                        };
                        let window_seconds: u64 = match cr.rule.window_seconds {
                            Some(n) => n,
                            None => 60,
                        };
                        let mut bucket = match self.rate_limiters.get(rule_id.as_str()) {
                            Some(b) => *b,
                            None => TokenBucket::new_with_window(max_calls, window_seconds, now),
                        };
                        let ghost before = self@.buckets;
                        let allowed = bucket.try_consume(now);
                        self.rate_limiters.insert(rule_id.clone(), bucket);
                        assert(self@.buckets =~= before.insert(
                            c.rule.id,
                            rule_bucket(c.rule, before, now as nat).after_call(now as nat),
                        ));
                        if !allowed {
                            return PolicyDecision::RateLimited { rule_id };
                        }
                    },
                }
            }
        }
        assert(asked.skip(i as int).len() == 0);
        proof {
            assert forall|k: int| !#[trigger] redacts_first(
                old(self)@,
                k,
                tool_name@,
                doc,
                hour,
            ) by {
                if redacts_first(old(self)@, k, tool_name@, doc, hour) {
                    assert(order@.contains(k as usize));
                    let n = choose|n: int| 0 <= n < order@.len() && order@[n] == k as usize;
                    assert(redacts(rules[order@[n] as int]));
                }
            }
        }
        PolicyDecision::Allow
    }

    /// The value with what every redacting rule strikes out replaced: what may be
    /// kept of a tool's result.
    pub fn redact_output(&self, value: &Json) -> (out: Json)
        ensures
            out@ == scrubbed(self@.rules, value@),
            (forall|i: int|
                0 <= i < self@.rules.len() && redacts(#[trigger] self@.rules[i]) ==> clean(
                    value@,
                    self@.rules[i].redact_re->0,
                )) ==> out@ == value@,
            forall|k: int|
                redacts_alone(self@.rules, k) && seals(
                    (#[trigger] self@.rules[k]).redact_re->0,
                    put_in(self@.rules[k].rule),
                ) ==> clean(out@, self@.rules[k].redact_re->0),
    {
        let mut out = value.clone();
        let ghost rules = self@.rules;
        let mut i: usize = 0;
        assert(rules.take(0) =~= Seq::empty());
        while i < self.compiled.rules.len()
            invariant
                i <= self.compiled.rules@.len(),
                rules == compiled_views(self.compiled.rules@),
                out@ == scrubbed(rules.take(i as int), value@),
                (forall|k: int|
                    0 <= k < rules.len() && redacts(#[trigger] rules[k]) ==> clean(
                        value@,
                        rules[k].redact_re->0,
                    )) ==> out@ == value@,
                forall|k: int|
                    k < i && redacts_alone(rules, k) && seals(
                        (#[trigger] rules[k]).redact_re->0,
                        put_in(rules[k].rule),
                    ) ==> clean(out@, rules[k].redact_re->0),
            decreases self.compiled.rules@.len() - i,
        {
            let cr = &self.compiled.rules[i];
            proof {
                assert(cr@ == rules[i as int]);
                assert(rules.take(i + 1).drop_last() =~= rules.take(i as int));
                assert(rules.take(i + 1).last() == cr@);
            }
            if matches!(cr.rule.action, RuleAction::Redact) {
                if let Some(re) = &cr.redact_re {
                    out = redact_value(&out, re, cr.rule.put_in().as_str());
                }
            }
            i += 1;
        }
        assert(rules.take(i as int) =~= rules);
        out
    }
}

} // verus!
