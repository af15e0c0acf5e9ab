//! What a policy file says.
use vstd::prelude::*;

use crate::text::opt_text;

verus! {

/// What a rule does with the calls it applies to.
#[derive(Debug, Clone, Copy, PartialEq, Eq, Structural)]
pub enum RuleAction {
    Allow,
    Deny,
    Redact,
    RateLimit,
}

/// A rule of a policy.
#[derive(Debug)]
pub struct PolicyRule {
    pub id: String,
    /// The tool that the rule is about; `*` for every tool.
    pub tool: String,
    /// How the name of the tool must begin; anyhow, if there is none.
    pub tool_prefix: Option<String>,
    /// When the rule applies; always, if there is none.
    pub condition: Option<String>,
    pub action: RuleAction,
    /// What a refused caller is told.
    pub message: Option<String>,
    pub fields: Option<Vec<String>>,
    /// What a redacting rule strikes out.
    pub pattern: Option<String>,
    /// What it puts in its place; nothing, if there is none.
    pub replacement: Option<String>,
    pub max_calls: Option<u64>,
    pub window_seconds: Option<u64>,
}

/// What a rule says.
#[verifier::ext_equal]
pub struct Rule {
    pub id: Seq<char>,
    pub tool: Seq<char>,
    pub tool_prefix: Option<Seq<char>>,
    pub condition: Option<Seq<char>>,
    pub action: RuleAction,
    pub message: Option<Seq<char>>,
    pub pattern: Option<Seq<char>>,
    pub replacement: Option<Seq<char>>,
    pub max_calls: Option<u64>,
    pub window_seconds: Option<u64>,
}

impl View for PolicyRule {
    type V = Rule;

    open spec fn view(&self) -> Rule {
        Rule {
            id: self.id@,
            tool: self.tool@,
            tool_prefix: opt_text(self.tool_prefix),
            condition: opt_text(self.condition),
            action: self.action,
            message: opt_text(self.message),
            pattern: opt_text(self.pattern),
            replacement: opt_text(self.replacement),
            max_calls: self.max_calls,
            window_seconds: self.window_seconds,
        }
    }
}

/// A limit as a policy file may give it, in a table of its own.
#[derive(Debug, Clone, Copy, PartialEq, Eq, Structural)]
pub struct RateLimitEntry {
    pub max_calls: u64,
    pub window_seconds: u64,
}

/// A rule as it stands in a policy file, with the names that a file may use.
#[derive(Debug)]
pub struct RuleEntry {
    pub id: String,
    pub tool: Option<String>,
    pub tool_prefix: Option<String>,
    pub condition: Option<String>,
    pub action: RuleAction,
    pub message: Option<String>,
    /// Another name for the message.
    pub reason: Option<String>,
    pub fields: Option<Vec<String>>,
    pub pattern: Option<String>,
    pub replacement: Option<String>,
    pub max_calls: Option<u64>,
    pub window_seconds: Option<u64>,
    pub rate_limit: Option<RateLimitEntry>,
}

/// The rule that an entry stands for. A rule that names no tool is for every tool;
/// limits of its own come before those in a table.
pub open spec fn rule_in(e: RuleEntry) -> Rule {
    Rule {
        id: e.id@,
        tool: match opt_text(e.tool) {
            Some(t) => t,
            None => "*"@,
        },
        tool_prefix: opt_text(e.tool_prefix),
        condition: opt_text(e.condition),
        action: e.action,
        message: match opt_text(e.message) {
            Some(m) => Some(m),
            None => opt_text(e.reason),
        },
        pattern: opt_text(e.pattern),
        replacement: opt_text(e.replacement),
        max_calls: match (e.max_calls, e.rate_limit) {
            (Some(n), _) => Some(n),
            (None, Some(l)) => Some(l.max_calls),
            (None, None) => None,
        },
        window_seconds: match (e.window_seconds, e.rate_limit) {
            (Some(n), _) => Some(n),
            (None, Some(l)) => Some(l.window_seconds),
            (None, None) => None,
        },
    }
}

impl PolicyRule {
    /// The rule that an entry of a policy file stands for.
    pub fn from_entry(e: RuleEntry) -> (r: PolicyRule)
        ensures
            r@ == rule_in(e),
            r.fields == e.fields,
    {
        let r = PolicyRule {
            id: e.id,
            tool: match e.tool {
                Some(t) => t,
                None => "*".to_owned(),
            },
            tool_prefix: e.tool_prefix,
            condition: e.condition,
            action: e.action,
            message: match e.message {
                Some(m) => Some(m),
                None => e.reason,
            },
            fields: e.fields,
            pattern: e.pattern,
            replacement: e.replacement,
            max_calls: match (e.max_calls, e.rate_limit) {
                (Some(n), _) => Some(n),
                (None, Some(l)) => Some(l.max_calls),
                (None, None) => None,
            },
            window_seconds: match (e.window_seconds, e.rate_limit) {
                (Some(n), _) => Some(n),
                (None, Some(l)) => Some(l.window_seconds),
                (None, None) => None,
            },
        };
        assert(r@ =~= rule_in(e));
        r
    }
}

/// The name and the version of a policy.
#[derive(Debug)]
pub struct PolicyMetadata {
    pub name: String,
    pub version: String,
}

/// A policy file.
#[derive(Debug)]
pub struct PolicyFile {
    pub metadata: PolicyMetadata,
    pub rules: Vec<PolicyRule>,
}

/// What a redacting rule puts in the place of what it strikes out.
pub open spec fn put_in(rule: Rule) -> Seq<char> {
    match rule.replacement {
        Some(r) => r,
        None => Seq::empty(),
    }
}

impl PolicyRule {
    /// What a redacting rule puts in the place of what it strikes out.
    pub fn put_in(&self) -> (text: String)
        ensures
            text@ == put_in(self@),
    {
        match &self.replacement {
            Some(r) => r.clone(),
            None => {
                let text = String::new();
                assert(text@ =~= Seq::empty());
                text
            },
        }
    }
}

/// What rules say.
pub open spec fn rule_views(rules: Seq<PolicyRule>) -> Seq<Rule> {
    Seq::new(rules.len(), |i: int| rules[i]@)
}

/// An entry of a policy file says what the rule is: one that names no tool is for every
/// tool, one without a message has its reason for a message, and its own limits count
/// before those in a table. A redacting rule without a replacement puts in nothing.
pub proof fn law_entries_say_the_rule(e: RuleEntry, rule: Rule)
    ensures
        e.tool matches Some(t) ==> rule_in(e).tool == t@,
        e.tool is None ==> rule_in(e).tool == "*"@,
        e.message matches Some(m) ==> rule_in(e).message == Some(m@),
        e.message is None && e.reason is None ==> rule_in(e).message is None,
        e.message is None ==> (e.reason matches Some(m) ==> rule_in(e).message == Some(m@)),
        e.max_calls is Some ==> rule_in(e).max_calls == e.max_calls,
        e.max_calls is None && e.rate_limit is None ==> rule_in(e).max_calls is None,
        e.max_calls is None ==> (e.rate_limit matches Some(l) ==> rule_in(e).max_calls == Some(
            l.max_calls,
        )),
        e.window_seconds is Some ==> rule_in(e).window_seconds == e.window_seconds,
        e.window_seconds is None && e.rate_limit is None ==> rule_in(e).window_seconds is None,
        e.window_seconds is None ==> (e.rate_limit matches Some(l) ==> rule_in(e).window_seconds
            == Some(l.window_seconds)),
        rule_in(e).id == e.id@,
        rule_in(e).action == e.action,
        e.tool_prefix matches Some(p) ==> rule_in(e).tool_prefix == Some(p@),
        e.tool_prefix is None ==> rule_in(e).tool_prefix is None,
        e.condition matches Some(c) ==> rule_in(e).condition == Some(c@),
        e.condition is None ==> rule_in(e).condition is None,
        e.pattern matches Some(p) ==> rule_in(e).pattern == Some(p@),
        e.pattern is None ==> rule_in(e).pattern is None,
        e.replacement matches Some(r) ==> rule_in(e).replacement == Some(r@),
        e.replacement is None ==> rule_in(e).replacement is None,
        rule.replacement matches Some(r) ==> put_in(rule) == r,
        rule.replacement is None ==> put_in(rule).len() == 0,
{
}

} // verus!
