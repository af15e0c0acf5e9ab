//! Rate limits over all tools and for each tool.
use std::time::Instant;
use vstd::hash_map::StringHashMap;
use vstd::prelude::*;

use super::token_bucket::{
    law_bucket_stays_sound, law_retry_after_is_exact, lemma_full_is_sound, Bucket, TokenBucket,
};
use crate::clock::{reads, Clock, NANOS};
use crate::config::RateLimitConfig;

verus! {

/// Whether a call passes the rate limits.
#[derive(Debug)]
pub enum RateLimitDecision {
    Allow,
    GlobalLimitExceeded { retry_after_secs: u64 },
    ToolLimitExceeded { tool: String, retry_after_secs: u64 },
}

/// What a decision says.
#[verifier::ext_equal]
pub enum LimitVerdict {
    Allow,
    GlobalLimitExceeded { retry_after_secs: nat },
    ToolLimitExceeded { tool: Seq<char>, retry_after_secs: nat },
}

impl View for RateLimitDecision {
    type V = LimitVerdict;

    open spec fn view(&self) -> LimitVerdict {
        match self {
            RateLimitDecision::Allow => LimitVerdict::Allow,
            RateLimitDecision::GlobalLimitExceeded {
                retry_after_secs,
            } => LimitVerdict::GlobalLimitExceeded { retry_after_secs: *retry_after_secs as nat },
            RateLimitDecision::ToolLimitExceeded {
                tool,
                retry_after_secs,
            } => LimitVerdict::ToolLimitExceeded {
                tool: tool@,
                retry_after_secs: *retry_after_secs as nat,
            },
        }
    }
}

/// The state of a rate limiter.
#[verifier::ext_equal]
pub struct Limits {
    /// Calls of one tool that a minute allows.
    pub per_tool_max: nat,
    /// The bucket that all calls draw from.
    pub global: Bucket,
    /// The bucket of each tool that has been called.
    pub per_tool: Map<Seq<char>, Bucket>,
}

impl Limits {
    /// Every bucket is sound.
    pub open spec fn sound(self) -> bool {
        &&& self.global.sound()
        &&& forall|tool: Seq<char>| #[trigger]
            self.per_tool.contains_key(tool) ==> self.per_tool[tool].sound()
    }

    /// The bucket that calls of a tool draw from; a full one for the first call.
    pub open spec fn bucket(self, tool: Seq<char>, now: nat) -> Bucket {
        if self.per_tool.contains_key(tool) {
            self.per_tool[tool]
        } else {
            Bucket::full(self.per_tool_max, 60, now)
        }
    }

    /// What is decided of a call of `tool` at `now`: the bucket of all calls is
    /// asked first, the tool's own bucket only if that lets the call through.
    pub open spec fn verdict(self, tool: Seq<char>, now: nat) -> LimitVerdict {
        if !self.global.admits(now) {
            LimitVerdict::GlobalLimitExceeded {
                retry_after_secs: self.global.after_call(now).wait_seconds(),
            }
        } else if !self.bucket(tool, now).admits(now) {
            LimitVerdict::ToolLimitExceeded {
                tool,
                retry_after_secs: self.bucket(tool, now).after_call(now).wait_seconds(),
            }
        } else {
            LimitVerdict::Allow
        }
    }

    /// The limits after a call of `tool` at `now`. A call that the tool's own
    /// limit refuses has still drawn on the bucket of all calls.
    pub open spec fn after_call(self, tool: Seq<char>, now: nat) -> Limits {
        let per_tool = if self.global.admits(now) {
            self.per_tool.insert(tool, self.bucket(tool, now).after_call(now))
        } else {
            self.per_tool
        };
        Limits { global: self.global.after_call(now), per_tool, ..self }
    }
}

/// Rate limits over all tools and for each tool.
pub struct RateLimiter {
    config: RateLimitConfig,
    clock: Clock,
    global: TokenBucket,
    per_tool: StringHashMap<TokenBucket>,
}

impl View for RateLimiter {
    type V = Limits;

    closed spec fn view(&self) -> Limits {
        Limits {
            per_tool_max: self.config.per_tool_max_calls_per_minute as nat,
            global: self.global@,
            per_tool: self.per_tool@.map_values(|b: TokenBucket| b@),
        }
    }
}

impl RateLimiter {
    /// When the clock was started.
    pub closed spec fn started(self) -> Instant {
        self.clock.started()
    }

    /// A limiter with every bucket full.
    pub fn new(config: RateLimitConfig) -> (l: RateLimiter)
        ensures
            exists|now: nat|
                reads(l.started(), now) && #[trigger] Bucket::full(
                    config.global_max_calls_per_minute as nat,
                    60,
                    now,
                ) == l@.global,
            l@.per_tool_max == config.per_tool_max_calls_per_minute,
            l@.per_tool == Map::<Seq<char>, Bucket>::empty(),
            l@.sound(),
    {
        let clock = Clock::start();
        let now = clock.now();
        let l = RateLimiter::new_at(config, clock, now);
        assert(Bucket::full(config.global_max_calls_per_minute as nat, 60, now as nat) == l@.global);
        l
    }

    /// A limiter whose clock reads `now`.
    fn new_at(config: RateLimitConfig, clock: Clock, now: u128) -> (l: RateLimiter)
        ensures
            l@ == (Limits {
                per_tool_max: config.per_tool_max_calls_per_minute as nat,
                global: Bucket::full(config.global_max_calls_per_minute as nat, 60, now as nat),
                per_tool: Map::empty(),
            }),
            l@.sound(),
            l.started() == clock.started(),
    {
        let l = RateLimiter {
            config,
            clock,
            global: TokenBucket::new(config.global_max_calls_per_minute, now),
            per_tool: StringHashMap::new(),
        };
        proof {
            assert(l@.per_tool =~= Map::empty());
            lemma_full_is_sound(config.global_max_calls_per_minute as nat, 60, now as nat);
        }
        l
    }

    /// What the limiter's clock reads.
    pub fn now(&self) -> (nanos: u128)
        ensures
            reads(self.started(), nanos as nat),
    {
        self.clock.now()
    }

    /// Decides on a call of a tool, now.
    pub fn check(&mut self, tool_name: &str) -> (d: RateLimitDecision)
        ensures
            final(self).started() == old(self).started(),
            exists|now: nat|
                reads(old(self).started(), now) && #[trigger] old(self)@.after_call(tool_name@, now)
                    == final(self)@ && d@ == old(self)@.verdict(tool_name@, now),
    {
        let now = self.now();
        let d = self.check_at(tool_name, now);
        assert(old(self)@.after_call(tool_name@, now as nat) == self@);
        d
    }

    /// Decides on a call of a tool when the limiter's clock reads `now`.
    pub fn check_at(&mut self, tool_name: &str, now: u128) -> (d: RateLimitDecision)
        ensures
            final(self).started() == old(self).started(),
            d@ == old(self)@.verdict(tool_name@, now as nat),
            final(self)@ == old(self)@.after_call(tool_name@, now as nat),
    {
        if !self.global.try_consume(now) {
            return RateLimitDecision::GlobalLimitExceeded {
                retry_after_secs: self.global.retry_after_secs(),
            };
        }
        let mut bucket = match self.per_tool.get(tool_name) {
            Some(b) => *b,
            None => TokenBucket::new(self.config.per_tool_max_calls_per_minute, now),
        };
        let passed = bucket.try_consume(now);
        let retry_after_secs = bucket.retry_after_secs();
        self.per_tool.insert(tool_name.to_owned(), bucket);
        assert(self@.per_tool =~= old(self)@.after_call(tool_name@, now as nat).per_tool);
        if passed {
            RateLimitDecision::Allow
        } else {
            RateLimitDecision::ToolLimitExceeded { tool: tool_name.to_owned(), retry_after_secs }
        }
    }
}

/// Every call leaves the buckets sound.
pub proof fn law_limits_stay_sound(l: Limits, tool: Seq<char>, now: nat)
    requires
        l.sound(),
    ensures
        l.after_call(tool, now).sound(),
{
    law_bucket_stays_sound(l.global, now);
    lemma_full_is_sound(l.per_tool_max, 60, now);
    law_bucket_stays_sound(l.bucket(tool, now), now);
}

/// A call of one tool takes nothing from the bucket of another.
pub proof fn law_tools_have_their_own_limits(
    l: Limits,
    tool: Seq<char>,
    other: Seq<char>,
    now: nat,
    later: nat,
)
    requires
        tool != other,
    ensures
        l.after_call(tool, now).per_tool.contains_key(other) == l.per_tool.contains_key(other),
        l.after_call(tool, now).bucket(other, later) == l.bucket(other, later),
{
}

/// A call that the limit over all tools refuses takes nothing from any tool's
/// bucket.
pub proof fn law_global_refusal_spares_the_tools(l: Limits, tool: Seq<char>, now: nat)
    requires
        l.verdict(tool, now) is GlobalLimitExceeded,
    ensures
        l.after_call(tool, now).per_tool == l.per_tool,
{
}

/// A refused caller who waits as many seconds as the refusal says, nobody else
/// calling meanwhile, passes the limit that refused, and would not have a second
/// earlier.
pub proof fn law_refusal_says_how_long_to_wait(l: Limits, tool: Seq<char>, now: nat)
    requires
        l.sound(),
        l.global.at <= now,
        l.bucket(tool, now).at <= now,
    ensures
        l.verdict(tool, now) matches LimitVerdict::GlobalLimitExceeded { retry_after_secs: s }
            ==> l.global.limit > 0 ==> {
            let after = l.after_call(tool, now);
            &&& s > 0
            &&& after.global.admits(now + s * NANOS as nat)
            &&& !after.global.admits((now + (s - 1) * NANOS) as nat)
        },
        l.verdict(tool, now) matches LimitVerdict::ToolLimitExceeded { tool: t, retry_after_secs: s }
            ==> t == tool && (l.bucket(tool, now).limit > 0 ==> {
            let after = l.after_call(tool, now).per_tool[tool];
            &&& s > 0
            &&& after.admits(now + s * NANOS as nat)
            &&& !after.admits((now + (s - 1) * NANOS) as nat)
        }),
{
    lemma_full_is_sound(l.per_tool_max, 60, now);
    law_bucket_stays_sound(l.global, now);
    law_bucket_stays_sound(l.bucket(tool, now), now);
    if !l.global.admits(now) && l.global.limit > 0 {
        law_retry_after_is_exact(l.global.after_call(now));
    }
    if !l.bucket(tool, now).admits(now) && l.bucket(tool, now).limit > 0 {
        law_retry_after_is_exact(l.bucket(tool, now).after_call(now));
    }
}

/// A call draws on the limit over all tools, whatever comes of it, and on the limit of
/// its own tool if the first one lets it; the limits of other tools stay as they are.
pub proof fn law_calls_draw_on_their_limits(l: Limits, tool: Seq<char>, other: Seq<char>, now: nat)
    ensures
        ({
            let after = l.after_call(tool, now);
            &&& after.global == l.global.after_call(now)
            &&& after.per_tool_max == l.per_tool_max
            &&& l.global.admits(now) ==> after.per_tool.contains_key(tool) && after.per_tool[tool]
                == l.bucket(tool, now).after_call(now)
            &&& !l.global.admits(now) ==> after.per_tool == l.per_tool
            &&& other != tool ==> after.per_tool.contains_key(other) == l.per_tool.contains_key(
                other,
            )
            &&& other != tool && l.per_tool.contains_key(other) ==> after.per_tool[other]
                == l.per_tool[other]
        }),
        !l.per_tool.contains_key(tool) ==> l.bucket(tool, now) == Bucket::full(
            l.per_tool_max,
            60,
            now,
        ),
{
}

} // verus!
