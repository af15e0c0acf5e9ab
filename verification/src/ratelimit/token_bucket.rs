//! A token bucket: so many calls in so long a time.
//!
//! The bucket starts full and fills at an even rate; a call takes one token. To
//! stay exact without fractions the bucket counts in shares of a token: a token
//! is as many shares as the window has nanoseconds, and every nanosecond adds as
//! many shares as the window allows calls.
use vstd::arithmetic::div_mod::{lemma_fundamental_div_mod, lemma_mod_bound};
use vstd::arithmetic::mul::{
    lemma_mul_inequality, lemma_mul_is_commutative, lemma_mul_is_distributive_add,
    lemma_mul_is_distributive_sub,
};
use vstd::prelude::*;

use crate::clock::NANOS;

verus! {

/// The state of a bucket.
pub struct Bucket {
    /// Calls that a window allows.
    pub limit: nat,
    /// Length of the window in nanoseconds; shares in a token.
    pub window: nat,
    /// Shares in the bucket.
    pub level: nat,
    /// When the bucket was last filled, in nanoseconds.
    pub at: nat,
}

/// The lesser of two numbers.
pub open spec fn least(a: nat, b: nat) -> nat {
    if a <= b {
        a
    } else {
        b
    }
}

/// Nanoseconds from `from` to `to`, none if `to` is not later.
pub open spec fn passed(from: nat, to: nat) -> nat {
    if to <= from {
        0
    } else {
        (to - from) as nat
    }
}

/// Half of what 128 bits hold: no bucket has more shares.
pub const MOST_SHARES: u128 = 170141183460469231731687303715884105727;

/// The length of a window in nanoseconds; a window of no length counts as the
/// shortest there is.
pub open spec fn window_nanos(window_seconds: nat) -> nat {
    if window_seconds == 0 {
        1
    } else {
        window_seconds * NANOS as nat
    }
}

/// The calls that a window allows. A limit so large that its shares would not
/// fit in 128 bits is lowered to the largest whose shares do.
pub open spec fn allowed_calls(max_calls: nat, window: nat) -> nat {
    least(max_calls, MOST_SHARES as nat / window)
}

impl Bucket {
    /// The shares in a full bucket.
    pub open spec fn capacity(self) -> nat {
        self.limit * self.window
    }

    /// A bucket holds no more than it can.
    pub open spec fn sound(self) -> bool {
        &&& 0 < self.window <= u64::MAX as nat * NANOS as nat
        &&& self.level <= self.capacity()
        &&& self.capacity() <= MOST_SHARES
    }

    /// A full bucket.
    pub open spec fn full(max_calls: nat, window_seconds: nat, now: nat) -> Bucket {
        let window = window_nanos(window_seconds);
        let limit = allowed_calls(max_calls, window);
        Bucket { limit, window, level: limit * window, at: now }
    }

    /// The bucket with what time has added.
    pub open spec fn filled(self, now: nat) -> Bucket {
        Bucket {
            level: least(self.capacity(), self.level + passed(self.at, now) * self.limit),
            at: if now > self.at {
                now
            } else {
                self.at
            },
            ..self
        }
    }

    /// There is a token to take.
    pub open spec fn has_token(self) -> bool {
        self.limit > 0 && self.level >= self.window
    }

    /// The bucket after a call at `now`: filled, and one token less if there was
    /// one.
    pub open spec fn after_call(self, now: nat) -> Bucket {
        let b = self.filled(now);
        if b.has_token() {
            Bucket { level: (b.level - b.window) as nat, ..b }
        } else {
            b
        }
    }

    /// A call at `now` is let through.
    pub open spec fn admits(self, now: nat) -> bool {
        self.filled(now).has_token()
    }

    /// Whole seconds, rounded up, until there is a token, counted from when the
    /// bucket was last filled; where there will never be one, the largest number.
    pub open spec fn wait_seconds(self) -> nat {
        if self.limit == 0 {
            u64::MAX as nat
        } else if self.level >= self.window {
            0
        } else {
            rounded_up(rounded_up((self.window - self.level) as nat, self.limit), NANOS as nat)
        }
    }
}

/// `a` divided by `b`, rounded up.
pub open spec fn rounded_up(a: nat, b: nat) -> nat {
    ((a + b - 1) as nat) / b
}

/// Rounding up: the least number whose product with `b` reaches `a`.
pub proof fn lemma_rounded_up(a: nat, b: nat)
    requires
        b > 0,
    ensures
        rounded_up(a, b) <= a,
        rounded_up(a, b) * b >= a,
        a > 0 ==> (rounded_up(a, b) - 1) * b < a,
        a > 0 ==> rounded_up(a, b) > 0,
{
    let q = rounded_up(a, b);
    let x = a + b - 1;
    lemma_fundamental_div_mod(x, b as int);
    lemma_mod_bound(x, b as int);
    lemma_mul_is_commutative(b as int, q as int);
    lemma_mul_is_distributive_sub(b as int, q as int, 1);
    lemma_mul_is_commutative(b as int, q - 1);
    if q > a {
        lemma_mul_inequality((a + 1) as int, q as int, b as int);
        lemma_mul_inequality(1, b as int, a as int);
        lemma_mul_is_commutative(a as int, b as int);
        lemma_mul_is_distributive_add(b as int, a as int, 1);
        lemma_mul_is_commutative(b as int, (a + 1) as int);
    }
    if a > 0 && q == 0 {
        assert(q * b == 0) by (nonlinear_arith)
            requires
                q == 0,
        ;
    }
}

/// A token bucket.
#[derive(Debug, Clone, Copy)]
pub struct TokenBucket {
    limit: u128,
    window: u128,
    level: u128,
    at: u128,
}

impl View for TokenBucket {
    type V = Bucket;

    closed spec fn view(&self) -> Bucket {
        Bucket {
            limit: self.limit as nat,
            window: self.window as nat,
            level: self.level as nat,
            at: self.at as nat,
        }
    }
}

impl TokenBucket {
    #[verifier::type_invariant]
    spec fn sound(self) -> bool {
        self@.sound()
    }

    /// A full bucket for so many calls in a minute.
    pub fn new(max_calls_per_minute: u64, now: u128) -> (b: TokenBucket)
        ensures
            b@ == Bucket::full(max_calls_per_minute as nat, 60, now as nat),
            b@.sound(),
    {
        TokenBucket::new_with_window(max_calls_per_minute, 60, now)
    }

    /// A full bucket for so many calls in so many seconds.
    pub fn new_with_window(max_calls: u64, window_seconds: u64, now: u128) -> (b: TokenBucket)
        ensures
            b@ == Bucket::full(max_calls as nat, window_seconds as nat, now as nat),
            b@.sound(),
    {
        let window: u128 = if window_seconds == 0 {
            1
        } else {
            window_seconds as u128 * NANOS
        };
        let most: u128 = MOST_SHARES / window;
        let limit: u128 = if (max_calls as u128) <= most {
            max_calls as u128
        } else {
            most
        };
        proof {
            lemma_fundamental_div_mod(MOST_SHARES as int, window as int);
            lemma_mod_bound(MOST_SHARES as int, window as int);
            lemma_mul_inequality(limit as int, most as int, window as int);
            lemma_mul_is_commutative(window as int, most as int);
        }
        TokenBucket { limit, window, level: limit * window, at: now }
    }

    /// Takes a token, if there is one.
    pub fn try_consume(&mut self, now: u128) -> (ok: bool)
        ensures
            ok == old(self)@.admits(now as nat),
            final(self)@ == old(self)@.after_call(now as nat),
            final(self)@.sound(),
    {
        proof {
            use_type_invariant(&*self);
        }
        let limit = self.limit;
        let window = self.window;
        let capacity: u128 = limit * window;
        let elapsed: u128 = if now > self.at {
            now - self.at
        } else {
            0
        };
        let ghost added = elapsed as nat * limit as nat;
        let level: u128 = if elapsed >= window {
            proof {
                lemma_mul_inequality(window as int, elapsed as int, limit as int);
                lemma_mul_is_commutative(window as int, limit as int);
            }
            capacity
        } else {
            proof {
                lemma_mul_inequality(elapsed as int, window as int, limit as int);
                lemma_mul_is_commutative(window as int, limit as int);
            }
            let sum: u128 = self.level + elapsed * limit;
            if sum > capacity {
                capacity
            } else {
                sum
            }
        };
        let at: u128 = if now > self.at {
            now
        } else {
            self.at
        };
        let ok = limit > 0 && level >= window;
        *self = TokenBucket {
            limit,
            window,
            level: if ok {
                level - window
            } else {
                level
            },
            at,
        };
        ok
    }

    /// Seconds to wait for a token.
    pub fn retry_after_secs(&self) -> (secs: u64)
        ensures
            secs == self@.wait_seconds(),
    {
        proof {
            use_type_invariant(self);
        }
        if self.limit == 0 {
            return u64::MAX;
        }
        if self.level >= self.window {
            return 0;
        }
        proof {
            lemma_mul_inequality(1, self.limit as int, self.window as int);
            lemma_mul_inequality(1, self.window as int, self.limit as int);
            lemma_mul_is_commutative(self.window as int, self.limit as int);
        }
        let missing: u128 = self.window - self.level;
        let nanos: u128 = (missing + self.limit - 1) / self.limit;
        proof {
            lemma_rounded_up(missing as nat, self.limit as nat);
        }
        let secs: u128 = (nanos + NANOS - 1) / NANOS;
        proof {
            lemma_rounded_up(nanos as nat, NANOS as nat);
        }
        secs as u64
    }
}

/// The bucket after calls at these times, first to last.
pub open spec fn after_calls(b: Bucket, times: Seq<nat>) -> Bucket
    decreases times.len(),
{
    if times.len() == 0 {
        b
    } else {
        after_calls(b, times.drop_last()).after_call(times.last())
    }
}

/// How many of the calls at these times are let through.
pub open spec fn served(b: Bucket, times: Seq<nat>) -> nat
    decreases times.len(),
{
    if times.len() == 0 {
        0
    } else {
        served(b, times.drop_last()) + if after_calls(b, times.drop_last()).admits(times.last()) {
            1nat
        } else {
            0nat
        }
    }
}

/// Filling or using a bucket leaves it sound, with the same limit and window,
/// and never sets its time back.
pub proof fn law_bucket_stays_sound(b: Bucket, now: nat)
    requires
        b.sound(),
    ensures
        b.filled(now).sound(),
        b.after_call(now).sound(),
        b.after_call(now).limit == b.limit,
        b.after_call(now).window == b.window,
        b.after_call(now).at >= b.at,
{
}

/// Whatever the times of the calls, the tokens taken are never more than were
/// in the bucket and than time has added since.
pub proof fn law_no_more_than_the_rate(b: Bucket, times: Seq<nat>)
    requires
        b.sound(),
    ensures
        after_calls(b, times).sound(),
        after_calls(b, times).limit == b.limit,
        after_calls(b, times).window == b.window,
        after_calls(b, times).at >= b.at,
        served(b, times) * b.window + after_calls(b, times).level <= b.level + (after_calls(
            b,
            times,
        ).at - b.at) * b.limit,
    decreases times.len(),
{
    if times.len() > 0 {
        let front = times.drop_last();
        let now = times.last();
        law_no_more_than_the_rate(b, front);
        let mid = after_calls(b, front);
        let end = mid.after_call(now);
        let e = passed(mid.at, now);
        assert(end.at == mid.at + e);
        lemma_mul_is_distributive_add(b.limit as int, mid.at - b.at, e as int);
        lemma_mul_is_commutative(b.limit as int, mid.at - b.at);
        lemma_mul_is_commutative(b.limit as int, e as int);
        lemma_mul_is_commutative(b.limit as int, (mid.at - b.at) + e);
        let n = served(b, front);
        lemma_mul_is_distributive_add(b.window as int, n as int, 1);
        lemma_mul_is_commutative(b.window as int, n as int);
        lemma_mul_is_commutative(b.window as int, (n + 1) as int);
    } else {
        assert(served(b, times) * b.window == 0) by (nonlinear_arith)
            requires
                served(b, times) == 0,
        ;
        assert((after_calls(b, times).at - b.at) * b.limit == 0) by (nonlinear_arith)
            requires
                after_calls(b, times).at == b.at,
        ;
    }
}

/// Calls that all come at the moment a bucket is made: as many pass as the
/// limit allows, and no more.
pub proof fn law_burst_of_the_limit(max_calls: nat, window_seconds: nat, now: nat, calls: nat)
    requires
        window_seconds <= u64::MAX,
    ensures
        ({
            let b = Bucket::full(max_calls, window_seconds, now);
            let times = Seq::new(calls, |i: int| now);
            &&& served(b, times) == least(calls, b.limit)
            &&& after_calls(b, times) == (Bucket {
                level: ((b.limit - served(b, times)) * b.window) as nat,
                ..b
            })
        }),
    decreases calls,
{
    let b = Bucket::full(max_calls, window_seconds, now);
    let times = Seq::new(calls, |i: int| now);
    lemma_full_is_sound(max_calls, window_seconds, now);
    if calls > 0 {
        let front = Seq::new((calls - 1) as nat, |i: int| now);
        assert(times.drop_last() =~= front);
        law_burst_of_the_limit(max_calls, window_seconds, now, (calls - 1) as nat);
        let n = served(b, front);
        let mid = after_calls(b, front);
        let left = b.limit - n;
        assert(passed(mid.at, now) * b.limit == 0) by (nonlinear_arith)
            requires
                passed(mid.at, now) == 0,
        ;
        lemma_mul_inequality(left, b.limit as int, b.window as int);
        assert(mid.filled(now) == mid);
        if left > 0 {
            lemma_mul_inequality(1, left, b.window as int);
            lemma_mul_is_distributive_sub(b.window as int, left, 1);
            lemma_mul_is_commutative(b.window as int, left);
            lemma_mul_is_commutative(b.window as int, left - 1);
        } else {
            assert(left * b.window == 0) by (nonlinear_arith)
                requires
                    left == 0,
            ;
        }
    }
}

/// A full bucket is sound.
pub proof fn lemma_full_is_sound(max_calls: nat, window_seconds: nat, now: nat)
    requires
        window_seconds <= u64::MAX,
    ensures
        Bucket::full(max_calls, window_seconds, now).sound(),
{
    let b = Bucket::full(max_calls, window_seconds, now);
    let most = MOST_SHARES as int / b.window as int;
    lemma_mul_inequality(window_seconds as int, u64::MAX as int, NANOS as int);
    lemma_fundamental_div_mod(MOST_SHARES as int, b.window as int);
    lemma_mod_bound(MOST_SHARES as int, b.window as int);
    lemma_mul_inequality(b.limit as int, most, b.window as int);
    lemma_mul_is_commutative(b.window as int, most);
}

/// A refused caller who waits as long as told is let through, and would not have
/// been a second earlier.
pub proof fn law_retry_after_is_exact(b: Bucket)
    requires
        b.sound(),
        b.limit > 0,
        !b.has_token(),
    ensures
        b.wait_seconds() > 0,
        b.admits(b.at + b.wait_seconds() * NANOS as nat),
        !b.admits((b.at + (b.wait_seconds() - 1) * NANOS) as nat),
{
    let missing = (b.window - b.level) as nat;
    let nanos = rounded_up(missing, b.limit);
    let secs = rounded_up(nanos, NANOS as nat);
    lemma_rounded_up(missing, b.limit);
    lemma_rounded_up(nanos, NANOS as nat);
    lemma_mul_inequality(1, b.limit as int, b.window as int);
    // Long enough.
    let e = secs * NANOS as nat;
    lemma_mul_inequality(nanos as int, e as int, b.limit as int);
    // A second less is not.
    let f = ((secs - 1) * NANOS) as nat;
    lemma_mul_inequality(f as int, nanos - 1, b.limit as int);
}

} // verus!
