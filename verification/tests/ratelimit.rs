use agentgate::config::{CircuitBreakerConfig, RateLimitConfig};
use agentgate::ratelimit::{
    CircuitBreaker, CircuitDecision, CircuitStateKind, RateLimitDecision, RateLimiter, TokenBucket,
};

const SECOND: u128 = 1_000_000_000;

fn config_with(global: u64, per_tool: u64) -> RateLimitConfig {
    RateLimitConfig {
        global_max_calls_per_minute: global,
        per_tool_max_calls_per_minute: per_tool,
        per_agent_max_calls_per_minute: 200,
    }
}

fn cfg(threshold: usize, window: u64, cooldown: u64) -> CircuitBreakerConfig {
    CircuitBreakerConfig {
        error_threshold: threshold,
        window_seconds: window,
        cooldown_seconds: cooldown,
    }
}

#[test]
fn per_tool_throttles_after_limit() {
    let mut limiter = RateLimiter::new(config_with(1000, 2));
    assert!(matches!(limiter.check("bash"), RateLimitDecision::Allow));
    assert!(matches!(limiter.check("bash"), RateLimitDecision::Allow));
    assert!(matches!(
        limiter.check("bash"),
        RateLimitDecision::ToolLimitExceeded { .. }
    ));
}

#[test]
fn global_throttles_across_tools() {
    let mut limiter = RateLimiter::new(config_with(2, 1000));
    assert!(matches!(
        limiter.check("read_file"),
        RateLimitDecision::Allow
    ));
    assert!(matches!(
        limiter.check("write_file"),
        RateLimitDecision::Allow
    ));
    assert!(matches!(
        limiter.check("bash"),
        RateLimitDecision::GlobalLimitExceeded { .. }
    ));
}

#[test]
fn different_tools_have_independent_buckets() {
    let mut limiter = RateLimiter::new(config_with(1000, 1));
    assert!(matches!(limiter.check("tool_a"), RateLimitDecision::Allow));
    assert!(matches!(limiter.check("tool_b"), RateLimitDecision::Allow));
    assert!(matches!(
        limiter.check("tool_a"),
        RateLimitDecision::ToolLimitExceeded { .. }
    ));
    assert!(matches!(
        limiter.check("tool_b"),
        RateLimitDecision::ToolLimitExceeded { .. }
    ));
}

#[test]
fn opens_after_threshold_errors() {
    let mut cb = CircuitBreaker::new(cfg(3, 30, 60));
    assert_eq!(cb.state_kind("bash"), CircuitStateKind::Closed);
    cb.on_error("bash");
    cb.on_error("bash");
    assert_eq!(cb.state_kind("bash"), CircuitStateKind::Closed);
    cb.on_error("bash");
    assert_eq!(cb.state_kind("bash"), CircuitStateKind::Open);
}

#[test]
fn open_circuit_rejects_calls() {
    let mut cb = CircuitBreaker::new(cfg(1, 30, 60));
    cb.on_error("bash");
    assert!(matches!(cb.check("bash"), CircuitDecision::Open { .. }));
}

#[test]
fn successful_probe_closes_circuit() {
    let mut cb = CircuitBreaker::new(cfg(1, 30, 0));
    cb.on_error("bash");
    // A cooldown of 0 is over at once: the next call is the trial.
    let decision = cb.check("bash");
    assert!(matches!(
        decision,
        CircuitDecision::Allow { is_probe: true }
    ));
    cb.on_success("bash");
    assert_eq!(cb.state_kind("bash"), CircuitStateKind::Closed);
}

#[test]
fn failed_probe_reopens_circuit() {
    let mut cb = CircuitBreaker::new(cfg(1, 30, 0));
    cb.on_error("bash");
    cb.check("bash"); // the trial
    cb.on_error("bash");
    assert_eq!(cb.state_kind("bash"), CircuitStateKind::Open);
}

#[test]
fn errors_for_different_tools_are_independent() {
    let mut cb = CircuitBreaker::new(cfg(2, 30, 60));
    cb.on_error("bash");
    cb.on_error("bash");
    assert_eq!(cb.state_kind("bash"), CircuitStateKind::Open);
    assert_eq!(cb.state_kind("read_file"), CircuitStateKind::Closed);
}

#[test]
fn bucket_allows_a_burst_of_the_limit() {
    let mut b = TokenBucket::new_with_window(3, 10, 0);
    assert!(b.try_consume(0));
    assert!(b.try_consume(0));
    assert!(b.try_consume(0));
    assert!(!b.try_consume(0));
    // A token takes a third of the window: 3.33 s, told as 4.
    assert_eq!(b.retry_after_secs(), 4);
    assert!(!b.try_consume(3 * SECOND));
    assert!(b.try_consume(4 * SECOND));
}

#[test]
fn bucket_refills_no_further_than_its_limit() {
    let mut b = TokenBucket::new(2, 0);
    assert!(b.try_consume(0));
    assert!(b.try_consume(3_600 * SECOND));
    assert!(b.try_consume(3_600 * SECOND));
    assert!(!b.try_consume(3_600 * SECOND));
    assert_eq!(b.retry_after_secs(), 30);
}

#[test]
fn bucket_is_not_confused_by_a_clock_that_stands_still_or_runs_back() {
    let mut b = TokenBucket::new(1, 100 * SECOND);
    assert!(b.try_consume(100 * SECOND));
    assert!(!b.try_consume(40 * SECOND));
    assert!(!b.try_consume(159 * SECOND));
    assert!(b.try_consume(160 * SECOND));
}

#[test]
fn bucket_without_tokens_never_allows() {
    let mut b = TokenBucket::new(0, 0);
    assert!(!b.try_consume(0));
    assert!(!b.try_consume(u128::MAX));
    assert_eq!(b.retry_after_secs(), u64::MAX);
}

#[test]
fn bucket_takes_the_largest_numbers() {
    let mut b = TokenBucket::new_with_window(u64::MAX, u64::MAX, 0);
    assert!(b.try_consume(0));
    assert!(b.try_consume(u128::MAX));
    assert_eq!(b.retry_after_secs(), 0);
    let mut c = TokenBucket::new_with_window(1, u64::MAX, 0);
    assert!(c.try_consume(0));
    assert!(!c.try_consume(SECOND));
    assert_eq!(c.retry_after_secs(), u64::MAX - 1);
}

#[test]
fn bucket_with_a_window_of_no_length_refills_at_once() {
    let mut b = TokenBucket::new_with_window(1, 0, 0);
    assert!(b.try_consume(0));
    assert!(!b.try_consume(0));
    assert!(b.try_consume(1));
}

#[test]
fn refusals_say_how_long_to_wait() {
    let mut limiter = RateLimiter::new(config_with(1000, 1));
    let now = limiter.now();
    assert!(matches!(limiter.check_at("bash", now), RateLimitDecision::Allow));
    match limiter.check_at("bash", now) {
        RateLimitDecision::ToolLimitExceeded { tool, retry_after_secs } => {
            assert_eq!(tool, "bash");
            assert_eq!(retry_after_secs, 60);
        }
        other => panic!("{other:?}"),
    }
    assert!(matches!(
        limiter.check_at("bash", now + 59 * SECOND),
        RateLimitDecision::ToolLimitExceeded { retry_after_secs: 1, .. }
    ));
    assert!(matches!(
        limiter.check_at("bash", now + 60 * SECOND),
        RateLimitDecision::Allow
    ));
}

#[test]
fn global_refusal_leaves_the_buckets_of_tools_alone() {
    let mut limiter = RateLimiter::new(config_with(1, 1));
    let now = limiter.now();
    assert!(matches!(limiter.check_at("a", now), RateLimitDecision::Allow));
    assert!(matches!(
        limiter.check_at("b", now),
        RateLimitDecision::GlobalLimitExceeded { retry_after_secs: 60 }
    ));
    // `b` still has its token when the global bucket has one again.
    assert!(matches!(
        limiter.check_at("b", now + 60 * SECOND),
        RateLimitDecision::Allow
    ));
}

#[test]
fn open_circuit_is_tried_once_after_the_cooldown() {
    let mut cb = CircuitBreaker::new(cfg(1, 30, 60));
    let t = cb.now();
    cb.on_error_at("bash", t);
    assert_eq!(
        cb.check_at("bash", t),
        CircuitDecision::Open { retry_after_secs: 61 }
    );
    assert_eq!(
        cb.check_at("bash", t + 59 * SECOND + 1),
        CircuitDecision::Open { retry_after_secs: 1 }
    );
    assert_eq!(
        cb.check_at("bash", t + 60 * SECOND),
        CircuitDecision::Allow { is_probe: true }
    );
    assert_eq!(cb.state_kind("bash"), CircuitStateKind::HalfOpen);
    assert_eq!(
        cb.check_at("bash", t + 60 * SECOND),
        CircuitDecision::Open { retry_after_secs: 60 }
    );
}

#[test]
fn errors_outside_the_window_are_forgotten() {
    let mut cb = CircuitBreaker::new(cfg(2, 30, 60));
    let t = cb.now();
    cb.on_error_at("bash", t);
    cb.on_error_at("bash", t + 30 * SECOND);
    assert_eq!(cb.state_kind("bash"), CircuitStateKind::Closed);
    cb.on_error_at("bash", t + 59 * SECOND);
    assert_eq!(cb.state_kind("bash"), CircuitStateKind::Open);
}

#[test]
fn success_of_a_closed_circuit_forgets_no_errors() {
    let mut cb = CircuitBreaker::new(cfg(2, 30, 60));
    let t = cb.now();
    cb.on_error_at("bash", t);
    cb.on_success("bash");
    cb.on_error_at("bash", t + SECOND);
    assert_eq!(cb.state_kind("bash"), CircuitStateKind::Open);
}

#[test]
fn settings_have_defaults() {
    let limits = RateLimitConfig::default();
    assert_eq!(limits.global_max_calls_per_minute, 500);
    assert_eq!(limits.per_tool_max_calls_per_minute, 100);
    assert_eq!(limits.per_agent_max_calls_per_minute, 200);
    let breaker = CircuitBreakerConfig::default();
    assert_eq!(breaker, cfg(5, 30, 60));
}

#[test]
fn errors_of_the_last_window_since_the_circuit_closed_count() {
    let mut cb = CircuitBreaker::new(CircuitBreakerConfig {
        error_threshold: 2,
        window_seconds: 30,
        cooldown_seconds: 10,
    });
    let t = cb.now();
    cb.on_error_at("bash", t);
    // The first error is forgotten, so that this one is alone.
    cb.on_error_at("bash", t + 30 * SECOND);
    assert_eq!(cb.state_kind("bash"), CircuitStateKind::Closed);
    cb.on_success("bash");
    cb.on_error_at("bash", t + 40 * SECOND);
    assert_eq!(cb.state_kind("bash"), CircuitStateKind::Open);
    cb.on_error_at("bash", t + 41 * SECOND);
    assert_eq!(cb.state_kind("bash"), CircuitStateKind::Open);
    cb.check_at("bash", t + 60 * SECOND);
    assert_eq!(cb.state_kind("bash"), CircuitStateKind::HalfOpen);
    cb.on_success("bash");
    // What failed before the circuit closed counts no more.
    cb.on_error_at("bash", t + 61 * SECOND);
    assert_eq!(cb.state_kind("bash"), CircuitStateKind::Closed);
    cb.on_error_at("bash", t + 62 * SECOND);
    assert_eq!(cb.state_kind("bash"), CircuitStateKind::Open);
}
