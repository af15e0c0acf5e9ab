//! Rate limits and circuit breakers.

pub mod circuit_breaker;
pub mod history;
pub mod limiter;
pub mod outages;
pub mod rate;
pub mod token_bucket;

pub use circuit_breaker::{CircuitBreaker, CircuitDecision, CircuitStateKind};
pub use limiter::{RateLimitDecision, RateLimiter};
pub use token_bucket::TokenBucket;
