//! A gateway between AI agents and the tool servers that they call.
//!
//! Every tool call passes a guard: a policy of declarative rules, rate limits, and
//! circuit breakers. What the guard refuses is answered with an error; what it lets
//! through is timed and recorded, and secrets are struck from results before the
//! agent sees them.
//!
//! - [`policy`] compiles rules and their conditions and decides on calls,
//! - [`ratelimit`] holds token buckets and circuit breakers,
//! - [`protocol`] has the messages, [`json`] and [`document`] the values in them,
//! - [`proxy`] evaluates calls and handles the traffic of the three transports,
//! - [`storage`], [`dashboard`], [`logging`], [`metrics`], [`config`] and [`cli`]
//!   say what is kept, shown, logged, counted, set and asked for.
pub mod chars;
pub mod cli;
pub mod clock;
pub mod config;
pub mod dashboard;
pub mod document;
pub mod json;
pub mod logging;
pub mod metrics;
pub mod pattern;
pub mod policy;
pub mod protocol;
pub mod proxy;
pub mod ratelimit;
pub mod storage;
pub mod text;
