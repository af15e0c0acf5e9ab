//! Policies: which tool calls may pass, and what is struck from their results.

pub mod condition;
pub mod engine;
pub mod grammar;
pub mod joining;
pub mod laws;
pub mod limiting;
pub mod redact;
pub mod rules;
pub mod sense;
pub mod telling;

pub use engine::{PolicyDecision, PolicyEngine, PolicyError};
