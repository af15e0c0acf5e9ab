//! The gateway between agents and tool servers.

pub mod evaluation;
pub mod exchange;
pub mod http;
pub mod sse;
pub mod stdio;
pub mod upstream;
pub mod wire;
