//! The messages that agents and tool servers exchange.

pub mod jsonrpc;
pub mod mcp;
