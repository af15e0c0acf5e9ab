//! The dashboard: what it answers, and to whom.

pub mod api;
pub mod server;
pub mod state;
pub mod ws;
