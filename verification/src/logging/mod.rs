//! What is written to the log.

pub mod structured;
