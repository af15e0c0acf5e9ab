//! Records of tool calls, as they are kept.

pub mod sqlite;

pub use sqlite::{row_to_record, InvocationFilter, InvocationRecord, InvocationStatus, StoredRow};
