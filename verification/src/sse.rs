//! Server-sent event streams.

pub mod call_trace;
pub mod chat;
pub mod history;
pub mod lifecycle;
pub mod steps;
pub mod tool_calls;
