//! The committed event model: the fields of a session's persisted events that
//! the folds, the monitor and the turn bookkeeping read.

use vstd::prelude::*;

use crate::json::Json;

verus! {

/// A UTC instant: seconds since the Unix epoch plus a sub-second part.
/// Ordered chronologically.
#[derive(Debug, Clone, Copy, PartialEq, Eq, PartialOrd, Ord, Structural)]
pub struct Timestamp {
    pub secs: i64,
    pub nanos: u32,
}

/// Whether `a` is strictly earlier than `b`.
pub open spec fn earlier(a: Timestamp, b: Timestamp) -> bool {
    a.secs < b.secs || (a.secs == b.secs && a.nanos < b.nanos)
}

/// Token accounting for one model request.
#[derive(Debug, Clone, Copy, PartialEq, Eq, Default, Structural)]
pub struct Usage {
    pub input_tokens: u32,
    pub output_tokens: u32,
    pub cache_read_tokens: u32,
    pub cache_write_tokens: u32,
}

/// Why a model turn stopped.
#[derive(Debug, Clone, Copy, PartialEq, Eq, Structural)]
pub enum StopReason {
    EndTurn,
    MaxTokens,
    ToolUse,
}

/// One committed event.
#[derive(Debug, PartialEq, Eq)]
pub struct Event {
    /// The event's position in its session's log.
    pub seq: u64,
    /// When the event was committed.
    pub timestamp: Timestamp,
    /// The turn the event belongs to, if any.
    pub turn_id: Option<String>,
    /// What happened.
    pub payload: Payload,
}

/// The kinds of committed events.
#[derive(Debug, PartialEq, Eq)]
pub enum Payload {
    /// Session lifecycle (created, paused, ...): not conversation content.
    Session,
    Turn(TurnEvent),
    Model(ModelEvent),
    Tool(ToolEvent),
    Permission(PermissionEvent),
    /// A raised error.
    Error(ErrorDetail),
    /// Artifacts, injections, hook records: not conversation content.
    Other,
}

/// Turn lifecycle.
#[derive(Debug, PartialEq, Eq)]
pub enum TurnEvent {
    Started { turn_id: String, input: Option<String> },
    Resumed { turn_id: String },
    Completed { turn_id: String },
    Failed { turn_id: String },
    Interrupted { turn_id: String, interrupted_at: u64 },
}

/// Model request lifecycle and committed content.
#[derive(Debug, PartialEq, Eq)]
pub enum ModelEvent {
    RequestStarted { request_id: String, model: String },
    RequestCompleted { request_id: String, usage: Usage },
    ContentBlock { content: BlockContent },
}

/// One committed content block of a model response.
#[derive(Debug, PartialEq, Eq)]
pub enum BlockContent {
    Text { text: String },
    Reasoning { text: String },
    ToolCall { id: String, name: String, arguments: String, summary: Option<String> },
}

/// Tool execution lifecycle; `call_seq` is the seq of the tool-call block.
#[derive(Debug, PartialEq, Eq)]
pub enum ToolEvent {
    Started { call_seq: u64, tool_name: String },
    Completed { call_seq: u64, result: ToolOutput },
    Failed { call_seq: u64, error: ErrorDetail },
}

/// A tool's result.
#[derive(Debug, PartialEq, Eq)]
pub struct ToolOutput {
    pub content: Vec<Content>,
    pub is_error: bool,
    pub error_code: Option<String>,
}

/// One piece of tool output.
#[derive(Debug, PartialEq, Eq)]
pub enum Content {
    /// Plain text for the model.
    Text(String),
    /// Text addressed to one audience (`"ui"` for the conversation view).
    TextView { text: String, audience: String },
    /// Binary content (images, files).
    Binary,
}

/// Permission gate lifecycle for one tool call.
#[derive(Debug, PartialEq, Eq)]
pub enum PermissionEvent {
    Requested { call_id: String, tool_name: String, input: Json, preview: Option<String> },
    Decided { call_id: String },
}

/// An error's code and human-readable message.
#[derive(Debug, PartialEq, Eq)]
pub struct ErrorDetail {
    pub code: String,
    pub message: String,
}

} // verus!
