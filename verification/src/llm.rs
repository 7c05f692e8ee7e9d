//! Provider-neutral message types the agent loop works with.

use vstd::prelude::*;

use crate::json::Json;

verus! {

/// One message in a conversation, in provider-neutral form.
#[derive(Debug, Clone, PartialEq, Eq)]
pub enum Message {
    /// The system prompt / agent identity.
    System { content: String },
    /// User input.
    User { content: String },
    /// A model turn: free-text content and/or tool calls.
    Assistant { content: Option<String>, tool_calls: Vec<ToolCall> },
    /// The result of running a tool, fed back to the model.
    Tool { tool_call_id: String, content: String },
}

/// A tool invocation requested by the model; `arguments` is the raw JSON text.
#[derive(Debug, Clone, PartialEq, Eq)]
pub struct ToolCall {
    pub id: String,
    pub name: String,
    pub arguments: String,
}

/// The schema of a tool advertised to the model; `parameters` is a JSON Schema
/// object.
#[derive(Debug, PartialEq, Eq)]
pub struct ToolSchema {
    pub name: String,
    pub description: String,
    pub parameters: Json,
}

} // verus!
