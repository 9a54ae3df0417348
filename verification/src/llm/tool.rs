//! Tool-calling records exchanged with LLM APIs.
use vstd::prelude::*;

verus! {

/// A tool call requested by the LLM during generation.
#[derive(Debug, Clone)]
pub struct ToolCall {
    /// Provider-assigned ID for this tool call (used to match results).
    pub id: String,
    /// Name of the tool to invoke.
    pub name: String,
    /// JSON-encoded arguments for the tool call.
    pub arguments: String,
}

/// Result of executing a tool call, to be sent back to the LLM.
#[derive(Debug, Clone)]
pub struct ToolResult {
    /// ID of the `ToolCall` this result corresponds to.
    pub tool_call_id: String,
    /// Content returned by the tool execution.
    pub content: String,
}

} // verus!
