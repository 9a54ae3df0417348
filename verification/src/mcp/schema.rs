//! Resource and prompt descriptions advertised by an MCP server.
use vstd::prelude::*;

verus! {

/// Describes an MCP resource that an AI agent can read.
#[derive(Debug, Clone)]
pub struct ResourceDescription {
    /// The resource URI (e.g. "docs://project/README.md").
    pub uri: String,
    /// Human-readable name.
    pub name: String,
    /// Optional description.
    pub description: Option<String>,
    /// MIME type (e.g. "text/markdown").
    pub mime_type: Option<String>,
}

/// A single argument accepted by an MCP prompt.
#[derive(Debug, Clone)]
pub struct PromptArgument {
    /// Argument name.
    pub name: String,
    /// Human-readable description of the argument.
    pub description: Option<String>,
    /// Whether the argument must be supplied.
    pub required: bool,
}

/// Describes an MCP prompt (a reusable, parameterized message template).
#[derive(Debug, Clone)]
pub struct PromptDescription {
    /// The prompt name (unique within the server).
    pub name: String,
    /// Human-readable description of what the prompt is for.
    pub description: Option<String>,
    /// Arguments the prompt accepts (used to fill the template).
    pub arguments: Vec<PromptArgument>,
}

} // verus!
