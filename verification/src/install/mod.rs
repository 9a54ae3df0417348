//! MCP configuration snippets for AI coding tools.

pub mod wizard;
