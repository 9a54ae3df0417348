//! LLM client building blocks: message types, conversation history, prompt
//! templates, JSON extraction from model output, retry policy and routing.

pub mod types;
pub mod tool;
pub mod history;
pub mod prompt;
pub mod template;
pub mod json_extract;
pub mod retry;
pub mod client;
pub mod router;
pub mod cache;
pub mod middleware;
