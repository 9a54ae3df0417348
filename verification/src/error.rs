//! The crate's error type.
use vstd::prelude::*;

verus! {

/// Errors reported by the library.
#[derive(Debug, Clone, PartialEq, Eq)]
pub enum KernelError {
    /// Missing or invalid configuration.
    Config(String),
    /// Storage backend failure.
    Store(String),
    /// LLM provider API error, formatted as `"HTTP {status}: {text}"` when it
    /// comes from an HTTP response.
    LlmApi(String),
    /// Rate limited by the provider; the payload is the `retry-after` hint in
    /// seconds.
    RateLimited(u64),
    /// HTTP transport error with status code.
    Http {
        /// HTTP status code.
        status: u16,
        /// Error message (response body or description).
        message: String,
    },
}

} // verus!
