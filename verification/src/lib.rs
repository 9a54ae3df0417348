use vstd::prelude::*;

pub mod error;
pub mod graph;
pub mod install;
pub mod llm;
pub mod mcp;
pub mod json;
pub mod text;

verus! {

/// Returns the crate name.
pub fn name() -> (r: &'static str)
    ensures
        r@ == "llm-kernel"@,
{
    "llm-kernel"
}

/// Returns the crate version, as in `Cargo.toml`.
pub fn version() -> (r: &'static str)
    ensures
        r@ == "0.1.0"@,
{
    "0.1.0"
}

} // verus!
