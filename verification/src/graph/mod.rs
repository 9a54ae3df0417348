//! Knowledge-graph helpers: value encoding, text search inputs, time stamps
//! and the in-memory graph snapshot with its algorithms.

pub mod types;
pub mod cjk;
pub mod pg;
pub mod lifecycle;
pub mod search;
pub mod csr;
pub mod community;
pub mod similarity;
pub mod dedup;
pub mod schema;
pub mod traversal;
