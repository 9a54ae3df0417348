//! Schema versions of the graph store and the migrations between them.
use vstd::prelude::*;
use vstd::string::StringSliceAdditionalSpecFns;

use crate::llm::client::{parse_u64, parse_u64_spec};

verus! {

/// Current graph schema version. Increment when adding migrations.
pub const GRAPH_SCHEMA_VERSION: u32 = 2;

/// Migration from version 1 to 2: index nodes by creation timestamp (used by
/// recency ordering).
pub const MIGRATION_V2_SQL: &'static str = "CREATE INDEX IF NOT EXISTS idx_nodes_created ON nodes(created);";

/// Reads the recorded version from the metadata table.
pub const SCHEMA_VERSION_SQL: &'static str = "SELECT value FROM _meta WHERE key = 'graph_schema_version'";

/// Records a new version in the metadata table.
pub const RECORD_VERSION_SQL: &'static str = "UPDATE _meta SET value = ?1 WHERE key = 'graph_schema_version'";

/// The version a stored text records: the text read as a `u32`, or 0 when
/// nothing is stored or the text is not a `u32`.
pub open spec fn recorded_version(text: Option<Seq<u8>>) -> int {
    match text {
        Some(b) => match parse_u64_spec(b) {
            Some(v) => if v <= u32::MAX {
                v
            } else {
                0
            },
            None => 0,
        },
        None => 0,
    }
}

/// The schema version recorded as `text` (the value of the metadata row, if
/// one was read).
pub fn schema_version_from(text: Option<&str>) -> (v: u32)
    ensures
        v == recorded_version(
            match text {
                Some(s) => Some(s.spec_bytes()),
                None => None,
            },
        ),
{
    match text {
        Some(s) => match parse_u64(s) {
            Some(v) => if v <= 0xffff_ffffu64 {
                v as u32
            } else {
                0
            },
            None => 0,
        },
        None => 0,
    }
}

/// The statements that bring a schema recorded at `current` up to date, in
/// the order they run, and the version recorded once they have run. A schema
/// already at (or past) the current version needs nothing and keeps its
/// version.
pub fn migration_plan(current: u32) -> (plan: (Vec<&'static str>, u32))
    ensures
        current >= GRAPH_SCHEMA_VERSION ==> plan.0@.len() == 0 && plan.1 == current,
        current < GRAPH_SCHEMA_VERSION ==> plan.0@.map_values(|s: &str| s@) == seq![MIGRATION_V2_SQL@]
            && plan.1 == GRAPH_SCHEMA_VERSION,
        plan.1 >= current,
        plan.1 >= GRAPH_SCHEMA_VERSION,
{
    let mut steps: Vec<&'static str> = Vec::new();
    if current >= GRAPH_SCHEMA_VERSION {
        return (steps, current);
    }
    let mut v = current;
    if v < 2 {
        steps.push(MIGRATION_V2_SQL);
        v = 2;
    }
    assert(steps@.map_values(|s: &str| s@) == seq![MIGRATION_V2_SQL@]);
    (steps, v)
}

} // verus!
