//! Graph traversal statements: 1-hop neighbors of a seed set and the
//! breadth-first walk from one node.
use vstd::prelude::*;

use crate::graph::search::{placeholders, placeholders_spec};
use crate::text::push_str;

verus! {

/// Maximum edges in a graph snapshot (prevents unbounded memory).
pub const MAX_GRAPH_EDGES: usize = 2000;

/// Maximum seed ids per neighbor query (keeps the bound values under the
/// engine's limit).
pub const MAX_SEED_IDS: usize = 100;

/// Every node reachable from `?1` over edges in either direction, the start
/// excluded, at most 500 rows.
pub const RELATED_NODES_SQL: &'static str = "\n        WITH RECURSIVE bfs(node_id) AS (\n            SELECT target FROM edges WHERE source = ?1\n            UNION SELECT source FROM edges WHERE target = ?1\n            UNION SELECT e.target FROM edges e JOIN bfs ON e.source = bfs.node_id WHERE e.target != ?1\n            UNION SELECT e.source FROM edges e JOIN bfs ON e.target = bfs.node_id WHERE e.source != ?1\n        )\n        SELECT node_id FROM bfs\n        LIMIT 500\n    ";

/// How many of `n` seeds a neighbor query uses: the first `MAX_SEED_IDS`.
pub fn seed_count(n: usize) -> (k: usize)
    ensures
        k == if n > MAX_SEED_IDS {
            MAX_SEED_IDS
        } else {
            n
        },
{
    if n > MAX_SEED_IDS {
        MAX_SEED_IDS
    } else {
        n
    }
}

/// The neighbor statement over `k` seeds: targets of edges leaving a seed and
/// sources of edges entering one, each with its summed weight. The seeds are
/// bound twice, first for the outgoing half, then for the incoming half.
pub open spec fn graph_neighbors_sql_spec(k: nat) -> Seq<char> {
    "SELECT target AS nb, SUM(weight) AS w FROM edges WHERE source IN ("@ + placeholders_spec(k)
        + ") GROUP BY target UNION ALL SELECT source AS nb, SUM(weight) AS w FROM edges WHERE target IN ("@
        + placeholders_spec(k) + ") GROUP BY source"@
}

/// The neighbor statement over `k` seeds.
pub fn graph_neighbors_sql(k: usize) -> (s: String)
    ensures
        s@ == graph_neighbors_sql_spec(k as nat),
{
    let ph = placeholders(k);
    let mut s = String::new();
    push_str(&mut s, "SELECT target AS nb, SUM(weight) AS w FROM edges WHERE source IN (");
    push_str(&mut s, ph.as_str());
    push_str(
        &mut s,
        ") GROUP BY target UNION ALL SELECT source AS nb, SUM(weight) AS w FROM edges WHERE target IN (",
    );
    push_str(&mut s, ph.as_str());
    push_str(&mut s, ") GROUP BY source");
    s
}

} // verus!
