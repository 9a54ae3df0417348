use std::collections::HashSet;

use llm_kernel::graph::cjk::{is_cjk_char, segment_cjk};
use llm_kernel::graph::community::connected_components;
use llm_kernel::graph::csr::{csr_edge_cap, CsrGraph, EdgeEnds};
use llm_kernel::graph::lifecycle::{
    cutoff_timestamp_at, days_since_epoch, days_to_ymd, is_leap, iso_from_secs, parse_iso_to_secs,
    parse_iso_to_secs_checked,
};
use llm_kernel::graph::pg::{is_identifier_safe, search_patterns};
use llm_kernel::graph::search::{
    fts_phrase, query_nodes_ex_sql, query_nodes_sql, NodeOrder, NodeQuery, SqlParam,
};
use llm_kernel::graph::similarity::{common_neighbors, neighbor_set};
use llm_kernel::graph::types::{escape_like, join_csv, split_csv, validate_uuid, NODE_COLUMNS};

// ── Text helpers of the graph store ───────────────────

#[test]
fn segment_separates_cjk_chars() {
    assert_eq!(segment_cjk("知識"), "知 識 ");
    // Latin runs are untouched.
    assert_eq!(segment_cjk("rust async"), "rust async");
    // Mixed: each CJK character is followed by a space; the Latin run is intact.
    let seg = segment_cjk("Rustでトークン");
    assert!(seg.starts_with("Rustで "), "got: {seg:?}");
    assert!(seg.contains("ト "), "got: {seg:?}");
}

#[test]
fn cjk_ranges_cover_hangul_kana_and_han() {
    assert!(is_cjk_char('한'));
    assert!(is_cjk_char('カ'));
    assert!(is_cjk_char('字'));
    assert!(!is_cjk_char('a'));
    assert!(!is_cjk_char(' '));
}

#[test]
fn parse_iso_roundtrip() {
    let secs = parse_iso_to_secs("2026-01-15T12:30:45Z");
    assert!(secs > 0);
}

#[test]
fn parse_iso_exact_value() {
    // 2026-01-15 is day 20468 since the epoch.
    assert_eq!(parse_iso_to_secs("2026-01-15T12:30:45Z"), 20468 * 86400 + 12 * 3600 + 30 * 60 + 45);
    assert_eq!(parse_iso_to_secs("1970-01-01T00:00:00Z"), 0);
}

#[test]
fn iso_text_round_trips_through_parse() {
    for secs in [0u64, 86_399, 951_782_400, 1_768_480_245, 4_102_444_800] {
        let text = iso_from_secs(secs);
        assert_eq!(parse_iso_to_secs(&text), secs, "{text}");
    }
    assert_eq!(iso_from_secs(1_768_480_245), "2026-01-15T12:30:45Z");
}

#[test]
fn calendar_conversions_are_inverse() {
    assert!(is_leap(2000));
    assert!(!is_leap(1900));
    assert!(is_leap(2024));
    assert_eq!(days_to_ymd(0), (1970, 1, 1));
    assert_eq!(days_to_ymd(11016), (2000, 2, 29));
    for days in [0u64, 59, 365, 11016, 20468, 47482] {
        let (y, m, d) = days_to_ymd(days);
        assert_eq!(days_since_epoch(y, m, d), days);
    }
}

#[test]
fn days_since_epoch_far_future_and_wrapping_past() {
    assert_eq!(days_since_epoch(1_000_000, 1, 1), 364_522_972);
    assert_eq!(days_to_ymd(364_522_972), (1_000_000, 1, 1));
    // Dates before 1970 wrap around in u64.
    assert_eq!(days_since_epoch(1969, 12, 31), u64::MAX);
    assert_eq!(days_since_epoch(1900, 1, 1), u64::MAX - 25_566);
    // Past December all twelve months count; day 0 counts as day 1.
    assert_eq!(days_since_epoch(1970, 13, 0), 365);
}

#[test]
fn checked_parse_refuses_fields_split_inside_a_character() {
    assert_eq!(parse_iso_to_secs_checked("2026-01-15T12:30:45Z"), Some(1_768_480_245));
    assert_eq!(parse_iso_to_secs_checked("short"), Some(0));
    // 'é' takes bytes 4 and 5, so the month field would start inside it.
    assert_eq!(parse_iso_to_secs_checked("2026é01-15T12:30:45Z"), None);
}

#[test]
fn cutoff_is_clamped_at_epoch() {
    assert_eq!(cutoff_timestamp_at(86_400 * 10, 3), "1970-01-08T00:00:00Z");
    assert_eq!(cutoff_timestamp_at(100, 3), "1970-01-01T00:00:00Z");
}

#[test]
fn pg_search_patterns_escapes_and_wraps() {
    assert!(search_patterns("").is_empty());
    assert_eq!(search_patterns("rust"), vec!["%rust%".to_string()]);
    // LIKE wildcards (`%`, `_`, `\`) are escaped inside the term.
    assert_eq!(search_patterns("100%"), vec!["%100\\%%".to_string()]);
    assert_eq!(search_patterns("a_b"), vec!["%a\\_b%".to_string()]);
    // Multiple whitespace-separated terms → multiple patterns.
    assert_eq!(
        search_patterns("rust db"),
        vec!["%rust%".to_string(), "%db%".to_string()]
    );
}

#[test]
fn sqlx_pg_search_patterns_escapes_and_wraps() {
    assert!(search_patterns("").is_empty());
    assert_eq!(search_patterns("rust"), vec!["%rust%".to_string()]);
    assert_eq!(search_patterns("100%"), vec!["%100\\%%".to_string()]);
    assert_eq!(search_patterns("a_b"), vec!["%a\\_b%".to_string()]);
    assert_eq!(
        search_patterns("rust db"),
        vec!["%rust%".to_string(), "%db%".to_string()]
    );
}

#[test]
fn is_identifier_safe_validation() {
    // Accepted: empty (default), and ASCII letter/underscore-led names.
    assert!(is_identifier_safe(""));
    assert!(is_identifier_safe("lk_"));
    assert!(is_identifier_safe("graph1"));
    assert!(is_identifier_safe("_x"));
    assert!(is_identifier_safe("ABC_123"));
    // Rejected: a digit-led prefix would form an invalid unquoted identifier.
    assert!(!is_identifier_safe("1lk"));
    // Rejected: whitespace, punctuation, quotes, SQL metacharacters, CJK.
    assert!(!is_identifier_safe("lk nodes"));
    assert!(!is_identifier_safe("lk;"));
    assert!(!is_identifier_safe("lk' OR 1=1--"));
    assert!(!is_identifier_safe("lk\"x"));
    assert!(!is_identifier_safe("lk-x"));
    assert!(!is_identifier_safe("그래프"));
}

#[test]
fn escape_like_escapes_percent() {
    assert_eq!(escape_like("100%"), r"100\%");
}

#[test]
fn escape_like_escapes_underscore() {
    assert_eq!(escape_like("a_b"), r"a\_b");
}

#[test]
fn escape_like_passthrough_normal() {
    assert_eq!(escape_like("hello"), "hello");
}

#[test]
fn escape_like_escapes_backslash() {
    assert_eq!(escape_like(r"\"), r"\\");
}

#[test]
fn escape_like_empty() {
    assert_eq!(escape_like(""), "");
}

#[test]
fn validate_uuid_accepts_valid_v4() {
    assert!(validate_uuid("550e8400-e29b-41d4-a716-446655440000"));
    assert!(validate_uuid("00000000-0000-4000-8000-000000000000"));
    assert!(validate_uuid("ffffffff-ffff-4fff-bfff-ffffffffffff"));
}

#[test]
fn validate_uuid_rejects_wrong_version() {
    // version byte (position 14) is '3', not '4'
    assert!(!validate_uuid("550e8400-e29b-31d4-a716-446655440000"));
}

#[test]
fn validate_uuid_rejects_wrong_variant() {
    // variant byte (position 19) is 'c', not in [89abAB]
    assert!(!validate_uuid("550e8400-e29b-41d4-c716-446655440000"));
}

#[test]
fn validate_uuid_rejects_short() {
    assert!(!validate_uuid(""));
    assert!(!validate_uuid("550e8400"));
}

#[test]
fn validate_uuid_rejects_missing_dashes() {
    assert!(!validate_uuid("550e8400e29b41d4a716446655440000"));
}

#[test]
fn validate_uuid_rejects_non_hex() {
    assert!(!validate_uuid("550g8400-e29b-41d4-a716-446655440000"));
}

#[test]
fn csv_join_and_split_round_trip() {
    let v = vec!["rust".to_string(), "db".to_string()];
    assert_eq!(join_csv(&v), "rust,db");
    assert_eq!(split_csv(" rust , ,db "), v);
    assert_eq!(split_csv(&join_csv(&v)), v);
    assert!(split_csv("").is_empty());
}

// ── Search statements ─────────────────────────────────

#[test]
fn fts_phrase_quotes_and_doubles_quotes() {
    assert_eq!(fts_phrase("rust"), "\"rust\"");
    assert_eq!(fts_phrase("say \"hi\""), "\"say \"\"hi\"\"\"");
    assert_eq!(fts_phrase(""), "\"\"");
}

#[test]
fn node_query_defaults() {
    let q = NodeQuery::default();
    assert_eq!(q.limit, 50);
    assert_eq!(q.offset, 0);
    assert_eq!(q.order_by, NodeOrder::CreatedDesc);
    assert_eq!(NodeOrder::default(), NodeOrder::CreatedDesc);
    assert!(q.tag.is_none() && q.project.is_none() && q.since.is_none());
}

#[test]
fn order_clause_per_variant() {
    let mut q = NodeQuery::default();
    assert_eq!(q.order_clause(), "created DESC");
    q.order_by = NodeOrder::CreatedAsc;
    assert_eq!(q.order_clause(), "created ASC");
    q.order_by = NodeOrder::UpdatedDesc;
    assert_eq!(q.order_clause(), "updated DESC");
    q.order_by = NodeOrder::ImportanceDesc;
    assert_eq!(q.order_clause(), "importance DESC");
}

#[test]
fn query_nodes_statement_without_filters() {
    let q = query_nodes_sql(None, None, None, 500);
    assert_eq!(
        q.sql,
        format!("SELECT {NODE_COLUMNS} FROM nodes  ORDER BY updated DESC LIMIT 200")
    );
    assert!(q.params.is_empty());
}

#[test]
fn query_nodes_statement_with_filters() {
    let q = query_nodes_sql(Some("a_b"), Some("decision"), Some("p%"), 7);
    assert_eq!(
        q.sql,
        format!(
            "SELECT {NODE_COLUMNS} FROM nodes WHERE (',' || tags || ',' LIKE '%,' || ? || ',%' ESCAPE '\\') AND type = ? AND (',' || projects || ',' LIKE '%,' || ? || ',%' ESCAPE '\\') ORDER BY updated DESC LIMIT 7"
        )
    );
    assert_eq!(
        q.params,
        vec![
            SqlParam::Text("a\\_b".to_string()),
            SqlParam::Text("decision".to_string()),
            SqlParam::Text("p\\%".to_string()),
        ]
    );
}

#[test]
fn query_nodes_ex_statement_binds_paging() {
    let mut q = NodeQuery::default();
    q.since = Some("2026-01-01T00:00:00Z".to_string());
    q.until = Some("2026-02-01T00:00:00Z".to_string());
    q.limit = 1000;
    q.offset = 40;
    q.order_by = NodeOrder::CreatedAsc;
    let s = query_nodes_ex_sql(&q);
    assert_eq!(
        s.sql,
        format!(
            "SELECT {NODE_COLUMNS} FROM nodes WHERE created >= ? AND created < ? ORDER BY created ASC LIMIT ? OFFSET ?"
        )
    );
    assert_eq!(
        s.params,
        vec![
            SqlParam::Text("2026-01-01T00:00:00Z".to_string()),
            SqlParam::Text("2026-02-01T00:00:00Z".to_string()),
            SqlParam::Int(200),
            SqlParam::Int(40),
        ]
    );
}

// ── CSR snapshot ──────────────────────────────────────

fn ends(s: &str, t: &str) -> EdgeEnds {
    EdgeEnds { source: s.to_string(), target: t.to_string() }
}

fn graph(nodes: &[&str], edges: &[EdgeEnds]) -> CsrGraph {
    let node_ids: Vec<String> = nodes.iter().map(|s| s.to_string()).collect();
    CsrGraph::from_edges(&node_ids, edges)
}

/// Diamond: A→B, A→C, B→D, C→D (all weight 1.0). D is a sink.
fn diamond() -> (Vec<String>, Vec<EdgeEnds>, Vec<f64>) {
    let nodes: Vec<String> = ["A", "B", "C", "D"].iter().map(|s| s.to_string()).collect();
    let edges = vec![ends("A", "B"), ends("A", "C"), ends("B", "D"), ends("C", "D")];
    (nodes, edges, vec![1.0, 1.0, 1.0, 1.0])
}

/// Sum of the weights of the out-edges of `idx`, found by input position.
fn out_weight_sum(g: &CsrGraph, idx: u32, weights: &[f64]) -> f64 {
    g.out_neighbors(idx).iter().map(|&(_, pos)| weights[pos as usize]).sum()
}

fn is_dangling(g: &CsrGraph, idx: u32, weights: &[f64]) -> bool {
    out_weight_sum(g, idx, weights) <= 0.0
}

#[test]
fn diamond_out_neighbors_and_sink() {
    let (nodes, edges, weights) = diamond();
    let g = CsrGraph::from_edges(&nodes, &edges);
    let a = g.node_index("A").unwrap();
    let b = g.node_index("B").unwrap();
    let c = g.node_index("C").unwrap();
    let d = g.node_index("D").unwrap();

    let mut nbrs: Vec<u32> = g.out_neighbors(a).iter().map(|&(t, _)| t).collect();
    nbrs.sort_unstable();
    assert_eq!(nbrs, vec![b, c]);

    // D is a sink — no out-edges → dangling.
    assert_eq!(g.out_degree(d), 0);
    assert!(is_dangling(&g, d, &weights));
    assert!(!is_dangling(&g, a, &weights));
}

#[test]
fn reverse_csr_in_neighbors() {
    let (nodes, edges, _) = diamond();
    let g = CsrGraph::from_edges(&nodes, &edges);
    let b = g.node_index("B").unwrap();
    let c = g.node_index("C").unwrap();
    let d = g.node_index("D").unwrap();

    let mut srcs: Vec<u32> = g.in_neighbors(d).iter().map(|&(s, _)| s).collect();
    srcs.sort_unstable();
    assert_eq!(srcs, vec![b, c]);
}

#[test]
fn out_weight_sum_accumulates_parallel_edges() {
    let nodes: Vec<String> = ["A", "B"].iter().map(|s| s.to_string()).collect();
    let edges = vec![ends("A", "B"), ends("A", "B")];
    let weights = [0.3, 0.7];
    let g = CsrGraph::from_edges(&nodes, &edges);
    let a = g.node_index("A").unwrap();
    assert!((out_weight_sum(&g, a, &weights) - 1.0).abs() < 1e-12);
    assert_eq!(g.out_degree(a), 2);
}

#[test]
fn orphan_edges_dropped() {
    let nodes: Vec<String> = ["A", "B"].iter().map(|s| s.to_string()).collect();
    let edges = vec![ends("A", "B"), ends("A", "Z"), ends("X", "B")];
    let g = CsrGraph::from_edges(&nodes, &edges);
    assert_eq!(g.edge_count(), 1);
}

#[test]
fn isolated_node_is_dangling() {
    let nodes: Vec<String> = ["A", "B", "E"].iter().map(|s| s.to_string()).collect();
    let edges = vec![ends("A", "B")];
    let weights = [1.0];
    let g = CsrGraph::from_edges(&nodes, &edges);
    let e = g.node_index("E").unwrap();
    assert!(is_dangling(&g, e, &weights));
    assert_eq!(g.node_count(), 3);
    assert_eq!(g.edge_count(), 1);
}

#[test]
fn self_loop_kept() {
    let nodes: Vec<String> = ["A"].iter().map(|s| s.to_string()).collect();
    let edges = vec![ends("A", "A")];
    let g = CsrGraph::from_edges(&nodes, &edges);
    let a = g.node_index("A").unwrap();
    assert_eq!(g.out_degree(a), 1);
    assert_eq!(g.out_neighbors(a)[0].0, a);
}

#[test]
fn node_id_roundtrip() {
    let (nodes, edges, _) = diamond();
    let g = CsrGraph::from_edges(&nodes, &edges);
    for id in &["A", "B", "C", "D"] {
        let idx = g.node_index(id).unwrap();
        assert_eq!(g.node_id(idx), *id);
    }
    assert!(g.node_index("missing").is_none());
}

#[test]
fn duplicate_ids_collapse_to_first_and_positions_are_kept() {
    let g = graph(&["B", "A", "B"], &[ends("A", "B"), ends("Q", "A"), ends("B", "A")]);
    assert_eq!(g.node_count(), 2);
    assert_eq!(g.node_index("B"), Some(0));
    assert_eq!(g.node_index("A"), Some(1));
    assert_eq!(g.out_neighbors(1), vec![(0, 0)]);
    assert_eq!(g.out_neighbors(0), vec![(1, 2)]);
    assert_eq!(g.in_neighbors(1), vec![(0, 2)]);
    assert_eq!(g.node_indices(), 0..2);
}

#[test]
fn edge_cap_has_floor_and_saturates() {
    assert_eq!(csr_edge_cap(0), 2000);
    assert_eq!(csr_edge_cap(31), 2000);
    assert_eq!(csr_edge_cap(100), 6400);
    assert_eq!(csr_edge_cap(usize::MAX), usize::MAX);
}

// ── Components and neighbourhoods ─────────────────────

#[test]
fn two_disjoint_components() {
    let g = graph(
        &["A", "B", "C", "D", "E"],
        &[ends("A", "B"), ends("B", "C"), ends("D", "E")],
    );
    let comp = connected_components(&g);
    let a = g.node_index("A").unwrap() as usize;
    let b = g.node_index("B").unwrap() as usize;
    let c = g.node_index("C").unwrap() as usize;
    let d = g.node_index("D").unwrap() as usize;
    let e = g.node_index("E").unwrap() as usize;
    // {A,B,C} share a root; {D,E} share a root; the two differ.
    assert_eq!(comp[a], comp[b]);
    assert_eq!(comp[b], comp[c]);
    assert_eq!(comp[d], comp[e]);
    assert_ne!(comp[a], comp[d]);
}

#[test]
fn single_component_connected() {
    let g = graph(&["A", "B", "C"], &[ends("A", "B"), ends("B", "C")]);
    let comp = connected_components(&g);
    let labels: HashSet<u32> = comp.iter().copied().collect();
    assert_eq!(labels.len(), 1, "fully connected graph has one component");
}

#[test]
fn direction_ignored_for_components() {
    // A→B, C→B: undirected view unites all three.
    let g = graph(&["A", "B", "C"], &[ends("A", "B"), ends("C", "B")]);
    let comp = connected_components(&g);
    let labels: HashSet<u32> = comp.iter().copied().collect();
    assert_eq!(labels.len(), 1);
}

#[test]
fn isolated_nodes_each_own_component() {
    // No edges → every node its own component.
    let g = graph(&["A", "B", "C"], &[]);
    let comp = connected_components(&g);
    let distinct: HashSet<u32> = comp.iter().copied().collect();
    assert_eq!(distinct.len(), 3);
}

#[test]
fn component_roots_are_fixed_points_and_edges_share_roots() {
    let edges = vec![ends("A", "B"), ends("C", "D"), ends("E", "A"), ends("D", "F"), ends("B", "E")];
    let g = graph(&["A", "B", "C", "D", "E", "F", "G"], &edges);
    let comp = connected_components(&g);
    assert_eq!(comp.len(), 7);
    for &r in &comp {
        assert_eq!(comp[r as usize], r);
    }
    for e in &edges {
        let s = g.node_index(&e.source).unwrap() as usize;
        let t = g.node_index(&e.target).unwrap() as usize;
        assert_eq!(comp[s], comp[t]);
    }
    let g_idx = g.node_index("G").unwrap() as usize;
    assert_eq!(comp[g_idx], g_idx as u32);
    let distinct: HashSet<u32> = comp.iter().copied().collect();
    assert_eq!(distinct.len(), 3);
}

#[test]
fn common_neighbors_counts_shared() {
    let g = graph(&["A", "B", "C"], &[ends("A", "C"), ends("B", "C")]);
    let a = g.node_index("A").unwrap();
    let b = g.node_index("B").unwrap();
    assert_eq!(common_neighbors(&g, a, b), 1); // shared neighbor C
}

#[test]
fn similarity_disjoint_nodes_zero() {
    let g = graph(&["A", "B"], &[ends("A", "B")]);
    let a = g.node_index("A").unwrap();
    let b = g.node_index("B").unwrap();
    // N(A)={B}, N(B)={A} → no shared neighbor.
    assert_eq!(common_neighbors(&g, a, b), 0);
}

#[test]
fn neighbor_set_is_undirected_without_self_or_repeats() {
    let g = graph(
        &["A", "B", "C"],
        &[ends("A", "B"), ends("A", "B"), ends("C", "A"), ends("A", "A")],
    );
    let a = g.node_index("A").unwrap();
    let b = g.node_index("B").unwrap();
    let c = g.node_index("C").unwrap();
    assert_eq!(neighbor_set(&g, a), vec![b, c]);
    assert_eq!(neighbor_set(&g, b), vec![a]);
    assert_eq!(common_neighbors(&g, b, c), 1);
}

// ── Link prediction candidates and other helpers ──────

use llm_kernel::graph::dedup::window_cutoff_at;
use llm_kernel::graph::similarity::{link_candidates, shared_neighbors};

#[test]
fn link_prediction_finds_unconnected_pair() {
    // A is a hub: A-B, A-C. B and C are unconnected but share neighbor A.
    let g = graph(&["A", "B", "C"], &[ends("A", "B"), ends("A", "C")]);
    let b = g.node_index("B").unwrap();
    let c = g.node_index("C").unwrap();
    assert_eq!(link_candidates(&g), vec![(b, c)]);
    assert_eq!(shared_neighbors(&g, b, c), vec![g.node_index("A").unwrap()]);
}

#[test]
fn link_prediction_empty_when_fully_connected() {
    let g = graph(&["A", "B", "C"], &[ends("A", "B"), ends("B", "C"), ends("C", "A")]);
    assert!(link_candidates(&g).is_empty());
}

#[test]
fn link_candidates_are_ordered_pairs() {
    // Star around X plus a separate pair: every two leaves are candidates.
    let g = graph(&["X", "P", "Q", "R", "S", "T"], &[ends("X", "P"), ends("Q", "X"), ends("X", "R"), ends("S", "T")]);
    assert_eq!(link_candidates(&g), vec![(1, 2), (1, 3), (2, 3)]);
}

#[test]
fn duplicate_window_cutoff() {
    assert_eq!(window_cutoff_at(7200, 1), "1970-01-01T01:00:00Z");
    assert_eq!(window_cutoff_at(100, 24), "1970-01-01T00:00:00Z");
}

#[test]
fn like_escape_round_trips_through_unescaping() {
    for v in ["100%", "a_b", "x\\y", "plain", ""] {
        let e = escape_like(v);
        let mut out = String::new();
        let mut chars = e.chars();
        while let Some(c) = chars.next() {
            if c == '\\' {
                out.push(chars.next().expect("escape is followed by a character"));
            } else {
                assert!(c != '%' && c != '_', "unescaped wildcard in {e:?}");
                out.push(c);
            }
        }
        assert_eq!(out, v);
    }
}

use llm_kernel::graph::pg::{
    numbered_placeholders, pg_edges_among_sql, pg_recall_sql, prefixed_table, PG_NODE_COLUMNS,
};
use llm_kernel::graph::search::{placeholders, recall_candidates_sql};

#[test]
fn numbered_placeholder_lists() {
    assert_eq!(numbered_placeholders(1, 3), "$1,$2,$3");
    assert_eq!(numbered_placeholders(10, 2), "$10,$11");
    assert_eq!(numbered_placeholders(4, 0), "");
}

#[test]
fn question_mark_placeholder_lists() {
    assert_eq!(placeholders(0), "");
    assert_eq!(placeholders(1), "?");
    assert_eq!(placeholders(3), "?,?,?");
}

#[test]
fn table_names_under_a_prefix() {
    assert_eq!(prefixed_table("kg_", "nodes"), "kg_nodes");
    assert_eq!(prefixed_table("", "edges"), "edges");
}

#[test]
fn pg_recall_statement_without_project() {
    let (sql, bound) = pg_recall_sql("kg_nodes", None, 5);
    assert_eq!(
        sql,
        "SELECT id, node_type, title, tags, projects, agents, created, updated, body, importance, access_count, accessed_at FROM kg_nodes WHERE (',' || tags || ',') NOT ILIKE '%,stale,%' ORDER BY importance DESC, updated DESC LIMIT 40"
    );
    assert_eq!(bound, None);
    assert!(sql.contains(PG_NODE_COLUMNS));
}

#[test]
fn pg_recall_statement_with_project() {
    let (sql, bound) = pg_recall_sql("nodes", Some("my_proj"), 20);
    assert_eq!(
        sql,
        "SELECT id, node_type, title, tags, projects, agents, created, updated, body, importance, access_count, accessed_at FROM nodes WHERE (',' || tags || ',') NOT ILIKE '%,stale,%' AND (',' || projects || ',') ILIKE ('%,' || $1 || ',%') ESCAPE '\\' ORDER BY importance DESC, updated DESC LIMIT 80"
    );
    assert_eq!(bound, Some("my\\_proj".to_string()));
}

#[test]
fn pg_edges_among_statement() {
    assert_eq!(
        pg_edges_among_sql("kg_edges", 2),
        "SELECT id, source, target, relation, weight, ts FROM kg_edges WHERE source IN ($1,$2) AND target IN ($3,$4)"
    );
}

#[test]
fn recall_candidate_statement() {
    let q = recall_candidates_sql(None, 3);
    assert_eq!(
        q.sql,
        "SELECT id, type, title, tags, projects, agents, created, updated, body, importance, access_count, accessed_at FROM nodes WHERE ',' || tags || ',' NOT LIKE '%,stale,%'\n         ORDER BY importance DESC, updated DESC\n         LIMIT 40"
    );
    assert!(q.params.is_empty());
    let q = recall_candidates_sql(Some("a%b"), 25);
    assert!(q.sql.ends_with("LIMIT 100"));
    assert!(q.sql.contains(" AND (',' || projects || ',' LIKE '%,' || ? || ',%' ESCAPE '\\')"));
    assert_eq!(q.params, vec![SqlParam::Text("a\\%b".to_string())]);
}

use llm_kernel::graph::cjk::{cjk_search_sql, CJK_TERM_CONDITION};
use llm_kernel::graph::schema::{migration_plan, schema_version_from, GRAPH_SCHEMA_VERSION, MIGRATION_V2_SQL};
use llm_kernel::graph::search::hybrid_extra;
use llm_kernel::graph::traversal::{graph_neighbors_sql, seed_count, MAX_SEED_IDS, RELATED_NODES_SQL};
use llm_kernel::graph::types::{importance_hundredths_for_type, DEFAULT_IMPORTANCE_HUNDREDTHS};
use llm_kernel::text::{contains_text, positions_not_in};

fn strings(v: &[&str]) -> Vec<String> {
    v.iter().map(|s| s.to_string()).collect()
}

#[test]
fn recorded_schema_versions() {
    assert_eq!(schema_version_from(Some("2")), 2);
    assert_eq!(schema_version_from(Some("+7")), 7);
    assert_eq!(schema_version_from(Some("4294967295")), u32::MAX);
    assert_eq!(schema_version_from(Some("4294967296")), 0);
    assert_eq!(schema_version_from(Some("two")), 0);
    assert_eq!(schema_version_from(Some("")), 0);
    assert_eq!(schema_version_from(None), 0);
}

#[test]
fn migration_plans_reach_the_current_version() {
    assert_eq!(migration_plan(0), (vec![MIGRATION_V2_SQL], GRAPH_SCHEMA_VERSION));
    assert_eq!(migration_plan(1), (vec![MIGRATION_V2_SQL], 2));
    assert_eq!(migration_plan(2), (Vec::<&str>::new(), 2));
    assert_eq!(migration_plan(9), (Vec::<&str>::new(), 9));
}

#[test]
fn neighbor_queries_cap_their_seeds() {
    assert_eq!(seed_count(3), 3);
    assert_eq!(seed_count(MAX_SEED_IDS), 100);
    assert_eq!(seed_count(250), 100);
    assert_eq!(
        graph_neighbors_sql(2),
        "SELECT target AS nb, SUM(weight) AS w FROM edges WHERE source IN (?,?) GROUP BY target UNION ALL SELECT source AS nb, SUM(weight) AS w FROM edges WHERE target IN (?,?) GROUP BY source"
    );
    assert!(RELATED_NODES_SQL.contains("WITH RECURSIVE bfs(node_id)"));
    assert!(RELATED_NODES_SQL.contains("LIMIT 500"));
}

#[test]
fn text_membership_and_filtering() {
    let seeds = strings(&["a", "b"]);
    assert!(contains_text(&seeds, "b"));
    assert!(!contains_text(&seeds, "c"));
    assert!(!contains_text(&[], "a"));
    assert_eq!(positions_not_in(&seeds, &strings(&["x", "a", "y", "b", "x"])), vec![0, 2, 4]);
    assert_eq!(positions_not_in(&seeds, &strings(&["a", "b"])), Vec::<usize>::new());
}

#[test]
fn hybrid_search_appends_unseen_cjk_hits() {
    let fts = strings(&["n1", "n2"]);
    let cjk = strings(&["n2", "n3", "n1", "n4", "n5"]);
    assert_eq!(hybrid_extra(&fts, &cjk, 4), vec![1, 3]);
    assert_eq!(hybrid_extra(&fts, &cjk, 10), vec![1, 3, 4]);
    // Full text filled the limit: the CJK pass adds nothing.
    assert_eq!(hybrid_extra(&fts, &cjk, 2), Vec::<usize>::new());
    assert_eq!(hybrid_extra(&[], &cjk, 1), vec![0]);
}

#[test]
fn cjk_search_requires_every_lowercased_term() {
    assert!(cjk_search_sql("   ", 5).is_none());
    let q = cjk_search_sql("Rust 知识_", 7).expect("two terms");
    assert_eq!(
        q.sql,
        format!(
            "SELECT id, type, title, tags, projects, agents, created, updated, body, importance, access_count, accessed_at FROM nodes WHERE {CJK_TERM_CONDITION} AND {CJK_TERM_CONDITION} ORDER BY importance DESC LIMIT ?"
        )
    );
    let rust = SqlParam::Text("%rust%".to_string());
    let cjk = SqlParam::Text("%知识\\_%".to_string());
    assert_eq!(
        q.params,
        vec![rust.clone(), rust.clone(), rust, cjk.clone(), cjk.clone(), cjk, SqlParam::Int(7)]
    );
    assert_eq!(
        CJK_TERM_CONDITION,
        "(lower(title) LIKE ? ESCAPE '\\' OR lower(body) LIKE ? ESCAPE '\\' OR lower(tags) LIKE ? ESCAPE '\\')"
    );
}

#[test]
fn importance_by_node_type() {
    assert_eq!(importance_hundredths_for_type("decision"), 90);
    assert_eq!(importance_hundredths_for_type("resolution"), 80);
    assert_eq!(importance_hundredths_for_type("psychographic"), 80);
    assert_eq!(importance_hundredths_for_type("instinct"), 70);
    assert_eq!(importance_hundredths_for_type("concept"), 70);
    assert_eq!(importance_hundredths_for_type("project"), 70);
    assert_eq!(importance_hundredths_for_type("pattern"), 50);
    assert_eq!(importance_hundredths_for_type("error"), 40);
    assert_eq!(importance_hundredths_for_type("session"), 5);
    assert_eq!(importance_hundredths_for_type("Decision"), DEFAULT_IMPORTANCE_HUNDREDTHS);
    assert_eq!(importance_hundredths_for_type(""), 50);
}

use llm_kernel::graph::pg::{pg_query_nodes_sql, pg_search_sql};

#[test]
fn pg_substring_search_statement() {
    assert!(pg_search_sql("nodes", "  ", 10).is_none());
    let (sql, patterns) = pg_search_sql("kg_nodes", "rust 50%", 10).expect("two words");
    assert_eq!(
        sql,
        "SELECT id, node_type, title, tags, projects, agents, created, updated, body, importance, access_count, accessed_at FROM kg_nodes WHERE (title || ' ' || body || ' ' || tags) ILIKE $1 ESCAPE '\\' AND (title || ' ' || body || ' ' || tags) ILIKE $2 ESCAPE '\\' ORDER BY importance DESC, updated DESC LIMIT 10"
    );
    assert_eq!(patterns, vec!["%rust%".to_string(), "%50\\%%".to_string()]);
}

#[test]
fn pg_filtered_listing_statement() {
    let (sql, values) = pg_query_nodes_sql("nodes", None, None, None, 500);
    assert_eq!(
        sql,
        "SELECT id, node_type, title, tags, projects, agents, created, updated, body, importance, access_count, accessed_at FROM nodes  ORDER BY updated DESC LIMIT 200"
    );
    assert!(values.is_empty());
    let (sql, values) = pg_query_nodes_sql("nodes", Some("a_b"), None, Some("p"), 5);
    assert!(sql.ends_with(
        "FROM nodes WHERE (',' || tags || ',') ILIKE ('%,' || $1 || ',%') ESCAPE '\\' AND (',' || projects || ',') ILIKE ('%,' || $2 || ',%') ESCAPE '\\' ORDER BY updated DESC LIMIT 5"
    ));
    assert_eq!(values, vec!["a\\_b".to_string(), "p".to_string()]);
    let (sql, values) = pg_query_nodes_sql("nodes", None, Some("decision"), None, 3);
    assert!(sql.contains(" WHERE node_type = $1 ORDER BY"));
    assert_eq!(values, vec!["decision".to_string()]);
}
