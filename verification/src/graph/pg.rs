//! Statements of the PostgreSQL backends: substring search, filtered
//! listing and recall over prefixed tables with numbered placeholders, and
//! the table-name prefix check that keeps identifier interpolation safe.
use vstd::prelude::*;

use crate::graph::lifecycle::{decimal, push_decimal};
use crate::graph::search::{recall_candidate_limit, where_clause};
use crate::graph::types::{escape_like, escape_like_spec};
use crate::text::{chars_of, join, opt_view, push_char, push_str, views, words, words_of};

verus! {

/// The `ILIKE` pattern for one search term: the escaped term between `%`s.
pub open spec fn like_pattern(term: Seq<char>) -> Seq<char> {
    seq!['%'] + escape_like_spec(term) + seq!['%']
}

/// One `ILIKE` pattern per whitespace-separated word of `query`.
pub open spec fn search_patterns_spec(query: Seq<char>) -> Seq<Seq<char>> {
    words(query).map_values(|w: Seq<char>| like_pattern(w))
}

/// ASCII letters.
pub open spec fn is_ascii_alpha(c: char) -> bool {
    ('a' <= c && c <= 'z') || ('A' <= c && c <= 'Z')
}

/// ASCII letters and digits.
pub open spec fn is_ascii_alnum(c: char) -> bool {
    is_ascii_alpha(c) || ('0' <= c && c <= '9')
}

/// An empty prefix, or one that starts with a letter or `_` and continues
/// with letters, digits and `_` only.
pub open spec fn identifier_safe(p: Seq<char>) -> bool {
    p.len() == 0 || ((p[0] == '_' || is_ascii_alpha(p[0])) && forall|i: int|
        1 <= i < p.len() ==> (#[trigger] p[i] == '_' || is_ascii_alnum(p[i])))
}

/// Build one `%term%` pattern per whitespace-separated term, with `LIKE`
/// wildcards escaped inside each term.
pub fn search_patterns(query: &str) -> (out: Vec<String>)
    ensures
        views(out@) == search_patterns_spec(query@),
{
    let terms = words_of(query);
    let ghost ws = views(terms@);
    let mut out: Vec<String> = Vec::new();
    let mut i: usize = 0;
    while i < terms.len()
        invariant
            i <= terms.len(),
            ws == views(terms@),
            ws == words(query@),
            views(out@) == ws.take(i as int).map_values(|w: Seq<char>| like_pattern(w)),
        decreases terms.len() - i,
    {
        let mut p = String::new();
        push_char(&mut p, '%');
        let e = escape_like(terms[i].as_str());
        push_str(&mut p, e.as_str());
        push_char(&mut p, '%');
        assert(ws[i as int] == terms@[i as int]@);
        assert(p@ == like_pattern(ws[i as int]));
        let ghost o0 = out@;
        out.push(p);
        assert(views(out@) == views(o0).push(p@));
        assert(ws.take(i + 1) == ws.take(i as int).push(ws[i as int]));
        assert(ws.take(i + 1).map_values(|w: Seq<char>| like_pattern(w)) == ws.take(
            i as int,
        ).map_values(|w: Seq<char>| like_pattern(w)).push(like_pattern(ws[i as int])));
        i += 1;
    }
    assert(ws.take(terms.len() as int) == ws);
    out
}

/// Validate a PostgreSQL table-name prefix: empty, or ASCII letters, digits
/// and `_` with a non-digit first character.
pub fn is_identifier_safe(prefix: &str) -> (ok: bool)
    ensures
        ok == identifier_safe(prefix@),
{
    let v = chars_of(prefix);
    if v.len() == 0 {
        return true;
    }
    let first = v[0];
    if !(first == '_' || ('a' <= first && first <= 'z') || ('A' <= first && first <= 'Z')) {
        return false;
    }
    let mut i: usize = 1;
    while i < v.len()
        invariant
            1 <= i <= v.len(),
            v@ == prefix@,
            forall|k: int| 1 <= k < i ==> (#[trigger] v@[k] == '_' || is_ascii_alnum(v@[k])),
        decreases v.len() - i,
    {
        let c = v[i];
        if !(c == '_' || ('a' <= c && c <= 'z') || ('A' <= c && c <= 'Z') || ('0' <= c && c
            <= '9')) {
            assert(!(v@[i as int] == '_' || is_ascii_alnum(v@[i as int])));
            return false;
        }
        i += 1;
    }
    true
}


// ── Statements of the PostgreSQL recall ───────────────

/// The node columns of the PostgreSQL tables, in the order rows are read.
pub const PG_NODE_COLUMNS: &'static str = "id, node_type, title, tags, projects, agents, created, updated, body, importance, access_count, accessed_at";

/// A table name under a prefix.
pub fn prefixed_table(prefix: &str, base: &str) -> (t: String)
    ensures
        t@ == prefix@ + base@,
{
    let mut t = String::new();
    push_str(&mut t, prefix);
    push_str(&mut t, base);
    t
}

/// `count` numbered placeholders `$first, $first+1, ...` joined by commas.
pub open spec fn numbered_placeholders_spec(first: nat, count: nat) -> Seq<char> {
    join(Seq::new(count, |k: int| seq!['$'] + decimal((first + k) as nat)), seq![','])
}

/// Numbered placeholders for `count` values starting at `$first`.
pub fn numbered_placeholders(first: u64, count: u64) -> (s: String)
    requires
        first + count <= u64::MAX,
    ensures
        s@ == numbered_placeholders_spec(first as nat, count as nat),
{
    let ghost all = Seq::new(count as nat, |k: int| seq!['$'] + decimal((first + k) as nat));
    let mut s = String::new();
    let mut k: u64 = 0;
    assert(all.take(0) == Seq::<Seq<char>>::empty());
    while k < count
        invariant
            k <= count,
            first + count <= u64::MAX,
            all == Seq::new(count as nat, |k: int| seq!['$'] + decimal((first + k) as nat)),
            s@ == join(all.take(k as int), seq![',']),
        decreases count - k,
    {
        let ghost t = all.take(k + 1);
        assert(t.drop_last() == all.take(k as int));
        assert(t.last() == seq!['$'] + decimal((first + k) as nat));
        let ghost s0 = s@;
        if k > 0 {
            push_char(&mut s, ',');
        }
        push_char(&mut s, '$');
        push_decimal(&mut s, first + k);
        if k > 0 {
            assert(s@ == join(t.drop_last(), seq![',']) + seq![','] + t.last());
        } else {
            assert(t == seq![t.last()]);
            assert(s@ == t.last());
        }
        k += 1;
    }
    assert(all.take(count as int) == all);
    s
}

/// The conditions of the PostgreSQL recall candidates: never stale, and in
/// the project bound to `$1` when one is given.
pub open spec fn pg_recall_conditions(with_project: bool) -> Seq<Seq<char>> {
    if with_project {
        seq![
            "(',' || tags || ',') NOT ILIKE '%,stale,%'"@,
            "(',' || projects || ',') ILIKE ('%,' || $1 || ',%') ESCAPE '\\'"@,
        ]
    } else {
        seq!["(',' || tags || ',') NOT ILIKE '%,stale,%'"@]
    }
}

/// The PostgreSQL recall candidate statement over table `nodes`.
pub open spec fn pg_recall_sql_spec(nodes: Seq<char>, with_project: bool, limit: int) -> Seq<char> {
    "SELECT "@ + PG_NODE_COLUMNS@ + " FROM "@ + nodes + " WHERE "@ + join(
        pg_recall_conditions(with_project),
        " AND "@,
    ) + " ORDER BY importance DESC, updated DESC LIMIT "@ + decimal(recall_candidate_limit(limit) as nat)
}

/// The recall candidate statement for the PostgreSQL backends, and the
/// escaped project bound to `$1` when one is given.
pub fn pg_recall_sql(nodes: &str, project: Option<&str>, limit: usize) -> (r: (String, Option<String>))
    requires
        limit <= usize::MAX / 4,
    ensures
        r.0@ == pg_recall_sql_spec(nodes@, project is Some, limit as int),
        match project {
            Some(p) => r.1 matches Some(e) && e@ == escape_like_spec(p@),
            None => r.1 is None,
        },
{
    let stale = "(',' || tags || ',') NOT ILIKE '%,stale,%'";
    let in_project = "(',' || projects || ',') ILIKE ('%,' || $1 || ',%') ESCAPE '\\'";
    let mut sql = String::new();
    push_str(&mut sql, "SELECT ");
    push_str(&mut sql, PG_NODE_COLUMNS);
    push_str(&mut sql, " FROM ");
    push_str(&mut sql, nodes);
    push_str(&mut sql, " WHERE ");
    push_str(&mut sql, stale);
    let bound = match project {
        Some(p) => {
            push_str(&mut sql, " AND ");
            push_str(&mut sql, in_project);
            Some(escape_like(p))
        },
        None => None,
    };
    proof {
        reveal_strlit(" AND ");
        let c = pg_recall_conditions(project is Some);
        if project is Some {
            assert(c.drop_last() == seq![stale@]);
            assert(join(c.drop_last(), " AND "@) == stale@);
        }
    }
    push_str(&mut sql, " ORDER BY importance DESC, updated DESC LIMIT ");
    let four = limit * 4;
    let cl: usize = if four > 40 {
        four
    } else {
        40
    };
    push_decimal(&mut sql, cl as u64);
    (sql, bound)
}

/// The statement that loads the edges among `n` candidate ids, bound twice
/// (`$1..$n` for sources, `$n+1..$2n` for targets).
pub fn pg_edges_among_sql(edges: &str, n: u64) -> (s: String)
    requires
        2 * n + 1 <= u64::MAX,
    ensures
        s@ == "SELECT id, source, target, relation, weight, ts FROM "@ + edges@ + " WHERE source IN ("@
            + numbered_placeholders_spec(1, n as nat) + ") AND target IN ("@ + numbered_placeholders_spec(
            (n + 1) as nat,
            n as nat,
        ) + ")"@,
{
    let mut s = String::new();
    push_str(&mut s, "SELECT id, source, target, relation, weight, ts FROM ");
    push_str(&mut s, edges);
    push_str(&mut s, " WHERE source IN (");
    let l1 = numbered_placeholders(1, n);
    push_str(&mut s, l1.as_str());
    push_str(&mut s, ") AND target IN (");
    let l2 = numbered_placeholders(n + 1, n);
    push_str(&mut s, l2.as_str());
    push_str(&mut s, ")");
    s
}

// ── Substring search and filtered listing ─────────────

/// The search condition bound to the `n`-th pattern.
pub open spec fn pg_search_cond(n: nat) -> Seq<char> {
    "(title || ' ' || body || ' ' || tags) ILIKE $"@ + decimal(n) + " ESCAPE '\\'"@
}

/// The substring search over table `nodes` for `k` patterns, every one of
/// which must match: most important, then most recent first.
pub open spec fn pg_search_sql_spec(nodes: Seq<char>, k: nat, limit: nat) -> Seq<char> {
    "SELECT "@ + PG_NODE_COLUMNS@ + " FROM "@ + nodes + " WHERE "@ + join(
        Seq::new(k, |i: int| pg_search_cond((i + 1) as nat)),
        " AND "@,
    ) + " ORDER BY importance DESC, updated DESC LIMIT "@ + decimal(limit)
}

/// The substring search statement for `query` over table `nodes`, with its
/// patterns bound as `$1..$k`; `None` when the query has no word.
pub fn pg_search_sql(nodes: &str, query: &str, limit: u64) -> (r: Option<(String, Vec<String>)>)
    ensures
        r is None <==> words(query@).len() == 0,
        r matches Some(q) ==> {
            &&& views(q.1@) == search_patterns_spec(query@)
            &&& q.0@ == pg_search_sql_spec(nodes@, words(query@).len(), limit as nat)
        },
{
    let patterns = search_patterns(query);
    let k = patterns.len();
    assert(views(patterns@).len() == k);
    assert(search_patterns_spec(query@).len() == words(query@).len());
    if k == 0 {
        return None;
    }
    let ghost conds = Seq::new(k as nat, |i: int| pg_search_cond((i + 1) as nat));
    let mut list = String::new();
    let mut i: usize = 0;
    proof {
        reveal_strlit(" AND ");
    }
    assert(conds.take(0) == Seq::<Seq<char>>::empty());
    while i < k
        invariant
            i <= k,
            k == patterns.len(),
            k <= usize::MAX,
            conds == Seq::new(k as nat, |i: int| pg_search_cond((i + 1) as nat)),
            list@ == join(conds.take(i as int), " AND "@),
        decreases k - i,
    {
        let ghost l0 = list@;
        if i > 0 {
            push_str(&mut list, " AND ");
        }
        push_str(&mut list, "(title || ' ' || body || ' ' || tags) ILIKE $");
        push_decimal(&mut list, (i as u64) + 1);
        push_str(&mut list, " ESCAPE '\\'");
        let ghost t = conds.take(i + 1);
        assert(t.drop_last() == conds.take(i as int));
        assert(t.last() == pg_search_cond((i + 1) as nat));
        if i > 0 {
            assert(list@ == join(t.drop_last(), " AND "@) + " AND "@ + t.last());
        } else {
            assert(t == seq![t.last()]);
        }
        i += 1;
    }
    assert(conds.take(k as int) == conds);
    let mut sql = String::new();
    push_str(&mut sql, "SELECT ");
    push_str(&mut sql, PG_NODE_COLUMNS);
    push_str(&mut sql, " FROM ");
    push_str(&mut sql, nodes);
    push_str(&mut sql, " WHERE ");
    push_str(&mut sql, list.as_str());
    push_str(&mut sql, " ORDER BY importance DESC, updated DESC LIMIT ");
    push_decimal(&mut sql, limit);
    Some((sql, patterns))
}

/// The filter condition of one kind (0: tag, 1: node type, 2: project)
/// bound to the `n`-th value.
pub open spec fn pg_filter_cond(kind: int, n: nat) -> Seq<char> {
    if kind == 0 {
        "(',' || tags || ',') ILIKE ('%,' || $"@ + decimal(n) + " || ',%') ESCAPE '\\'"@
    } else if kind == 1 {
        "node_type = $"@ + decimal(n)
    } else {
        "(',' || projects || ',') ILIKE ('%,' || $"@ + decimal(n) + " || ',%') ESCAPE '\\'"@
    }
}

/// The filters given, as `(kind, bound value)` in the order tag, node type,
/// project; tags and projects are matched as escaped list members.
pub open spec fn pg_filters(tag: Option<Seq<char>>, node_type: Option<Seq<char>>, project: Option<Seq<char>>) -> Seq<
    (int, Seq<char>),
> {
    (match tag {
        Some(t) => seq![(0int, escape_like_spec(t))],
        None => Seq::empty(),
    }) + (match node_type {
        Some(n) => seq![(1int, n)],
        None => Seq::empty(),
    }) + (match project {
        Some(p) => seq![(2int, escape_like_spec(p))],
        None => Seq::empty(),
    })
}

/// The conditions of a filter list, the `i`-th bound to `$(i+1)`.
pub open spec fn pg_filter_conds(f: Seq<(int, Seq<char>)>) -> Seq<Seq<char>> {
    Seq::new(f.len(), |i: int| pg_filter_cond(f[i].0, (i + 1) as nat))
}

/// The filtered listing over table `nodes`: most recently updated first,
/// the limit capped at 200.
pub open spec fn pg_query_nodes_sql_spec(nodes: Seq<char>, f: Seq<(int, Seq<char>)>, limit: nat) -> Seq<char> {
    "SELECT "@ + PG_NODE_COLUMNS@ + " FROM "@ + nodes + " "@ + where_clause(pg_filter_conds(f))
        + " ORDER BY updated DESC LIMIT "@ + decimal(
        if limit < 200 {
            limit
        } else {
            200
        },
    )
}

/// Append the condition of kind `kind` bound to `$n`.
fn push_filter_cond(sql: &mut String, kind: u8, n: u64)
    requires
        kind <= 2,
    ensures
        final(sql)@ == old(sql)@ + pg_filter_cond(kind as int, n as nat),
{
    if kind == 0 {
        push_str(sql, "(',' || tags || ',') ILIKE ('%,' || $");
        push_decimal(sql, n);
        push_str(sql, " || ',%') ESCAPE '\\'");
    } else if kind == 1 {
        push_str(sql, "node_type = $");
        push_decimal(sql, n);
    } else {
        push_str(sql, "(',' || projects || ',') ILIKE ('%,' || $");
        push_decimal(sql, n);
        push_str(sql, " || ',%') ESCAPE '\\'");
    }
}

/// The filtered listing statement over table `nodes` and its bound values
/// (`$1..`), in the order tag, node type, project.
pub fn pg_query_nodes_sql(
    nodes: &str,
    tag: Option<&str>,
    node_type: Option<&str>,
    project: Option<&str>,
    limit: usize,
) -> (r: (String, Vec<String>))
    ensures
        ({
            let f = pg_filters(opt_view(tag), opt_view(node_type), opt_view(project));
            &&& r.0@ == pg_query_nodes_sql_spec(nodes@, f, limit as nat)
            &&& views(r.1@) == f.map_values(|p: (int, Seq<char>)| p.1)
        }),
{
    let ghost f = pg_filters(opt_view(tag), opt_view(node_type), opt_view(project));
    let mut kinds: Vec<u8> = Vec::new();
    let mut values: Vec<String> = Vec::new();
    match tag {
        Some(t) => {
            kinds.push(0);
            values.push(escape_like(t));
        },
        None => {},
    }
    match node_type {
        Some(n) => {
            kinds.push(1);
            values.push(n.to_string());
        },
        None => {},
    }
    match project {
        Some(p) => {
            kinds.push(2);
            values.push(escape_like(p));
        },
        None => {},
    }
    assert(kinds@.len() == f.len());
    assert(forall|i: int| 0 <= i < f.len() ==> kinds@[i] as int == #[trigger] f[i].0);
    assert(views(values@) == f.map_values(|p: (int, Seq<char>)| p.1));
    let ghost conds = pg_filter_conds(f);
    let mut sql = String::new();
    push_str(&mut sql, "SELECT ");
    push_str(&mut sql, PG_NODE_COLUMNS);
    push_str(&mut sql, " FROM ");
    push_str(&mut sql, nodes);
    push_str(&mut sql, " ");
    let ghost s0 = sql@;
    if kinds.len() > 0 {
        push_str(&mut sql, "WHERE ");
        let ghost s1 = sql@;
        let mut i: usize = 0;
        proof {
            reveal_strlit(" AND ");
        }
        assert(conds.take(0) == Seq::<Seq<char>>::empty());
        while i < kinds.len()
            invariant
                i <= kinds.len(),
                kinds@.len() == f.len(),
                kinds.len() <= 3,
                forall|j: int| 0 <= j < f.len() ==> kinds@[j] as int == #[trigger] f[j].0,
                forall|j: int| 0 <= j < kinds@.len() ==> #[trigger] kinds@[j] <= 2,
                conds == pg_filter_conds(f),
                sql@ == s1 + join(conds.take(i as int), " AND "@),
            decreases kinds.len() - i,
        {
            if i > 0 {
                push_str(&mut sql, " AND ");
            }
            push_filter_cond(&mut sql, kinds[i], (i as u64) + 1);
            let ghost t = conds.take(i + 1);
            assert(t.drop_last() == conds.take(i as int));
            assert(t.last() == pg_filter_cond(f[i as int].0, (i + 1) as nat));
            if i > 0 {
                assert(sql@ == s1 + (join(t.drop_last(), " AND "@) + " AND "@ + t.last()));
            } else {
                assert(t == seq![t.last()]);
            }
            i += 1;
        }
        assert(conds.take(kinds.len() as int) == conds);
    } else {
        assert(where_clause(conds) == Seq::<char>::empty());
    }
    push_str(&mut sql, " ORDER BY updated DESC LIMIT ");
    let capped: u64 = if limit < 200 {
        limit as u64
    } else {
        200
    };
    push_decimal(&mut sql, capped);
    (sql, values)
}

} // verus!
