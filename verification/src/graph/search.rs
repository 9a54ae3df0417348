//! Statements of the node search: the FTS5 phrase literal and the SQL text
//! and bound parameters of the filtered node queries. Running them against a
//! database is left to the caller.
use vstd::prelude::*;

use crate::graph::lifecycle::{decimal, push_decimal};
use crate::graph::types::{escape_like, escape_like_spec, NODE_COLUMNS};
use crate::text::{
    chars_of, join, opt_text, opt_view, positions_not_in, positions_outside, push_char, push_str, replace_all,
    replace_chars, views,
};

verus! {

// ── FTS5 phrase ───────────────────────────────────────

/// The FTS5 phrase literal for a raw query: the text in double quotes, with
/// each `"` doubled.
pub open spec fn fts_phrase_spec(query: Seq<char>) -> Seq<char> {
    seq!['"'] + replace_all(query, seq!['"'], seq!['"', '"']) + seq!['"']
}

/// Quote a raw user string as a single FTS5 phrase literal, so that quotes,
/// `*`, `NEAR` and the like are matched as text instead of parsed as syntax.
pub fn fts_phrase(query: &str) -> (s: String)
    ensures
        s@ == fts_phrase_spec(query@),
{
    let v = chars_of(query);
    let pat: Vec<char> = vec!['"'];
    let rep: Vec<char> = vec!['"', '"'];
    assert(pat@ == seq!['"']);
    assert(rep@ == seq!['"', '"']);
    let body = replace_chars(v.as_slice(), pat.as_slice(), rep.as_slice());
    let mut s = String::new();
    push_char(&mut s, '"');
    let mut i: usize = 0;
    while i < body.len()
        invariant
            i <= body.len(),
            s@ == seq!['"'] + body@.take(i as int),
        decreases body.len() - i,
    {
        push_char(&mut s, body[i]);
        assert(body@.take(i + 1) == body@.take(i as int).push(body@[i as int]));
        i += 1;
    }
    assert(body@.take(body.len() as int) == body@);
    push_char(&mut s, '"');
    s
}

/// The text inside an FTS5 string literal: `""` stands for one `"`; `None`
/// when a lone `"` would end the literal early.
pub open spec fn fts_unquote(body: Seq<char>) -> Option<Seq<char>>
    decreases body.len(),
{
    if body.len() == 0 {
        Some(Seq::empty())
    } else if body[0] == '"' {
        if body.len() >= 2 && body[1] == '"' {
            match fts_unquote(body.skip(2)) {
                Some(r) => Some(seq!['"'] + r),
                None => None,
            }
        } else {
            None
        }
    } else {
        match fts_unquote(body.drop_first()) {
            Some(r) => Some(seq![body[0]] + r),
            None => None,
        }
    }
}

/// The phrase literal of any query is one FTS5 string whose text is the
/// query itself: quoting leaves no syntax for the user text to inject.
pub proof fn lemma_fts_phrase_literal(query: Seq<char>)
    ensures
        fts_phrase_spec(query).len() >= 2,
        fts_phrase_spec(query)[0] == '"',
        fts_phrase_spec(query).last() == '"',
        fts_unquote(fts_phrase_spec(query).subrange(1, fts_phrase_spec(query).len() - 1)) == Some(
            query,
        ),
{
    let body = replace_all(query, seq!['"'], seq!['"', '"']);
    let p = fts_phrase_spec(query);
    assert(p.subrange(1, p.len() - 1) =~= body);
    lemma_fts_body(query);
}

proof fn lemma_fts_body(q: Seq<char>)
    ensures
        fts_unquote(replace_all(q, seq!['"'], seq!['"', '"'])) == Some(q),
    decreases q.len(),
{
    let pat = seq!['"'];
    let rep = seq!['"', '"'];
    if q.len() > 0 {
        if q.take(1) == pat {
            lemma_fts_body(q.skip(1));
            let b = replace_all(q, pat, rep);
            assert(b == rep + replace_all(q.skip(1), pat, rep));
            assert(b[0] == '"' && b[1] == '"');
            assert(b.skip(2) =~= replace_all(q.skip(1), pat, rep));
            assert(q[0] == '"') by {
                assert(q.take(1)[0] == q[0]);
            }
            assert(seq!['"'] + q.skip(1) =~= q);
        } else {
            lemma_fts_body(q.drop_first());
            let b = replace_all(q, pat, rep);
            assert(b == seq![q[0]] + replace_all(q.drop_first(), pat, rep));
            assert(q[0] != '"') by {
                if q[0] == '"' {
                    assert(q.take(1) =~= pat);
                }
            }
            assert(b.drop_first() =~= replace_all(q.drop_first(), pat, rep));
            assert(seq![q[0]] + q.drop_first() =~= q);
        }
    }
}

/// The FTS5 search statement: phrase match, ranked by BM25 then importance;
/// `?1` is the phrase, `?2` the limit.
pub const SEARCH_NODES_SQL: &'static str = "SELECT id, n.type, n.title, n.tags, n.projects, n.agents, n.created, n.updated, n.body, n.importance, n.access_count, n.accessed_at
         FROM nodes n
         JOIN nodes_fts ON n.rowid = nodes_fts.rowid
         WHERE nodes_fts MATCH ?1
         ORDER BY bm25(nodes_fts), n.importance DESC
         LIMIT ?2";

// ── Ordering and query options ────────────────────────

/// Ordering of a structured node query.
#[derive(Debug, Clone, Copy, PartialEq, Eq, Structural)]
pub enum NodeOrder {
    /// `created DESC` — newest first.
    CreatedDesc,
    /// `created ASC` — oldest first (timeline reconstruction).
    CreatedAsc,
    /// `updated DESC`.
    UpdatedDesc,
    /// `importance DESC`.
    ImportanceDesc,
}

impl Default for NodeOrder {
    fn default() -> (o: Self)
        ensures
            o == NodeOrder::CreatedDesc,
    {
        NodeOrder::CreatedDesc
    }
}

/// The `ORDER BY` text of an ordering.
pub open spec fn order_text(o: NodeOrder) -> Seq<char> {
    match o {
        NodeOrder::CreatedDesc => "created DESC"@,
        NodeOrder::CreatedAsc => "created ASC"@,
        NodeOrder::UpdatedDesc => "updated DESC"@,
        NodeOrder::ImportanceDesc => "importance DESC"@,
    }
}

/// Structured node query with paging, time range and ordering.
#[derive(Debug, Clone)]
#[non_exhaustive]
pub struct NodeQuery {
    /// Tag exact-match (CSV membership test).
    pub tag: Option<String>,
    /// Node type filter.
    pub node_type: Option<String>,
    /// Project scope filter.
    pub project: Option<String>,
    /// `created >=` bound (ISO 8601).
    pub since: Option<String>,
    /// `created <` bound (ISO 8601).
    pub until: Option<String>,
    /// Result ordering.
    pub order_by: NodeOrder,
    /// Max rows, capped at 200. Defaults to 50.
    pub limit: usize,
    /// Rows to skip.
    pub offset: usize,
}

impl Default for NodeQuery {
    fn default() -> (q: Self)
        ensures
            q.tag is None,
            q.node_type is None,
            q.project is None,
            q.since is None,
            q.until is None,
            q.order_by == NodeOrder::CreatedDesc,
            q.limit == 50,
            q.offset == 0,
    {
        NodeQuery {
            tag: None,
            node_type: None,
            project: None,
            since: None,
            until: None,
            order_by: NodeOrder::default(),
            limit: 50,
            offset: 0,
        }
    }
}

impl NodeQuery {
    /// The `ORDER BY` text of this query.
    pub fn order_clause(&self) -> (s: &'static str)
        ensures
            s@ == order_text(self.order_by),
    {
        match self.order_by {
            NodeOrder::CreatedDesc => "created DESC",
            NodeOrder::CreatedAsc => "created ASC",
            NodeOrder::UpdatedDesc => "updated DESC",
            NodeOrder::ImportanceDesc => "importance DESC",
        }
    }
}

// ── Statements ────────────────────────────────────────

/// A value bound to a `?` placeholder.
#[derive(Debug, Clone, PartialEq, Eq)]
pub enum SqlParam {
    /// A text value.
    Text(String),
    /// An integer value.
    Int(i64),
}

/// What a bound value is.
pub enum ParamModel {
    /// A text value.
    Text(Seq<char>),
    /// An integer value.
    Int(int),
}

impl View for SqlParam {
    type V = ParamModel;

    open spec fn view(&self) -> ParamModel {
        match self {
            SqlParam::Text(s) => ParamModel::Text(s@),
            SqlParam::Int(i) => ParamModel::Int(*i as int),
        }
    }
}

/// A SQL statement with its bound values, in placeholder order.
#[derive(Debug, Clone)]
pub struct SqlQuery {
    /// The statement text.
    pub sql: String,
    /// The bound values.
    pub params: Vec<SqlParam>,
}

/// Condition on CSV tag membership (`?` is the LIKE-escaped tag).
pub const TAG_CONDITION: &'static str = "(',' || tags || ',' LIKE '%,' || ? || ',%' ESCAPE '\\')";

/// Condition on CSV project membership (`?` is the LIKE-escaped project).
pub const PROJECT_CONDITION: &'static str = "(',' || projects || ',' LIKE '%,' || ? || ',%' ESCAPE '\\')";

/// Condition on the node type.
pub const TYPE_CONDITION: &'static str = "type = ?";

/// Lower bound on the creation time.
pub const SINCE_CONDITION: &'static str = "created >= ?";

/// Upper bound (exclusive) on the creation time.
pub const UNTIL_CONDITION: &'static str = "created < ?";

/// One filter when its value is present: its condition and bound value.
pub open spec fn opt_filter(v: Option<Seq<char>>, cond: Seq<char>, escaped: bool) -> Seq<
    (Seq<char>, ParamModel),
> {
    match v {
        Some(x) => seq![(cond, ParamModel::Text(if escaped { escape_like_spec(x) } else { x }))],
        None => Seq::empty(),
    }
}

/// The filters of a node query, in the order their placeholders appear:
/// tag, type, project, since, until.
pub open spec fn node_filters(
    tag: Option<Seq<char>>,
    node_type: Option<Seq<char>>,
    project: Option<Seq<char>>,
    since: Option<Seq<char>>,
    until: Option<Seq<char>>,
) -> Seq<(Seq<char>, ParamModel)> {
    opt_filter(tag, TAG_CONDITION@, true) + opt_filter(node_type, TYPE_CONDITION@, false)
        + opt_filter(project, PROJECT_CONDITION@, true) + opt_filter(since, SINCE_CONDITION@, false)
        + opt_filter(until, UNTIL_CONDITION@, false)
}

/// The `WHERE` clause of a list of conditions: empty without conditions,
/// else `WHERE ` and the conditions joined by ` AND `.
pub open spec fn where_clause(conds: Seq<Seq<char>>) -> Seq<char> {
    if conds.len() == 0 {
        Seq::empty()
    } else {
        "WHERE "@ + join(conds, " AND "@)
    }
}

/// The conditions of a filter list.
pub open spec fn conditions(f: Seq<(Seq<char>, ParamModel)>) -> Seq<Seq<char>> {
    f.map_values(|p: (Seq<char>, ParamModel)| p.0)
}

/// The bound values of a filter list.
pub open spec fn bound_values(f: Seq<(Seq<char>, ParamModel)>) -> Seq<ParamModel> {
    f.map_values(|p: (Seq<char>, ParamModel)| p.1)
}

/// The statement of `query_nodes`: filtered nodes, most recently updated
/// first, limit capped at 200 and written into the text.
pub open spec fn query_nodes_sql_spec(filters: Seq<(Seq<char>, ParamModel)>, limit: nat) -> Seq<char> {
    "SELECT "@ + NODE_COLUMNS@ + " FROM nodes "@ + where_clause(conditions(filters))
        + " ORDER BY updated DESC LIMIT "@ + decimal(if limit < 200 { limit } else { 200 })
}

/// The statement of `query_nodes_ex`: filtered nodes in the requested
/// order, limit and offset bound as the last two values.
pub open spec fn query_nodes_ex_sql_spec(filters: Seq<(Seq<char>, ParamModel)>, order: NodeOrder) -> Seq<
    char,
> {
    "SELECT "@ + NODE_COLUMNS@ + " FROM nodes "@ + where_clause(conditions(filters)) + " ORDER BY "@
        + order_text(order) + " LIMIT ? OFFSET ?"@
}

fn add_filter(
    conds: &mut Vec<&'static str>,
    params: &mut Vec<SqlParam>,
    v: Option<&str>,
    cond: &'static str,
    escaped: bool,
    Ghost(f): Ghost<Seq<(Seq<char>, ParamModel)>>,
) -> (g: Ghost<Seq<(Seq<char>, ParamModel)>>)
    requires
        old(conds)@.map_values(|c: &str| c@) == conditions(f),
        old(params)@.map_values(|p: SqlParam| p@) == bound_values(f),
    ensures
        g@ == f + opt_filter(opt_view(v), cond@, escaped),
        final(conds)@.map_values(|c: &str| c@) == conditions(g@),
        final(params)@.map_values(|p: SqlParam| p@) == bound_values(g@),
{
    let ghost add = opt_filter(opt_view(v), cond@, escaped);
    match v {
        Some(x) => {
            let value = if escaped {
                escape_like(x)
            } else {
                x.to_owned()
            };
            let ghost before_c = conds@;
            let ghost before_p = params@;
            conds.push(cond);
            params.push(SqlParam::Text(value));
            assert(conds@.map_values(|c: &str| c@) == conditions(f + add)) by {
                assert(conds@ == before_c.push(cond));
                assert(conditions(f + add) == conditions(f).push(cond@));
            }
            assert(params@.map_values(|p: SqlParam| p@) == bound_values(f + add)) by {
                assert(params@ == before_p.push(SqlParam::Text(value)));
                assert(bound_values(f + add) == bound_values(f).push(add[0].1));
            }
        },
        None => {
            assert(f + add == f);
        },
    }
    Ghost(f + add)
}

pub(crate) fn push_where(sql: &mut String, conds: &Vec<&'static str>)
    ensures
        final(sql)@ == old(sql)@ + where_clause(conds@.map_values(|c: &str| c@)),
{
    let ghost list = conds@.map_values(|c: &str| c@);
    let ghost s0 = sql@;
    if conds.len() == 0 {
        assert(s0 + where_clause(list) == s0);
        return;
    }
    push_str(sql, "WHERE ");
    let ghost s1 = sql@;
    let mut i: usize = 0;
    proof {
        reveal_strlit(" AND ");
    }
    assert(list.take(0) == Seq::<Seq<char>>::empty());
    while i < conds.len()
        invariant
            i <= conds.len(),
            list == conds@.map_values(|c: &str| c@),
            sql@ == s1 + join(list.take(i as int), " AND "@),
        decreases conds.len() - i,
    {
        let ghost t = list.take(i + 1);
        assert(t.drop_last() == list.take(i as int));
        assert(t.last() == conds@[i as int]@);
        if i > 0 {
            push_str(sql, " AND ");
            push_str(sql, conds[i]);
            assert(sql@ == s1 + (join(t.drop_last(), " AND "@) + " AND "@ + t.last()));
        } else {
            push_str(sql, conds[i]);
            assert(t == seq![conds@[0]@]);
        }
        i += 1;
    }
    assert(list.take(conds.len() as int) == list);
}

/// The statement of the simple filter query: tag, type and project filters,
/// most recently updated first, at most `min(limit, 200)` rows.
pub fn query_nodes_sql(
    tag: Option<&str>,
    node_type: Option<&str>,
    project: Option<&str>,
    limit: usize,
) -> (q: SqlQuery)
    ensures
        q.sql@ == query_nodes_sql_spec(
            node_filters(opt_view(tag), opt_view(node_type), opt_view(project), None, None),
            limit as nat,
        ),
        q.params@.map_values(|p: SqlParam| p@) == bound_values(
            node_filters(opt_view(tag), opt_view(node_type), opt_view(project), None, None),
        ),
{
    let mut conds: Vec<&'static str> = Vec::new();
    let mut params: Vec<SqlParam> = Vec::new();
    let ghost f0: Seq<(Seq<char>, ParamModel)> = Seq::empty();
    assert(conds@.map_values(|c: &str| c@) == conditions(f0));
    assert(params@.map_values(|p: SqlParam| p@) == bound_values(f0));
    let Ghost(f1) = add_filter(&mut conds, &mut params, tag, TAG_CONDITION, true, Ghost(f0));
    let Ghost(f2) = add_filter(&mut conds, &mut params, node_type, TYPE_CONDITION, false, Ghost(f1));
    let Ghost(f3) = add_filter(&mut conds, &mut params, project, PROJECT_CONDITION, true, Ghost(f2));
    let ghost all = node_filters(opt_view(tag), opt_view(node_type), opt_view(project), None, None);
    assert(f3 == all) by {
        assert(opt_filter(None, SINCE_CONDITION@, false) == Seq::<(Seq<char>, ParamModel)>::empty());
        assert(opt_filter(None, UNTIL_CONDITION@, false) == Seq::<(Seq<char>, ParamModel)>::empty());
        assert(f0 + opt_filter(opt_view(tag), TAG_CONDITION@, true) == opt_filter(opt_view(tag), TAG_CONDITION@, true));
    }
    let capped: usize = if limit < 200 { limit } else { 200 };
    let mut sql = String::new();
    push_str(&mut sql, "SELECT ");
    push_str(&mut sql, NODE_COLUMNS);
    push_str(&mut sql, " FROM nodes ");
    push_where(&mut sql, &conds);
    push_str(&mut sql, " ORDER BY updated DESC LIMIT ");
    push_decimal(&mut sql, capped as u64);
    SqlQuery { sql, params }
}

/// The statement of the structured query: all five filters, the requested
/// order, and `LIMIT ? OFFSET ?` bound to `min(limit, 200)` and `offset`.
pub fn query_nodes_ex_sql(q: &NodeQuery) -> (r: SqlQuery)
    ensures
        r.sql@ == query_nodes_ex_sql_spec(
            node_filters(
                opt_text(q.tag),
                opt_text(q.node_type),
                opt_text(q.project),
                opt_text(q.since),
                opt_text(q.until),
            ),
            q.order_by,
        ),
        r.params@.map_values(|p: SqlParam| p@) == bound_values(
            node_filters(
                opt_text(q.tag),
                opt_text(q.node_type),
                opt_text(q.project),
                opt_text(q.since),
                opt_text(q.until),
            ),
        ).push(ParamModel::Int(if q.limit < 200 { q.limit as int } else { 200 })).push(
            ParamModel::Int((q.offset as i64) as int),
        ),
{
    let mut conds: Vec<&'static str> = Vec::new();
    let mut params: Vec<SqlParam> = Vec::new();
    let ghost f0: Seq<(Seq<char>, ParamModel)> = Seq::empty();
    assert(conds@.map_values(|c: &str| c@) == conditions(f0));
    assert(params@.map_values(|p: SqlParam| p@) == bound_values(f0));
    let tag: Option<&str> = match &q.tag {
        Some(s) => Some(s.as_str()),
        None => None,
    };
    let node_type: Option<&str> = match &q.node_type {
        Some(s) => Some(s.as_str()),
        None => None,
    };
    let project: Option<&str> = match &q.project {
        Some(s) => Some(s.as_str()),
        None => None,
    };
    let since: Option<&str> = match &q.since {
        Some(s) => Some(s.as_str()),
        None => None,
    };
    let until: Option<&str> = match &q.until {
        Some(s) => Some(s.as_str()),
        None => None,
    };
    let Ghost(f1) = add_filter(&mut conds, &mut params, tag, TAG_CONDITION, true, Ghost(f0));
    let Ghost(f2) = add_filter(&mut conds, &mut params, node_type, TYPE_CONDITION, false, Ghost(f1));
    let Ghost(f3) = add_filter(&mut conds, &mut params, project, PROJECT_CONDITION, true, Ghost(f2));
    let Ghost(f4) = add_filter(&mut conds, &mut params, since, SINCE_CONDITION, false, Ghost(f3));
    let Ghost(f5) = add_filter(&mut conds, &mut params, until, UNTIL_CONDITION, false, Ghost(f4));
    let ghost all = node_filters(
        opt_text(q.tag),
        opt_text(q.node_type),
        opt_text(q.project),
        opt_text(q.since),
        opt_text(q.until),
    );
    assert(f5 == all) by {
        assert(f0 + opt_filter(opt_view(tag), TAG_CONDITION@, true) == opt_filter(opt_view(tag), TAG_CONDITION@, true));
    }
    let mut sql = String::new();
    push_str(&mut sql, "SELECT ");
    push_str(&mut sql, NODE_COLUMNS);
    push_str(&mut sql, " FROM nodes ");
    push_where(&mut sql, &conds);
    push_str(&mut sql, " ORDER BY ");
    push_str(&mut sql, q.order_clause());
    push_str(&mut sql, " LIMIT ? OFFSET ?");
    let capped: usize = if q.limit < 200 { q.limit } else { 200 };
    let ghost before = params@;
    params.push(SqlParam::Int(capped as i64));
    params.push(SqlParam::Int(q.offset as i64));
    assert(params@ == before.push(SqlParam::Int(capped as i64)).push(SqlParam::Int(q.offset as i64)));
    assert(params@.map_values(|p: SqlParam| p@) == before.map_values(|p: SqlParam| p@).push(
        ParamModel::Int(capped as int),
    ).push(ParamModel::Int((q.offset as i64) as int)));
    SqlQuery { sql, params }
}


// ── Recall candidates ─────────────────────────────────

/// Condition excluding nodes tagged `stale`.
pub const NOT_STALE_CONDITION: &'static str = "',' || tags || ',' NOT LIKE '%,stale,%'";

/// How many candidates recall scores for a result of `limit` nodes.
pub open spec fn recall_candidate_limit(limit: int) -> int {
    if limit * 4 > 40 {
        limit * 4
    } else {
        40
    }
}

/// The conditions of the recall candidate query: never stale, and in the
/// project when one is given.
pub open spec fn recall_conditions(project: Option<Seq<char>>) -> Seq<Seq<char>> {
    match project {
        Some(p) => seq![NOT_STALE_CONDITION@, PROJECT_CONDITION@],
        None => seq![NOT_STALE_CONDITION@],
    }
}

/// The statement that fetches recall candidates: most important, then most
/// recently updated first, `max(4 * limit, 40)` rows.
pub open spec fn recall_candidates_sql_spec(project: Option<Seq<char>>, limit: int) -> Seq<char> {
    "SELECT "@ + NODE_COLUMNS@ + " FROM nodes "@ + where_clause(recall_conditions(project))
        + "\n         ORDER BY importance DESC, updated DESC\n         LIMIT "@ + decimal(
        recall_candidate_limit(limit) as nat,
    )
}

/// The recall candidate statement and its bound values (the escaped project,
/// when given).
pub fn recall_candidates_sql(project: Option<&str>, limit: usize) -> (q: SqlQuery)
    requires
        limit <= usize::MAX / 4,
    ensures
        q.sql@ == recall_candidates_sql_spec(opt_view(project), limit as int),
        q.params@.map_values(|p: SqlParam| p@) == match project {
            Some(p) => seq![ParamModel::Text(escape_like_spec(p@))],
            None => Seq::<ParamModel>::empty(),
        },
{
    let mut conds: Vec<&'static str> = Vec::new();
    conds.push(NOT_STALE_CONDITION);
    let mut params: Vec<SqlParam> = Vec::new();
    match project {
        Some(p) => {
            conds.push(PROJECT_CONDITION);
            let e = escape_like(p);
            params.push(SqlParam::Text(e));
        },
        None => {},
    }
    assert(conds@.map_values(|c: &str| c@) == recall_conditions(opt_view(project)));
    let four = limit * 4;
    let cl: usize = if four > 40 {
        four
    } else {
        40
    };
    let mut sql = String::new();
    push_str(&mut sql, "SELECT ");
    push_str(&mut sql, NODE_COLUMNS);
    push_str(&mut sql, " FROM nodes ");
    push_where(&mut sql, &conds);
    push_str(&mut sql, "\n         ORDER BY importance DESC, updated DESC\n         LIMIT ");
    push_decimal(&mut sql, cl as u64);
    SqlQuery { sql, params }
}


// ── Placeholder lists ─────────────────────────────────

/// `n` question marks joined by commas, the placeholders of an `IN (...)`
/// list.
pub open spec fn placeholders_spec(n: nat) -> Seq<char> {
    join(Seq::new(n, |i: int| seq!['?']), seq![','])
}

/// The placeholders of an `IN (...)` list of `n` values.
pub fn placeholders(n: usize) -> (s: String)
    ensures
        s@ == placeholders_spec(n as nat),
{
    let mut s = String::new();
    let mut i: usize = 0;
    let ghost all = Seq::new(n as nat, |i: int| seq!['?']);
    assert(all.take(0) == Seq::<Seq<char>>::empty());
    while i < n
        invariant
            i <= n,
            all == Seq::new(n as nat, |i: int| seq!['?']),
            s@ == join(all.take(i as int), seq![',']),
        decreases n - i,
    {
        let ghost t = all.take(i + 1);
        assert(t.drop_last() == all.take(i as int));
        assert(t.last() == seq!['?']);
        if i > 0 {
            push_char(&mut s, ',');
            push_char(&mut s, '?');
            assert(s@ == join(t.drop_last(), seq![',']) + seq![','] + t.last());
        } else {
            push_char(&mut s, '?');
            assert(t == seq![seq!['?']]);
            assert(s@ == seq!['?']);
        }
        i += 1;
    }
    assert(all.take(n as int) == all);
    s
}


// ── Hybrid search ─────────────────────────────────────

/// The CJK hits a hybrid search appends to the full-text hits `fts` (their
/// ids): none when full text already filled `limit`; otherwise the positions
/// of the CJK hits `cjk` whose ids full text did not return, in their order,
/// as many as fit under `limit`.
pub open spec fn hybrid_extra_spec(fts: Seq<Seq<char>>, cjk: Seq<Seq<char>>, limit: int) -> Seq<int> {
    if fts.len() >= limit {
        Seq::empty()
    } else {
        let fresh = positions_outside(fts, cjk, cjk.len() as int);
        if fresh.len() > limit - fts.len() {
            fresh.take(limit - fts.len())
        } else {
            fresh
        }
    }
}

/// Which CJK hits (positions into `cjk_ids`) follow the full-text hits
/// `fts_ids` in a hybrid search of at most `limit` results.
pub fn hybrid_extra(fts_ids: &[String], cjk_ids: &[String], limit: usize) -> (r: Vec<usize>)
    ensures
        r@.map_values(|j: usize| j as int) == hybrid_extra_spec(views(fts_ids@), views(cjk_ids@), limit as int),
        r@.len() == 0 || fts_ids@.len() + r@.len() <= limit,
        forall|k: int|
            0 <= k < r@.len() ==> #[trigger] r@[k] < cjk_ids@.len() && !views(fts_ids@).contains(
                cjk_ids@[r@[k] as int]@,
            ),
        forall|a: int, b: int| 0 <= a < b < r@.len() ==> r@[a] < r@[b],
{
    if fts_ids.len() >= limit {
        return Vec::new();
    }
    let mut fresh = positions_not_in(fts_ids, cjk_ids);
    let room = limit - fts_ids.len();
    let ghost before = fresh@;
    fresh.truncate(room);
    proof {
        assert(forall|k: int| 0 <= k < fresh@.len() ==> fresh@[k] == before[k]);
        if before.len() > room {
            assert(fresh@.map_values(|j: usize| j as int) == before.map_values(|j: usize| j as int).take(
                room as int,
            ));
        }
    }
    fresh
}

} // verus!
