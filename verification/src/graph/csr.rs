//! Compressed Sparse Row snapshot of the directed edge set.
//!
//! Nodes are numbered in the order of their first occurrence in the node
//! list; an edge whose source or target is not a listed node is dropped. Each
//! kept edge is remembered by its position in the input edge list, which is
//! how a caller finds its weight and relation again.
use vstd::prelude::*;

use crate::text::{dedup, views};

verus! {

// ── Model ─────────────────────────────────────────────

/// The endpoints of an edge, by node id.
#[derive(Debug, Clone)]
pub struct EdgeEnds {
    /// Id of the source node.
    pub source: String,
    /// Id of the target node.
    pub target: String,
}

/// The endpoint ids of a list of edges.
pub open spec fn ends_of(edges: Seq<EdgeEnds>) -> Seq<(Seq<char>, Seq<char>)> {
    edges.map_values(|e: EdgeEnds| (e.source@, e.target@))
}

/// The first position of `id` in `ids`.
pub open spec fn index_in(ids: Seq<Seq<char>>, id: Seq<char>) -> Option<int>
    decreases ids.len(),
{
    if ids.len() == 0 {
        None
    } else {
        match index_in(ids.drop_last(), id) {
            Some(i) => Some(i),
            None => if ids.last() == id {
                Some(ids.len() - 1)
            } else {
                None
            },
        }
    }
}

/// The kept edges as `(source index, target index, input position)`, in
/// input order: those whose both endpoints are listed nodes.
pub open spec fn resolve(ids: Seq<Seq<char>>, ends: Seq<(Seq<char>, Seq<char>)>) -> Seq<
    (int, int, int),
>
    decreases ends.len(),
{
    if ends.len() == 0 {
        Seq::empty()
    } else {
        let r = resolve(ids, ends.drop_last());
        match (index_in(ids, ends.last().0), index_in(ids, ends.last().1)) {
            (Some(s), Some(t)) => r.push((s, t, ends.len() - 1)),
            _ => r,
        }
    }
}

/// The out-edges of node `i` as `(target, input position)`, in input order.
pub open spec fn out_list(edges: Seq<(int, int, int)>, i: int) -> Seq<(int, int)>
    decreases edges.len(),
{
    if edges.len() == 0 {
        Seq::empty()
    } else {
        let r = out_list(edges.drop_last(), i);
        let e = edges.last();
        if e.0 == i {
            r.push((e.1, e.2))
        } else {
            r
        }
    }
}

/// The in-edges of node `j` as `(source, input position)`, in input order.
pub open spec fn in_list(edges: Seq<(int, int, int)>, j: int) -> Seq<(int, int)>
    decreases edges.len(),
{
    if edges.len() == 0 {
        Seq::empty()
    } else {
        let r = in_list(edges.drop_last(), j);
        let e = edges.last();
        if e.1 == j {
            r.push((e.0, e.2))
        } else {
            r
        }
    }
}

/// Row `i` of a CSR array pair holds `row`: the offsets bracket it and the
/// values and positions in between are its entries.
pub open spec fn row_ok(
    offsets: Seq<usize>,
    vals: Seq<u32>,
    pos: Seq<u32>,
    row: Seq<(int, int)>,
    i: int,
) -> bool {
    &&& offsets[i + 1] == offsets[i] + row.len()
    &&& forall|m: int|
        0 <= m < row.len() ==> vals[offsets[i] + m] == (#[trigger] row[m]).0 && pos[offsets[i] + m]
            == row[m].1
}

/// The views of a list of index pairs.
pub open spec fn pair_ints(v: Seq<(u32, u32)>) -> Seq<(int, int)> {
    v.map_values(|p: (u32, u32)| (p.0 as int, p.1 as int))
}

/// The views of a list of index triples.
pub open spec fn triple_ints(v: Seq<(u32, u32, u32)>) -> Seq<(int, int, int)> {
    v.map_values(|p: (u32, u32, u32)| (p.0 as int, p.1 as int, p.2 as int))
}

// ── Lemmas ────────────────────────────────────────────

/// A found index is in range and holds the id.
pub proof fn lemma_index_in(ids: Seq<Seq<char>>, id: Seq<char>)
    ensures
        index_in(ids, id) matches Some(i) ==> 0 <= i < ids.len() && ids[i] == id,
        index_in(ids, id) is None ==> !ids.contains(id),
    decreases ids.len(),
{
    if ids.len() > 0 {
        lemma_index_in(ids.drop_last(), id);
        if index_in(ids.drop_last(), id) is None && ids.last() != id {
            assert forall|k: int| 0 <= k < ids.len() implies ids[k] != id by {
                if k < ids.len() - 1 {
                    assert(ids[k] == ids.drop_last()[k]);
                }
            }
        }
    }
}

/// The first position of an id is where it occurs with no earlier
/// occurrence.
pub proof fn lemma_index_in_first(ids: Seq<Seq<char>>, id: Seq<char>, i: int)
    requires
        0 <= i < ids.len(),
        ids[i] == id,
        forall|k: int| 0 <= k < i ==> ids[k] != id,
    ensures
        index_in(ids, id) == Some(i),
    decreases ids.len(),
{
    let d = ids.drop_last();
    if i < ids.len() - 1 {
        lemma_index_in_first(d, id, i);
    } else {
        lemma_index_in(d, id);
        if d.contains(id) {
            let k = choose|k: int| 0 <= k < d.len() && d[k] == id;
            assert(ids[k] == d[k]);
        }
    }
}

/// Removing repetitions never lengthens a list.
pub proof fn lemma_dedup_len(names: Seq<Seq<char>>)
    ensures
        dedup(names).len() <= names.len(),
    decreases names.len(),
{
    if names.len() > 0 {
        lemma_dedup_len(names.drop_last());
    }
}

/// Kept edges join listed nodes and name real input positions.
pub proof fn lemma_resolve_bounds(ids: Seq<Seq<char>>, ends: Seq<(Seq<char>, Seq<char>)>)
    ensures
        forall|k: int|
            0 <= k < resolve(ids, ends).len() ==> {
                let e = #[trigger] resolve(ids, ends)[k];
                &&& 0 <= e.0 < ids.len()
                &&& 0 <= e.1 < ids.len()
                &&& 0 <= e.2 < ends.len()
            },
        resolve(ids, ends).len() <= ends.len(),
    decreases ends.len(),
{
    if ends.len() > 0 {
        lemma_resolve_bounds(ids, ends.drop_last());
        lemma_index_in(ids, ends.last().0);
        lemma_index_in(ids, ends.last().1);
    }
}

/// Entries of a row come from the edge list.
pub proof fn lemma_out_list_from(edges: Seq<(int, int, int)>, i: int)
    ensures
        out_list(edges, i).len() <= edges.len(),
        forall|m: int|
            0 <= m < out_list(edges, i).len() ==> exists|k: int|
                0 <= k < edges.len() && #[trigger] out_list(edges, i)[m] == (edges[k].1, edges[k].2)
                    && edges[k].0 == i,
    decreases edges.len(),
{
    if edges.len() > 0 {
        let d = edges.drop_last();
        lemma_out_list_from(d, i);
        assert forall|m: int| 0 <= m < out_list(edges, i).len() implies exists|k: int|
            0 <= k < edges.len() && #[trigger] out_list(edges, i)[m] == (edges[k].1, edges[k].2)
                && edges[k].0 == i by {
            if m < out_list(d, i).len() {
                let k = choose|k: int|
                    0 <= k < d.len() && #[trigger] out_list(d, i)[m] == (d[k].1, d[k].2) && d[k].0
                        == i;
                assert(edges[k] == d[k]);
            } else {
                assert(edges[edges.len() - 1] == edges.last());
            }
        }
    }
}

/// Entries of an in-row come from the edge list.
pub proof fn lemma_in_list_from(edges: Seq<(int, int, int)>, j: int)
    ensures
        in_list(edges, j).len() <= edges.len(),
        forall|m: int|
            0 <= m < in_list(edges, j).len() ==> exists|k: int|
                0 <= k < edges.len() && #[trigger] in_list(edges, j)[m] == (edges[k].0, edges[k].2)
                    && edges[k].1 == j,
    decreases edges.len(),
{
    if edges.len() > 0 {
        let d = edges.drop_last();
        lemma_in_list_from(d, j);
        assert forall|m: int| 0 <= m < in_list(edges, j).len() implies exists|k: int|
            0 <= k < edges.len() && #[trigger] in_list(edges, j)[m] == (edges[k].0, edges[k].2)
                && edges[k].1 == j by {
            if m < in_list(d, j).len() {
                let k = choose|k: int|
                    0 <= k < d.len() && #[trigger] in_list(d, j)[m] == (d[k].0, d[k].2) && d[k].1
                        == j;
                assert(edges[k] == d[k]);
            } else {
                assert(edges[edges.len() - 1] == edges.last());
            }
        }
    }
}

/// Every edge shows up in the row of its source.
pub proof fn lemma_edge_in_out_list(edges: Seq<(int, int, int)>, k: int)
    requires
        0 <= k < edges.len(),
    ensures
        exists|m: int|
            0 <= m < out_list(edges, edges[k].0).len() && #[trigger] out_list(edges, edges[k].0)[m]
                == (edges[k].1, edges[k].2),
    decreases edges.len(),
{
    let d = edges.drop_last();
    let i = edges[k].0;
    if k == edges.len() - 1 {
        let m = out_list(d, i).len() as int;
        assert(out_list(edges, i)[m] == (edges[k].1, edges[k].2));
    } else {
        assert(d[k] == edges[k]);
        lemma_edge_in_out_list(d, k);
        let m = choose|m: int|
            0 <= m < out_list(d, i).len() && #[trigger] out_list(d, i)[m] == (d[k].1, d[k].2);
        assert(out_list(edges, i)[m] == out_list(d, i)[m]);
    }
}

/// Every edge shows up in the in-row of its target.
pub proof fn lemma_edge_in_in_list(edges: Seq<(int, int, int)>, k: int)
    requires
        0 <= k < edges.len(),
    ensures
        exists|m: int|
            0 <= m < in_list(edges, edges[k].1).len() && #[trigger] in_list(edges, edges[k].1)[m]
                == (edges[k].0, edges[k].2),
    decreases edges.len(),
{
    let d = edges.drop_last();
    let j = edges[k].1;
    if k == edges.len() - 1 {
        let m = in_list(d, j).len() as int;
        assert(in_list(edges, j)[m] == (edges[k].0, edges[k].2));
    } else {
        assert(d[k] == edges[k]);
        lemma_edge_in_in_list(d, k);
        let m = choose|m: int|
            0 <= m < in_list(d, j).len() && #[trigger] in_list(d, j)[m] == (d[k].0, d[k].2);
        assert(in_list(edges, j)[m] == in_list(d, j)[m]);
    }
}

// ── Construction steps ────────────────────────────────

fn find_id(ids: &Vec<String>, id: &String) -> (r: Option<usize>)
    ensures
        match r {
            Some(i) => index_in(views(ids@), id@) == Some(i as int),
            None => index_in(views(ids@), id@) is None,
        },
{
    let ghost v = views(ids@);
    let mut i: usize = 0;
    while i < ids.len()
        invariant
            i <= ids.len(),
            v == views(ids@),
            forall|k: int| 0 <= k < i ==> v[k] != id@,
        decreases ids.len() - i,
    {
        if ids[i] == *id {
            proof {
                lemma_index_in_first(v, id@, i as int);
            }
            return Some(i);
        }
        i += 1;
    }
    proof {
        lemma_index_in(v, id@);
        if index_in(v, id@) is Some {
            let j = index_in(v, id@)->0;
            assert(v[j] == id@);
        }
    }
    None
}

fn distinct_ids(node_ids: &[String]) -> (ids: Vec<String>)
    ensures
        views(ids@) == dedup(views(node_ids@)),
{
    let ghost all = views(node_ids@);
    let mut ids: Vec<String> = Vec::new();
    let mut k: usize = 0;
    assert(all.take(0) == Seq::<Seq<char>>::empty());
    while k < node_ids.len()
        invariant
            k <= node_ids.len(),
            all == views(node_ids@),
            views(ids@) == dedup(all.take(k as int)),
        decreases node_ids.len() - k,
    {
        let ghost t = all.take(k + 1);
        assert(t.drop_last() == all.take(k as int));
        assert(t.last() == node_ids@[k as int]@);
        let found = find_id(&ids, &node_ids[k]);
        proof {
            lemma_index_in(views(ids@), node_ids@[k as int]@);
            if found is Some {
                let j = found->0;
                assert(views(ids@)[j as int] == node_ids@[k as int]@);
            }
        }
        if found.is_none() {
            let ghost before = ids@;
            ids.push(node_ids[k].clone());
            assert(views(ids@) == views(before).push(node_ids@[k as int]@));
        }
        k += 1;
    }
    assert(all.take(node_ids.len() as int) == all);
    ids
}

fn resolve_edges(ids: &Vec<String>, edges: &[EdgeEnds]) -> (res: Vec<(u32, u32, u32)>)
    requires
        ids@.len() <= u32::MAX,
        edges@.len() <= u32::MAX,
    ensures
        triple_ints(res@) == resolve(views(ids@), ends_of(edges@)),
{
    let ghost v = views(ids@);
    let ghost ends = ends_of(edges@);
    let mut res: Vec<(u32, u32, u32)> = Vec::new();
    let mut k: usize = 0;
    assert(ends.take(0) == Seq::<(Seq<char>, Seq<char>)>::empty());
    while k < edges.len()
        invariant
            k <= edges.len(),
            edges@.len() <= u32::MAX,
            v == views(ids@),
            v.len() <= u32::MAX,
            ends == ends_of(edges@),
            triple_ints(res@) == resolve(v, ends.take(k as int)),
        decreases edges.len() - k,
    {
        let ghost t = ends.take(k + 1);
        assert(t.drop_last() == ends.take(k as int));
        assert(t.last() == (edges@[k as int].source@, edges@[k as int].target@));
        let s = find_id(ids, &edges[k].source);
        let d = find_id(ids, &edges[k].target);
        proof {
            lemma_index_in(v, edges@[k as int].source@);
            lemma_index_in(v, edges@[k as int].target@);
        }
        match (s, d) {
            (Some(s), Some(d)) => {
                let ghost before = res@;
                res.push((s as u32, d as u32, k as u32));
                assert(triple_ints(res@) == triple_ints(before).push((s as int, d as int, k as int)));
            },
            _ => {},
        }
        k += 1;
    }
    assert(ends.take(edges.len() as int) == ends);
    res
}

fn build_out_rows(res: &Vec<(u32, u32, u32)>, n: usize) -> (r: (Vec<usize>, Vec<u32>, Vec<u32>))
    ensures
        r.0@.len() == n + 1,
        r.1@.len() == r.2@.len(),
        forall|i: int| 0 <= i <= n ==> #[trigger] r.0@[i] <= r.1@.len(),
        forall|i: int| 0 <= i < n ==> #[trigger] row_ok(r.0@, r.1@, r.2@, out_list(triple_ints(res@), i), i),
{
    let ghost e = triple_ints(res@);
    let mut offsets: Vec<usize> = Vec::new();
    let mut vals: Vec<u32> = Vec::new();
    let mut pos: Vec<u32> = Vec::new();
    offsets.push(0);
    let mut i: usize = 0;
    while i < n
        invariant
            i <= n,
            e == triple_ints(res@),
            offsets@.len() == i + 1,
            vals@.len() == pos@.len(),
            offsets@[i as int] == vals@.len(),
            forall|i2: int| 0 <= i2 <= i ==> #[trigger] offsets@[i2] <= vals@.len(),
            forall|i2: int| 0 <= i2 < i ==> #[trigger] row_ok(offsets@, vals@, pos@, out_list(e, i2), i2),
        decreases n - i,
    {
        let start = vals.len();
        let ghost o0 = offsets@;
        let ghost v0 = vals@;
        let ghost p0 = pos@;
        let mut k: usize = 0;
        assert(e.take(0) == Seq::<(int, int, int)>::empty());
        while k < res.len()
            invariant
                k <= res@.len(),
                e == triple_ints(res@),
                vals@.len() == pos@.len(),
                start <= vals@.len(),
                start == v0.len(),
                v0.len() == p0.len(),
                forall|j: int| 0 <= j < start ==> vals@[j] == v0[j] && pos@[j] == p0[j],
                vals@.len() - start == out_list(e.take(k as int), i as int).len(),
                forall|m: int|
                    0 <= m < out_list(e.take(k as int), i as int).len() ==> vals@[start + m]
                        == (#[trigger] out_list(e.take(k as int), i as int)[m]).0 && pos@[start + m]
                        == out_list(e.take(k as int), i as int)[m].1,
            decreases res@.len() - k,
        {
            let x = res[k];
            let ghost t = e.take(k + 1);
            assert(t.drop_last() == e.take(k as int));
            assert(t.last() == (x.0 as int, x.1 as int, x.2 as int));
            if x.0 as usize == i {
                vals.push(x.1);
                pos.push(x.2);
            }
            k += 1;
        }
        assert(e.take(res@.len() as int) == e);
        offsets.push(vals.len());
        proof {
            assert forall|i2: int| 0 <= i2 <= i + 1 implies #[trigger] offsets@[i2] <= vals@.len() by {
                if i2 <= i {
                    assert(offsets@[i2] == o0[i2]);
                }
            }
            assert forall|i2: int| 0 <= i2 < i + 1 implies #[trigger] row_ok(
                offsets@,
                vals@,
                pos@,
                out_list(e, i2),
                i2,
            ) by {
                let row = out_list(e, i2);
                if i2 < i {
                    assert(row_ok(o0, v0, p0, row, i2));
                    assert(offsets@[i2] == o0[i2] && offsets@[i2 + 1] == o0[i2 + 1]);
                    assert(o0[i2 + 1] <= start);
                    assert forall|m: int| 0 <= m < row.len() implies vals@[offsets@[i2] + m] == (
                    #[trigger] row[m]).0 && pos@[offsets@[i2] + m] == row[m].1 by {
                        assert(vals@[o0[i2] + m] == v0[o0[i2] + m]);
                    }
                } else {
                    assert(offsets@[i2] == start);
                }
            }
        }
        i += 1;
    }
    (offsets, vals, pos)
}

fn build_in_rows(res: &Vec<(u32, u32, u32)>, n: usize) -> (r: (Vec<usize>, Vec<u32>, Vec<u32>))
    ensures
        r.0@.len() == n + 1,
        r.1@.len() == r.2@.len(),
        forall|i: int| 0 <= i <= n ==> #[trigger] r.0@[i] <= r.1@.len(),
        forall|i: int| 0 <= i < n ==> #[trigger] row_ok(r.0@, r.1@, r.2@, in_list(triple_ints(res@), i), i),
{
    let ghost e = triple_ints(res@);
    let mut offsets: Vec<usize> = Vec::new();
    let mut vals: Vec<u32> = Vec::new();
    let mut pos: Vec<u32> = Vec::new();
    offsets.push(0);
    let mut i: usize = 0;
    while i < n
        invariant
            i <= n,
            e == triple_ints(res@),
            offsets@.len() == i + 1,
            vals@.len() == pos@.len(),
            offsets@[i as int] == vals@.len(),
            forall|i2: int| 0 <= i2 <= i ==> #[trigger] offsets@[i2] <= vals@.len(),
            forall|i2: int| 0 <= i2 < i ==> #[trigger] row_ok(offsets@, vals@, pos@, in_list(e, i2), i2),
        decreases n - i,
    {
        let start = vals.len();
        let ghost o0 = offsets@;
        let ghost v0 = vals@;
        let ghost p0 = pos@;
        let mut k: usize = 0;
        assert(e.take(0) == Seq::<(int, int, int)>::empty());
        while k < res.len()
            invariant
                k <= res@.len(),
                e == triple_ints(res@),
                vals@.len() == pos@.len(),
                start <= vals@.len(),
                start == v0.len(),
                v0.len() == p0.len(),
                forall|j: int| 0 <= j < start ==> vals@[j] == v0[j] && pos@[j] == p0[j],
                vals@.len() - start == in_list(e.take(k as int), i as int).len(),
                forall|m: int|
                    0 <= m < in_list(e.take(k as int), i as int).len() ==> vals@[start + m]
                        == (#[trigger] in_list(e.take(k as int), i as int)[m]).0 && pos@[start + m]
                        == in_list(e.take(k as int), i as int)[m].1,
            decreases res@.len() - k,
        {
            let x = res[k];
            let ghost t = e.take(k + 1);
            assert(t.drop_last() == e.take(k as int));
            assert(t.last() == (x.0 as int, x.1 as int, x.2 as int));
            if x.1 as usize == i {
                vals.push(x.0);
                pos.push(x.2);
            }
            k += 1;
        }
        assert(e.take(res@.len() as int) == e);
        offsets.push(vals.len());
        proof {
            assert forall|i2: int| 0 <= i2 <= i + 1 implies #[trigger] offsets@[i2] <= vals@.len() by {
                if i2 <= i {
                    assert(offsets@[i2] == o0[i2]);
                }
            }
            assert forall|i2: int| 0 <= i2 < i + 1 implies #[trigger] row_ok(
                offsets@,
                vals@,
                pos@,
                in_list(e, i2),
                i2,
            ) by {
                let row = in_list(e, i2);
                if i2 < i {
                    assert(row_ok(o0, v0, p0, row, i2));
                    assert(offsets@[i2] == o0[i2] && offsets@[i2 + 1] == o0[i2 + 1]);
                    assert(o0[i2 + 1] <= start);
                    assert forall|m: int| 0 <= m < row.len() implies vals@[offsets@[i2] + m] == (
                    #[trigger] row[m]).0 && pos@[offsets@[i2] + m] == row[m].1 by {
                        assert(vals@[o0[i2] + m] == v0[o0[i2] + m]);
                    }
                } else {
                    assert(offsets@[i2] == start);
                }
            }
        }
        i += 1;
    }
    (offsets, vals, pos)
}

/// How many edges a snapshot of `node_count` nodes reads: 64 per node
/// (saturating), and never fewer than 2000.
pub fn csr_edge_cap(node_count: usize) -> (cap: usize)
    ensures
        cap == (if node_count * 64 > usize::MAX {
            usize::MAX as int
        } else if node_count * 64 < 2000 {
            2000
        } else {
            node_count * 64
        }),
{
    let per_node: usize = match node_count.checked_mul(64) {
        Some(v) => v,
        None => usize::MAX,
    };
    if per_node < 2000 {
        2000
    } else {
        per_node
    }
}

// ── The graph ─────────────────────────────────────────

/// A directed graph in Compressed Sparse Row form, with both the forward
/// (out-edges) and the reverse (in-edges) arrays.
pub struct CsrGraph {
    ids: Vec<String>,
    edge_count: usize,
    edges: Ghost<Seq<(int, int, int)>>,
    out_offsets: Vec<usize>,
    out_targets: Vec<u32>,
    out_pos: Vec<u32>,
    in_offsets: Vec<usize>,
    in_sources: Vec<u32>,
    in_pos: Vec<u32>,
}

impl CsrGraph {
    /// The node ids, by index.
    pub closed spec fn node_ids(&self) -> Seq<Seq<char>> {
        views(self.ids@)
    }

    /// The kept edges as `(source, target, input position)`, in input order.
    pub closed spec fn kept_edges(&self) -> Seq<(int, int, int)> {
        self.edges@
    }

    #[verifier::type_invariant]
    closed spec fn wf(&self) -> bool {
        let n = self.ids@.len();
        let e = self.edges@;
        &&& n <= u32::MAX
        &&& self.edge_count == e.len()
        &&& e.len() <= u32::MAX
        &&& forall|k: int|
            0 <= k < e.len() ==> {
                let x = #[trigger] e[k];
                &&& 0 <= x.0 < n
                &&& 0 <= x.1 < n
                &&& 0 <= x.2 <= u32::MAX
            }
        &&& self.out_offsets@.len() == n + 1
        &&& self.in_offsets@.len() == n + 1
        &&& self.out_targets@.len() == self.out_pos@.len()
        &&& self.in_sources@.len() == self.in_pos@.len()
        &&& forall|i: int| 0 <= i <= n ==> #[trigger] self.out_offsets@[i] <= self.out_targets@.len()
        &&& forall|i: int| 0 <= i <= n ==> #[trigger] self.in_offsets@[i] <= self.in_sources@.len()
        &&& forall|i: int|
            0 <= i < n ==> #[trigger] row_ok(
                self.out_offsets@,
                self.out_targets@,
                self.out_pos@,
                out_list(e, i),
                i,
            )
        &&& forall|i: int|
            0 <= i < n ==> #[trigger] row_ok(
                self.in_offsets@,
                self.in_sources@,
                self.in_pos@,
                in_list(e, i),
                i,
            )
    }

    /// Build the graph from a node-id list and an edge list.
    ///
    /// Repeated node ids collapse to their first occurrence, which fixes the
    /// numbering; edges with an endpoint outside the list are dropped.
    pub fn from_edges(node_ids: &[String], edges: &[EdgeEnds]) -> (g: CsrGraph)
        requires
            node_ids@.len() <= u32::MAX,
            edges@.len() <= u32::MAX,
        ensures
            g.node_ids() == dedup(views(node_ids@)),
            g.kept_edges() == resolve(g.node_ids(), ends_of(edges@)),
    {
        let ids = distinct_ids(node_ids);
        proof {
            lemma_dedup_len(views(node_ids@));
        }
        let res = resolve_edges(&ids, edges);
        let ghost e = triple_ints(res@);
        proof {
            lemma_resolve_bounds(views(ids@), ends_of(edges@));
        }
        let n = ids.len();
        let (out_offsets, out_targets, out_pos) = build_out_rows(&res, n);
        let (in_offsets, in_sources, in_pos) = build_in_rows(&res, n);
        let edge_count = res.len();
        CsrGraph {
            ids,
            edge_count,
            edges: Ghost(e),
            out_offsets,
            out_targets,
            out_pos,
            in_offsets,
            in_sources,
            in_pos,
        }
    }

    /// Number of nodes.
    pub fn node_count(&self) -> (n: usize)
        ensures
            n == self.node_ids().len(),
            n <= u32::MAX,
            forall|k: int|
                0 <= k < self.kept_edges().len() ==> 0 <= (#[trigger] self.kept_edges()[k]).0 < n
                    && 0 <= self.kept_edges()[k].1 < n,
    {
        proof {
            use_type_invariant(self);
        }
        self.ids.len()
    }

    /// Number of kept edges (those with an unlisted endpoint excluded).
    pub fn edge_count(&self) -> (m: usize)
        ensures
            m == self.kept_edges().len(),
    {
        proof {
            use_type_invariant(self);
        }
        self.edge_count
    }

    /// The index of a node id, or `None` if it is not a node.
    pub fn node_index(&self, id: &str) -> (r: Option<u32>)
        ensures
            match r {
                Some(i) => index_in(self.node_ids(), id@) == Some(i as int),
                None => !self.node_ids().contains(id@),
            },
    {
        proof {
            use_type_invariant(self);
        }
        let key = id.to_owned();
        let r = find_id(&self.ids, &key);
        proof {
            lemma_index_in(self.node_ids(), id@);
        }
        match r {
            Some(i) => Some(i as u32),
            None => None,
        }
    }

    /// The id of the node at `idx`.
    pub fn node_id(&self, idx: u32) -> (s: &str)
        requires
            idx < self.node_ids().len(),
        ensures
            s@ == self.node_ids()[idx as int],
    {
        self.ids[idx as usize].as_str()
    }

    /// The out-edges of `src` as `(target, input position)`, in input order.
    pub fn out_neighbors(&self, src: u32) -> (r: Vec<(u32, u32)>)
        requires
            src < self.node_ids().len(),
        ensures
            pair_ints(r@) == out_list(self.kept_edges(), src as int),
            forall|m: int| 0 <= m < r@.len() ==> (#[trigger] r@[m]).0 < self.node_ids().len(),
    {
        proof {
            use_type_invariant(self);
            lemma_out_list_from(self.edges@, src as int);
            assert(row_ok(
                self.out_offsets@,
                self.out_targets@,
                self.out_pos@,
                out_list(self.edges@, src as int),
                src as int,
            ));
        }
        let ghost row = out_list(self.edges@, src as int);
        let start = self.out_offsets[src as usize];
        let end = self.out_offsets[src as usize + 1];
        let mut r: Vec<(u32, u32)> = Vec::new();
        let mut p: usize = start;
        while p < end
            invariant
                start <= p <= end,
                end <= self.out_targets@.len(),
                self.out_targets@.len() == self.out_pos@.len(),
                end == start + row.len(),
                forall|m: int|
                    0 <= m < row.len() ==> self.out_targets@[start + m] == (#[trigger] row[m]).0
                        && self.out_pos@[start + m] == row[m].1,
                pair_ints(r@) == row.take(p - start),
            decreases end - p,
        {
            let ghost before = r@;
            r.push((self.out_targets[p], self.out_pos[p]));
            assert(row.take(p + 1 - start) == row.take(p - start).push(row[p - start]));
            assert(pair_ints(r@) == pair_ints(before).push((self.out_targets@[p as int] as int, self.out_pos@[p as int] as int)));
            p += 1;
        }
        assert(row.take(row.len() as int) == row);
        proof {
            assert forall|m: int| 0 <= m < r@.len() implies (#[trigger] r@[m]).0 < self.ids@.len() by {
                assert(pair_ints(r@)[m] == row[m]);
                let k = choose|k: int|
                    0 <= k < self.edges@.len() && #[trigger] out_list(self.edges@, src as int)[m] == (
                    self.edges@[k].1, self.edges@[k].2) && self.edges@[k].0 == src;
                assert(self.edges@[k].1 < self.ids@.len());
            }
        }
        r
    }

    /// The in-edges of `dst` as `(source, input position)`, in input order.
    pub fn in_neighbors(&self, dst: u32) -> (r: Vec<(u32, u32)>)
        requires
            dst < self.node_ids().len(),
        ensures
            pair_ints(r@) == in_list(self.kept_edges(), dst as int),
            forall|m: int| 0 <= m < r@.len() ==> (#[trigger] r@[m]).0 < self.node_ids().len(),
    {
        proof {
            use_type_invariant(self);
            lemma_in_list_from(self.edges@, dst as int);
            assert(row_ok(
                self.in_offsets@,
                self.in_sources@,
                self.in_pos@,
                in_list(self.edges@, dst as int),
                dst as int,
            ));
        }
        let ghost row = in_list(self.edges@, dst as int);
        let start = self.in_offsets[dst as usize];
        let end = self.in_offsets[dst as usize + 1];
        let mut r: Vec<(u32, u32)> = Vec::new();
        let mut p: usize = start;
        while p < end
            invariant
                start <= p <= end,
                end <= self.in_sources@.len(),
                self.in_sources@.len() == self.in_pos@.len(),
                end == start + row.len(),
                forall|m: int|
                    0 <= m < row.len() ==> self.in_sources@[start + m] == (#[trigger] row[m]).0
                        && self.in_pos@[start + m] == row[m].1,
                pair_ints(r@) == row.take(p - start),
            decreases end - p,
        {
            let ghost before = r@;
            r.push((self.in_sources[p], self.in_pos[p]));
            assert(row.take(p + 1 - start) == row.take(p - start).push(row[p - start]));
            assert(pair_ints(r@) == pair_ints(before).push((self.in_sources@[p as int] as int, self.in_pos@[p as int] as int)));
            p += 1;
        }
        assert(row.take(row.len() as int) == row);
        proof {
            assert forall|m: int| 0 <= m < r@.len() implies (#[trigger] r@[m]).0 < self.ids@.len() by {
                assert(pair_ints(r@)[m] == row[m]);
                let k = choose|k: int|
                    0 <= k < self.edges@.len() && #[trigger] in_list(self.edges@, dst as int)[m] == (
                    self.edges@[k].0, self.edges@[k].2) && self.edges@[k].1 == dst;
                assert(self.edges@[k].0 < self.ids@.len());
            }
        }
        r
    }

    /// Out-degree (number of out-edges) of `idx`.
    pub fn out_degree(&self, idx: u32) -> (d: u32)
        requires
            idx < self.node_ids().len(),
        ensures
            d == out_list(self.kept_edges(), idx as int).len(),
    {
        proof {
            use_type_invariant(self);
            assert(row_ok(
                self.out_offsets@,
                self.out_targets@,
                self.out_pos@,
                out_list(self.edges@, idx as int),
                idx as int,
            ));
            lemma_out_list_from(self.edges@, idx as int);
            assert(self.out_offsets@[idx + 1] <= self.out_targets@.len());
        }
        let d = self.out_offsets[idx as usize + 1] - self.out_offsets[idx as usize];
        proof {
            assert(out_list(self.edges@, idx as int).len() <= self.edges@.len());
        }
        d as u32
    }

    /// All node indices, `0..node_count`.
    pub fn node_indices(&self) -> (r: std::ops::Range<u32>)
        ensures
            r.start == 0,
            r.end == self.node_ids().len(),
    {
        proof {
            use_type_invariant(self);
        }
        0..(self.ids.len() as u32)
    }
}

} // verus!
