//! Connected components of the graph taken as undirected, by union-find
//! with union by rank and path compression.
use vstd::prelude::*;
use vstd::set_lib::{lemma_int_range, set_int_range};

use crate::graph::csr::{lemma_edge_in_out_list, lemma_out_list_from, out_list, pair_ints, CsrGraph};

verus! {

// ── Union-find model ──────────────────────────────────

/// Follow parent links from `x` for at most `k` steps, stopping at a root.
pub open spec fn climb(p: Seq<u32>, x: int, k: nat) -> int
    decreases k,
{
    if k == 0 || p[x] as int == x {
        x
    } else {
        climb(p, p[x] as int, (k - 1) as nat)
    }
}

/// The root of `x` in the parent array `p`.
pub open spec fn root_of(p: Seq<u32>, x: int) -> int {
    climb(p, x, p.len())
}

/// A well-formed forest: parents in range, ranks strictly rising towards the
/// roots, `roots` the set of roots, and every rank at most the number of
/// unions made so far.
pub open spec fn forest_ok(p: Seq<u32>, r: Seq<u32>, roots: Set<int>) -> bool {
    let n = p.len();
    &&& r.len() == n
    &&& n <= u32::MAX
    &&& roots.finite()
    &&& (n > 0 ==> roots.len() >= 1)
    &&& forall|x: int| #[trigger] roots.contains(x) <==> (0 <= x < n && p[x] as int == x)
    &&& forall|x: int| 0 <= x < n ==> (#[trigger] p[x]) < n
    &&& forall|x: int| 0 <= x < n && #[trigger] p[x] as int != x ==> r[x] < r[p[x] as int]
    &&& forall|x: int| 0 <= x < n ==> #[trigger] r[x] + roots.len() <= n
}

proof fn lemma_climb(p: Seq<u32>, r: Seq<u32>, roots: Set<int>, x: int, k: nat)
    requires
        forest_ok(p, r, roots),
        0 <= x < p.len(),
        k >= p.len() - r[x],
    ensures
        0 <= climb(p, x, k) < p.len(),
        p[climb(p, x, k)] as int == climb(p, x, k),
        climb(p, x, k) == root_of(p, x),
        climb(p, x, k) != x ==> r[climb(p, x, k)] > r[x],
    decreases p.len() - r[x],
{
    let n = p.len();
    assert(r[x] + roots.len() <= n);
    if p[x] as int != x {
        let y = p[x] as int;
        assert(p[x] < n);
        assert(r[x] < r[y]);
        lemma_climb(p, r, roots, y, (k - 1) as nat);
        lemma_climb(p, r, roots, y, (n - 1) as nat);
    }
}

proof fn lemma_root_step(p: Seq<u32>, r: Seq<u32>, roots: Set<int>, x: int)
    requires
        forest_ok(p, r, roots),
        0 <= x < p.len(),
        p[x] as int != x,
    ensures
        root_of(p, p[x] as int) == root_of(p, x),
{
    let n = p.len();
    let y = p[x] as int;
    assert(p[x] < n);
    assert(r[x] < r[y]);
    assert(r[x] + roots.len() <= n);
    lemma_climb(p, r, roots, y, (n - 1) as nat);
}

proof fn lemma_compress_roots(p: Seq<u32>, q: Seq<u32>, r: Seq<u32>, roots: Set<int>, c: int, y: int)
    requires
        forest_ok(p, r, roots),
        forest_ok(q, r, roots),
        0 <= c < p.len(),
        p[c] as int != c,
        q == p.update(c, root_of(p, c) as u32),
        0 <= y < p.len(),
    ensures
        root_of(q, y) == root_of(p, y),
    decreases p.len() - r[y],
{
    let n = p.len();
    lemma_climb(p, r, roots, c, n);
    assert(r[y] + roots.len() <= n);
    if q[y] as int == y {
        assert(roots.contains(y));
        assert(p[y] as int == y);
        lemma_climb(q, r, roots, y, n);
        lemma_climb(p, r, roots, y, n);
    } else {
        let z = q[y] as int;
        assert(q[y] < n);
        assert(r[y] < r[z]);
        lemma_root_step(q, r, roots, y);
        lemma_compress_roots(p, q, r, roots, c, z);
        if y == c {
            lemma_climb(p, r, roots, z, n);
        } else {
            lemma_root_step(p, r, roots, y);
        }
    }
}

proof fn lemma_compress(p: Seq<u32>, r: Seq<u32>, roots: Set<int>, c: int)
    requires
        forest_ok(p, r, roots),
        0 <= c < p.len(),
        p[c] as int != c,
    ensures
        forest_ok(p.update(c, root_of(p, c) as u32), r, roots),
        forall|y: int|
            0 <= y < p.len() ==> #[trigger] root_of(p.update(c, root_of(p, c) as u32), y) == root_of(
                p,
                y,
            ),
{
    let n = p.len();
    let rt = root_of(p, c);
    let q = p.update(c, rt as u32);
    lemma_climb(p, r, roots, c, n);
    assert(forest_ok(q, r, roots)) by {
        assert forall|x: int| #[trigger] roots.contains(x) <==> (0 <= x < n && q[x] as int == x) by {
            if x == c {
                assert(!roots.contains(c));
            }
        }
        assert forall|x: int| 0 <= x < n && #[trigger] q[x] as int != x implies r[x] < r[
            q[x] as int
        ] by {
            if x != c {
                assert(p[x] == q[x]);
            }
        }
        assert forall|x: int| 0 <= x < n implies (#[trigger] q[x]) < n by {
            if x != c {
                assert(p[x] == q[x]);
            }
        }
    }
    assert forall|y: int| 0 <= y < n implies #[trigger] root_of(q, y) == root_of(p, y) by {
        lemma_compress_roots(p, q, r, roots, c, y);
    }
}

/// The union step: root `b` hangs under root `a`.
pub open spec fn merged_root(rt: int, a: int, b: int) -> int {
    if rt == b {
        a
    } else {
        rt
    }
}

proof fn lemma_union_roots(
    p: Seq<u32>,
    r: Seq<u32>,
    roots: Set<int>,
    q: Seq<u32>,
    r2: Seq<u32>,
    a: int,
    b: int,
    y: int,
)
    requires
        forest_ok(p, r, roots),
        forest_ok(q, r2, roots.remove(b)),
        roots.contains(a),
        roots.contains(b),
        a != b,
        q == p.update(b, a as u32),
        0 <= y < p.len(),
    ensures
        root_of(q, y) == merged_root(root_of(p, y), a, b),
    decreases p.len() - r2[y],
{
    let n = p.len();
    let roots2 = roots.remove(b);
    assert(r2[y] + roots2.len() <= n);
    if q[y] as int == y {
        assert(y != b);
        assert(p[y] as int == y);
        lemma_climb(q, r2, roots2, y, n);
        lemma_climb(p, r, roots, y, n);
    } else {
        let z = q[y] as int;
        assert(q[y] < n);
        assert(r2[y] < r2[z]);
        lemma_root_step(q, r2, roots2, y);
        lemma_union_roots(p, r, roots, q, r2, a, b, z);
        if y == b {
            lemma_climb(p, r, roots, a, n);
            lemma_climb(p, r, roots, b, n);
        } else {
            assert(p[y] == q[y]);
            lemma_root_step(p, r, roots, y);
        }
    }
}

proof fn lemma_union(p: Seq<u32>, r: Seq<u32>, roots: Set<int>, a: int, b: int, r2: Seq<u32>)
    requires
        forest_ok(p, r, roots),
        roots.contains(a),
        roots.contains(b),
        a != b,
        r[b] <= r[a],
        r2 == (if r[a] == r[b] {
            r.update(a, (r[a] + 1) as u32)
        } else {
            r
        }),
    ensures
        forest_ok(p.update(b, a as u32), r2, roots.remove(b)),
        forall|y: int|
            0 <= y < p.len() ==> #[trigger] root_of(p.update(b, a as u32), y) == merged_root(
                root_of(p, y),
                a,
                b,
            ),
{
    let n = p.len();
    let q = p.update(b, a as u32);
    let roots2 = roots.remove(b);
    assert(roots2.contains(a));
    assert(roots2.len() == roots.len() - 1);
    assert(r[a] + roots.len() <= n);
    assert(roots2.len() >= 1) by {
        if roots2.len() == 0 {
            roots2.lemma_len0_is_empty();
            assert(roots2.contains(a));
        }
    }
    assert(forest_ok(q, r2, roots2)) by {
        assert forall|x: int| #[trigger] roots2.contains(x) <==> (0 <= x < n && q[x] as int == x) by {
            if x != b && 0 <= x < n {
                assert(q[x] == p[x]);
            }
        }
        assert forall|x: int| 0 <= x < n implies (#[trigger] q[x]) < n by {
            if x != b {
                assert(p[x] == q[x]);
            }
        }
        assert forall|x: int| 0 <= x < n && #[trigger] q[x] as int != x implies r2[x] < r2[
            q[x] as int
        ] by {
            if x != b {
                assert(p[x] == q[x]);
                assert(x != a);
                assert(r[x] < r[p[x] as int]);
            }
        }
        assert forall|x: int| 0 <= x < n implies #[trigger] r2[x] + roots2.len() <= n by {
            assert(r[x] + roots.len() <= n);
        }
    }
    assert forall|y: int| 0 <= y < n implies #[trigger] root_of(q, y) == merged_root(
        root_of(p, y),
        a,
        b,
    ) by {
        lemma_union_roots(p, r, roots, q, r2, a, b, y);
    }
}

/// Row entries name nodes when every edge joins nodes.
proof fn lemma_rows_bounded(e: Seq<(int, int, int)>, n: int)
    requires
        forall|k: int| 0 <= k < e.len() ==> 0 <= (#[trigger] e[k]).0 < n && 0 <= e[k].1 < n,
    ensures
        forall|i: int, m: int|
            0 <= m < out_list(e, i).len() ==> 0 <= (#[trigger] out_list(e, i)[m]).0 < n,
    decreases e.len(),
{
    if e.len() > 0 {
        let d = e.drop_last();
        assert forall|k: int| 0 <= k < d.len() implies 0 <= (#[trigger] d[k]).0 < n && 0 <= d[k].1 < n by {
            assert(d[k] == e[k]);
        }
        lemma_rows_bounded(d, n);
        assert(e[e.len() - 1] == e.last());
        assert forall|i: int, m: int| 0 <= m < out_list(e, i).len() implies 0 <= (
        #[trigger] out_list(e, i)[m]).0 < n by {
            if m < out_list(d, i).len() {
                assert(out_list(e, i)[m] == out_list(d, i)[m]);
            }
        }
    }
}

// ── Connectivity ──────────────────────────────────────

/// Nodes `a` and `b` are joined by a kept edge, in either direction.
pub open spec fn adjacent(e: Seq<(int, int, int)>, a: int, b: int) -> bool {
    exists|k: int|
        0 <= k < e.len() && ((#[trigger] e[k].0 == a && e[k].1 == b) || (e[k].0 == b && e[k].1
            == a))
}

/// `w` walks from `a` to `b` along edges taken in either direction.
pub open spec fn is_walk(e: Seq<(int, int, int)>, w: Seq<int>, a: int, b: int) -> bool {
    &&& w.len() >= 1
    &&& w[0] == a
    &&& w.last() == b
    &&& forall|t: int| 0 <= t < w.len() - 1 ==> adjacent(e, #[trigger] w[t], w[t + 1])
}

/// `a` and `b` lie in the same connected component of the undirected graph.
pub open spec fn connected(e: Seq<(int, int, int)>, a: int, b: int) -> bool {
    exists|w: Seq<int>| is_walk(e, w, a, b)
}

proof fn lemma_connected_refl(e: Seq<(int, int, int)>, a: int)
    ensures
        connected(e, a, a),
{
    assert(is_walk(e, seq![a], a, a));
}

proof fn lemma_connected_edge(e: Seq<(int, int, int)>, a: int, b: int)
    requires
        adjacent(e, a, b),
    ensures
        connected(e, a, b),
{
    let w = seq![a, b];
    assert(is_walk(e, w, a, b)) by {
        assert forall|t: int| 0 <= t < w.len() - 1 implies adjacent(e, #[trigger] w[t], w[t + 1]) by {
            assert(t == 0);
        }
    }
}

proof fn lemma_connected_sym(e: Seq<(int, int, int)>, a: int, b: int)
    requires
        connected(e, a, b),
    ensures
        connected(e, b, a),
{
    let w = choose|w: Seq<int>| is_walk(e, w, a, b);
    let v = w.reverse();
    assert(is_walk(e, v, b, a)) by {
        assert forall|t: int| 0 <= t < v.len() - 1 implies adjacent(e, #[trigger] v[t], v[t + 1]) by {
            let u = w.len() - 2 - t;
            assert(v[t] == w[u + 1]);
            assert(v[t + 1] == w[u]);
            assert(adjacent(e, w[u], w[u + 1]));
            let k = choose|k: int|
                0 <= k < e.len() && ((#[trigger] e[k].0 == w[u] && e[k].1 == w[u + 1]) || (e[k].0
                    == w[u + 1] && e[k].1 == w[u]));
            assert(e[k].0 == v[t] && e[k].1 == v[t + 1] || e[k].0 == v[t + 1] && e[k].1 == v[t]);
        }
    }
}

proof fn lemma_connected_trans(e: Seq<(int, int, int)>, a: int, b: int, c: int)
    requires
        connected(e, a, b),
        connected(e, b, c),
    ensures
        connected(e, a, c),
{
    let w1 = choose|w: Seq<int>| is_walk(e, w, a, b);
    let w2 = choose|w: Seq<int>| is_walk(e, w, b, c);
    let w = w1 + w2.drop_first();
    assert(is_walk(e, w, a, c)) by {
        if w2.len() == 1 {
            assert(w == w1);
        } else {
            assert(w.last() == w2.last());
        }
        assert forall|t: int| 0 <= t < w.len() - 1 implies adjacent(e, #[trigger] w[t], w[t + 1]) by {
            if t < w1.len() - 1 {
                assert(w[t] == w1[t] && w[t + 1] == w1[t + 1]);
            } else {
                let u = t - (w1.len() - 1);
                assert(w[t] == w2[u]) by {
                    if t == w1.len() - 1 {
                        assert(w[t] == w1.last());
                    }
                }
                assert(w[t + 1] == w2[u + 1]);
                assert(adjacent(e, w2[u], w2[u + 1]));
            }
        }
    }
}

/// Every parent link stays inside a component.
pub open spec fn links_ok(p: Seq<u32>, e: Seq<(int, int, int)>) -> bool {
    forall|x: int| 0 <= x < p.len() ==> connected(e, x, #[trigger] p[x] as int)
}

proof fn lemma_linked_root(p: Seq<u32>, r: Seq<u32>, roots: Set<int>, e: Seq<(int, int, int)>, x: int)
    requires
        forest_ok(p, r, roots),
        links_ok(p, e),
        0 <= x < p.len(),
    ensures
        connected(e, x, root_of(p, x)),
    decreases p.len() - r[x],
{
    let n = p.len();
    lemma_climb(p, r, roots, x, n);
    assert(r[x] + roots.len() <= n);
    if p[x] as int == x {
        lemma_connected_refl(e, x);
    } else {
        let y = p[x] as int;
        assert(p[x] < n);
        assert(r[x] < r[y]);
        lemma_root_step(p, r, roots, x);
        lemma_linked_root(p, r, roots, e, y);
        lemma_connected_trans(e, x, y, root_of(p, x));
    }
}

// ── Executable union-find ─────────────────────────────

fn find(
    parent: &mut Vec<u32>,
    Ghost(r): Ghost<Seq<u32>>,
    Ghost(roots): Ghost<Set<int>>,
    Ghost(e): Ghost<Seq<(int, int, int)>>,
    x: u32,
) -> (root: u32)
    requires
        forest_ok(old(parent)@, r, roots),
        links_ok(old(parent)@, e),
        x < old(parent)@.len(),
    ensures
        root as int == root_of(old(parent)@, x as int),
        final(parent)@.len() == old(parent)@.len(),
        forest_ok(final(parent)@, r, roots),
        links_ok(final(parent)@, e),
        final(parent)@[x as int] == root,
        forall|y: int|
            0 <= y < old(parent)@.len() ==> #[trigger] root_of(final(parent)@, y) == root_of(
                old(parent)@,
                y,
            ),
        forall|y: int|
            0 <= y < old(parent)@.len() ==> final(parent)@[y] == old(parent)@[y]
                || final(parent)@[y] as int == root_of(old(parent)@, y),
{
    let ghost p0 = parent@;
    let ghost n = p0.len();
    let mut root = x;
    proof {
        lemma_climb(p0, r, roots, x as int, n);
    }
    while parent[root as usize] != root
        invariant
            n == p0.len(),
            x < n,
            links_ok(p0, e),
            forest_ok(p0, r, roots),
            parent@ == p0,
            root < n,
            root_of(p0, root as int) == root_of(p0, x as int),
        decreases n - r[root as int],
    {
        proof {
            lemma_root_step(p0, r, roots, root as int);
            assert(r[root as int] < r[p0[root as int] as int]);
            assert(r[p0[root as int] as int] + roots.len() <= n);
        }
        root = parent[root as usize];
    }
    proof {
        lemma_climb(p0, r, roots, root as int, n);
    }
    let mut cur = x;
    while parent[cur as usize] != root
        invariant
            n == p0.len(),
            x < n,
            links_ok(parent@, e),
            forest_ok(parent@, r, roots),
            parent@.len() == n,
            root as int == root_of(p0, x as int),
            p0[root as int] == root,
            cur < n,
            root_of(parent@, cur as int) == root as int,
            forall|y: int| 0 <= y < n ==> #[trigger] root_of(parent@, y) == root_of(p0, y),
            forall|y: int|
                0 <= y < n ==> parent@[y] == p0[y] || parent@[y] as int == root_of(p0, y),
            parent@[x as int] == p0[x as int] || parent@[x as int] == root,
            cur != x ==> parent@[x as int] == root,
        decreases n - r[cur as int],
    {
        let ghost p1 = parent@;
        proof {
            lemma_climb(p1, r, roots, cur as int, n);
            assert(p1[cur as int] as int != cur as int);
            lemma_root_step(p1, r, roots, cur as int);
            assert(r[cur as int] < r[p1[cur as int] as int]);
            assert(r[p1[cur as int] as int] + roots.len() <= n);
            lemma_compress(p1, r, roots, cur as int);
            lemma_linked_root(p1, r, roots, e, cur as int);
        }
        let next = parent[cur as usize];
        parent.set(cur as usize, root);
        proof {
            assert(parent@ == p1.update(cur as int, root_of(p1, cur as int) as u32));
            assert forall|y: int| 0 <= y < n implies connected(e, y, #[trigger] parent@[y] as int) by {
                if y != cur {
                    assert(parent@[y] == p1[y]);
                }
            }
        }
        cur = next;
    }
    proof {
        if cur == x {
            assert(parent@[x as int] == root);
        }
    }
    root
}

/// Roots that agree across every edge agree along every walk.
proof fn lemma_walk_keeps_root(e: Seq<(int, int, int)>, r: Seq<u32>, w: Seq<int>, a: int, b: int)
    requires
        is_walk(e, w, a, b),
        0 <= a < r.len(),
        forall|k: int| 0 <= k < e.len() ==> 0 <= (#[trigger] e[k]).0 < r.len() && 0 <= e[k].1 < r.len(),
        forall|k: int| 0 <= k < e.len() ==> r[(#[trigger] e[k]).0] == r[e[k].1],
    ensures
        0 <= b < r.len(),
        r[a] == r[b],
    decreases w.len(),
{
    if w.len() > 1 {
        let t = w.len() - 2;
        let w2 = w.drop_last();
        assert forall|s: int| 0 <= s < w2.len() - 1 implies adjacent(e, #[trigger] w2[s], w2[s + 1]) by {
            assert(w2[s] == w[s] && w2[s + 1] == w[s + 1]);
            assert(adjacent(e, w[s], w[s + 1]));
        }
        assert(is_walk(e, w2, a, w[t]));
        lemma_walk_keeps_root(e, r, w2, a, w[t]);
        assert(adjacent(e, w[t], w[t + 1]));
        let k = choose|k: int|
            0 <= k < e.len() && ((#[trigger] e[k].0 == w[t] && e[k].1 == w[t + 1]) || (e[k].0 == w[t + 1]
                && e[k].1 == w[t]));
        assert(r[e[k].0] == r[e[k].1]);
    }
}

/// Connected components of the graph taken as undirected.
///
/// Returns one component root per node index: every root is its own root,
/// the two ends of every kept edge share a root, and two nodes share a root
/// exactly when a walk connects them. Which member of a component serves as
/// its root follows from the union-by-rank decisions.
pub fn connected_components(g: &CsrGraph) -> (out: Vec<u32>)
    ensures
        out@.len() == g.node_ids().len(),
        forall|i: int| 0 <= i < out@.len() ==> (#[trigger] out@[i]) < out@.len() && out@[out@[i] as int] == out@[i],
        forall|k: int|
            0 <= k < g.kept_edges().len() ==> out@[(#[trigger] g.kept_edges()[k]).0] == out@[g.kept_edges()[k].1],
        forall|i: int, j: int|
            0 <= i < out@.len() && 0 <= j < out@.len() && #[trigger] out@[i] == #[trigger] out@[j]
                ==> connected(g.kept_edges(), i, j),
        forall|i: int, j: int|
            0 <= i < out@.len() && #[trigger] connected(g.kept_edges(), i, j) ==> 0 <= j < out@.len() && out@[i]
                == out@[j],
{
    let n = g.node_count();
    let ghost e = g.kept_edges();
    let mut parent: Vec<u32> = Vec::new();
    let mut rank: Vec<u32> = Vec::new();
    let mut i: usize = 0;
    while i < n
        invariant
            i <= n,
            n <= u32::MAX,
            parent@.len() == i,
            rank@.len() == i,
            forall|j: int| 0 <= j < i ==> parent@[j] as int == j && rank@[j] == 0,
        decreases n - i,
    {
        parent.push(i as u32);
        rank.push(0);
        i += 1;
    }
    let ghost mut roots = set_int_range(0, n as int);
    proof {
        lemma_rows_bounded(e, n as int);
        lemma_int_range(0, n as int);
        assert(forest_ok(parent@, rank@, roots));
        assert forall|x: int| 0 <= x < n implies connected(e, x, #[trigger] parent@[x] as int) by {
            lemma_connected_refl(e, x);
        }
    }
    let mut i: u32 = 0;
    while (i as usize) < n
        invariant
            i <= n,
            n == g.node_ids().len(),
            e == g.kept_edges(),
            parent@.len() == n,
            forest_ok(parent@, rank@, roots),
            links_ok(parent@, e),
            forall|i2: int, m: int|
                0 <= m < out_list(e, i2).len() ==> 0 <= (#[trigger] out_list(e, i2)[m]).0 < n,
            forall|i2: int, m: int|
                0 <= i2 < i && 0 <= m < out_list(e, i2).len() ==> root_of(parent@, i2) == root_of(
                    parent@,
                    (#[trigger] out_list(e, i2)[m]).0,
                ),
        decreases n - i,
    {
        let nb = g.out_neighbors(i);
        let mut k: usize = 0;
        while k < nb.len()
            invariant
                i < n,
                n == g.node_ids().len(),
                e == g.kept_edges(),
                parent@.len() == n,
                forest_ok(parent@, rank@, roots),
                links_ok(parent@, e),
            links_ok(parent@, e),
                forall|i2: int, m: int|
                    0 <= m < out_list(e, i2).len() ==> 0 <= (#[trigger] out_list(e, i2)[m]).0 < n,
                pair_ints(nb@) == out_list(e, i as int),
                forall|m: int| 0 <= m < nb@.len() ==> (#[trigger] nb@[m]).0 < n,
                k <= nb@.len(),
                forall|i2: int, m: int|
                    0 <= i2 < i && 0 <= m < out_list(e, i2).len() ==> root_of(parent@, i2)
                        == root_of(parent@, (#[trigger] out_list(e, i2)[m]).0),
                forall|m: int|
                    0 <= m < k ==> root_of(parent@, i as int) == root_of(
                        parent@,
                        (#[trigger] out_list(e, i as int)[m]).0,
                    ),
            decreases nb@.len() - k,
        {
            let j = nb[k].0;
            assert(pair_ints(nb@)[k as int] == out_list(e, i as int)[k as int]);
            let ghost p0 = parent@;
            let ri = find(&mut parent, Ghost(rank@), Ghost(roots), Ghost(e), i);
            let rj = find(&mut parent, Ghost(rank@), Ghost(roots), Ghost(e), j);
            let ghost p1 = parent@;
            proof {
                lemma_climb(p0, rank@, roots, i as int, n as nat);
                lemma_climb(p0, rank@, roots, j as int, n as nat);
            }
            if ri != rj {
                let ghost r0 = rank@;
                let (a, b) = if rank[ri as usize] < rank[rj as usize] {
                    (rj, ri)
                } else {
                    (ri, rj)
                };
                let eq = rank[ri as usize] == rank[rj as usize];
                proof {
                    lemma_climb(p1, r0, roots, ri as int, n as nat);
                    lemma_climb(p1, r0, roots, rj as int, n as nat);
                    assert(roots.contains(a as int) && roots.contains(b as int));
                    assert(r0[a as int] + roots.len() <= n);
                }
                parent.set(b as usize, a);
                if eq {
                    let ra = rank[a as usize];
                    rank.set(a as usize, ra + 1);
                }
                proof {
                    lemma_union(p1, r0, roots, a as int, b as int, rank@);
                    lemma_out_list_from(e, i as int);
                    let kk = choose|kk: int|
                        0 <= kk < e.len() && #[trigger] out_list(e, i as int)[k as int] == (e[kk].1, e[kk].2)
                            && e[kk].0 == i;
                    assert(adjacent(e, i as int, j as int));
                    lemma_connected_edge(e, i as int, j as int);
                    lemma_linked_root(p1, r0, roots, e, i as int);
                    lemma_linked_root(p1, r0, roots, e, j as int);
                    lemma_connected_sym(e, i as int, ri as int);
                    lemma_connected_trans(e, ri as int, i as int, j as int);
                    lemma_connected_trans(e, ri as int, j as int, rj as int);
                    lemma_connected_sym(e, ri as int, rj as int);
                    assert(connected(e, b as int, a as int));
                    assert forall|y: int| 0 <= y < n implies connected(e, y, #[trigger] parent@[y] as int) by {
                        if y != b {
                            assert(parent@[y] == p1[y]);
                        }
                    }
                    roots = roots.remove(b as int);
                }
            }
            k += 1;
        }
        i += 1;
    }
    let mut i: usize = 0;
    while i < n
        invariant
            i <= n,
            n == g.node_ids().len(),
            e == g.kept_edges(),
            parent@.len() == n,
            forest_ok(parent@, rank@, roots),
            links_ok(parent@, e),
            forall|i2: int, m: int|
                0 <= m < out_list(e, i2).len() ==> 0 <= (#[trigger] out_list(e, i2)[m]).0 < n,
            forall|i2: int, m: int|
                0 <= i2 < n && 0 <= m < out_list(e, i2).len() ==> root_of(parent@, i2) == root_of(
                    parent@,
                    (#[trigger] out_list(e, i2)[m]).0,
                ),
            forall|i2: int| 0 <= i2 < i ==> #[trigger] parent@[i2] as int == root_of(parent@, i2),
        decreases n - i,
    {
        let _ = find(&mut parent, Ghost(rank@), Ghost(roots), Ghost(e), i as u32);
        i += 1;
    }
    proof {
        assert forall|x: int| 0 <= x < n implies (#[trigger] parent@[x]) < n && parent@[parent@[x] as int]
            == parent@[x] by {
            lemma_climb(parent@, rank@, roots, x, n as nat);
        }
        assert forall|a: int, b: int|
            0 <= a < n && 0 <= b < n && #[trigger] parent@[a] == #[trigger] parent@[b] implies connected(e, a, b) by {
            lemma_connected_sym(e, b, parent@[b] as int);
            lemma_connected_trans(e, a, parent@[a] as int, b);
        }
        assert forall|k: int| 0 <= k < e.len() implies parent@[(#[trigger] e[k]).0] == parent@[e[k].1] by {
            lemma_edge_in_out_list(e, k);
            let m = choose|m: int|
                0 <= m < out_list(e, e[k].0).len() && #[trigger] out_list(e, e[k].0)[m] == (e[k].1, e[k].2);
            assert(root_of(parent@, e[k].0) == root_of(parent@, out_list(e, e[k].0)[m].0));
        }
        assert forall|a: int, b: int| 0 <= a < n && #[trigger] connected(e, a, b) implies 0 <= b < n
            && parent@[a] == parent@[b] by {
            let w = choose|w: Seq<int>| is_walk(e, w, a, b);
            lemma_walk_keeps_root(e, parent@, w, a, b);
        }
    }
    parent
}

} // verus!
