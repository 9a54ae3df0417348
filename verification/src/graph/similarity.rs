//! Neighbourhoods of the undirected view, the base of the similarity and
//! link-prediction measures.
use vstd::prelude::*;

use crate::graph::community::adjacent;
use crate::graph::csr::{
    in_list, lemma_edge_in_in_list, lemma_edge_in_out_list, lemma_in_list_from,
    lemma_out_list_from, out_list, pair_ints, CsrGraph,
};

verus! {

/// The undirected neighbours of `x`: nodes joined to it by a kept edge in
/// either direction, `x` itself excluded.
pub open spec fn neighbors(e: Seq<(int, int, int)>, x: int) -> Set<u32> {
    Set::new(|y: u32| y as int != x && adjacent(e, x, y as int))
}

fn contains_u32(v: &Vec<u32>, y: u32) -> (b: bool)
    ensures
        b == v@.contains(y),
{
    let mut i: usize = 0;
    while i < v.len()
        invariant
            i <= v.len(),
            forall|k: int| 0 <= k < i ==> v@[k] != y,
        decreases v.len() - i,
    {
        if v[i] == y {
            return true;
        }
        i += 1;
    }
    false
}

/// The undirected neighbour set of `x`, without repetitions: out-neighbours
/// first, then in-neighbours, each in edge order; self-loops excluded.
pub fn neighbor_set(g: &CsrGraph, x: u32) -> (v: Vec<u32>)
    requires
        x < g.node_ids().len(),
    ensures
        v@.no_duplicates(),
        v@.to_set() == neighbors(g.kept_edges(), x as int),
        forall|k: int| 0 <= k < v@.len() ==> (#[trigger] v@[k]) < g.node_ids().len(),
{
    let ghost e = g.kept_edges();
    let n = g.node_count();
    let outs = g.out_neighbors(x);
    let ins = g.in_neighbors(x);
    let mut v: Vec<u32> = Vec::new();
    let mut k: usize = 0;
    while k < outs.len()
        invariant
            k <= outs@.len(),
            n == g.node_ids().len(),
            e == g.kept_edges(),
            pair_ints(outs@) == out_list(e, x as int),
            forall|m: int| 0 <= m < outs@.len() ==> (#[trigger] outs@[m]).0 < n,
            v@.no_duplicates(),
            forall|t: int| 0 <= t < v@.len() ==> (#[trigger] v@[t]) < n,
            forall|y: u32| v@.contains(y) ==> neighbors(e, x as int).contains(y),
            forall|m: int|
                0 <= m < k && outs@[m].0 != x ==> v@.contains(#[trigger] outs@[m].0),
        decreases outs@.len() - k,
    {
        let c = outs[k].0;
        proof {
            assert(pair_ints(outs@)[k as int] == out_list(e, x as int)[k as int]);
            lemma_out_list_from(e, x as int);
            let kk = choose|kk: int|
                0 <= kk < e.len() && #[trigger] out_list(e, x as int)[k as int] == (e[kk].1, e[kk].2)
                    && e[kk].0 == x;
            assert(adjacent(e, x as int, c as int));
        }
        if c != x && !contains_u32(&v, c) {
            let ghost before = v@;
            v.push(c);
            proof {
                assert forall|i: int, j: int|
                    0 <= i < v@.len() && 0 <= j < v@.len() && i != j implies v@[i] != v@[j] by {
                    if i < before.len() && j < before.len() {
                        assert(v@[i] == before[i] && v@[j] == before[j]);
                    } else if i == before.len() {
                        assert(v@[j] == before[j]);
                    } else {
                        assert(v@[i] == before[i]);
                    }
                }
                assert(neighbors(e, x as int).contains(c));
                assert forall|y: u32| v@.contains(y) implies neighbors(e, x as int).contains(y) by {
                    let t = choose|t: int| 0 <= t < v@.len() && v@[t] == y;
                    if t < before.len() {
                        assert(before[t] == y);
                        assert(before.contains(y));
                    } else {
                        assert(v@[t] == c);
                    }
                }
                assert forall|m: int| 0 <= m < k + 1 && outs@[m].0 != x implies v@.contains(
                    #[trigger] outs@[m].0,
                ) by {
                    if m < k {
                        let t = choose|t: int| 0 <= t < before.len() && before[t] == outs@[m].0;
                        assert(v@[t] == before[t]);
                    } else {
                        assert(v@[before.len() as int] == c);
                    }
                }
            }
        }
        k += 1;
    }
    let mut k: usize = 0;
    while k < ins.len()
        invariant
            k <= ins@.len(),
            n == g.node_ids().len(),
            e == g.kept_edges(),
            pair_ints(outs@) == out_list(e, x as int),
            pair_ints(ins@) == in_list(e, x as int),
            forall|m: int| 0 <= m < ins@.len() ==> (#[trigger] ins@[m]).0 < n,
            v@.no_duplicates(),
            forall|t: int| 0 <= t < v@.len() ==> (#[trigger] v@[t]) < n,
            forall|y: u32| v@.contains(y) ==> neighbors(e, x as int).contains(y),
            forall|m: int|
                0 <= m < outs@.len() && outs@[m].0 != x ==> v@.contains(#[trigger] outs@[m].0),
            forall|m: int| 0 <= m < k && ins@[m].0 != x ==> v@.contains(#[trigger] ins@[m].0),
        decreases ins@.len() - k,
    {
        let c = ins[k].0;
        proof {
            assert(pair_ints(ins@)[k as int] == in_list(e, x as int)[k as int]);
            lemma_in_list_from(e, x as int);
            let kk = choose|kk: int|
                0 <= kk < e.len() && #[trigger] in_list(e, x as int)[k as int] == (e[kk].0, e[kk].2)
                    && e[kk].1 == x;
            assert(adjacent(e, x as int, c as int));
        }
        if c != x && !contains_u32(&v, c) {
            let ghost before = v@;
            v.push(c);
            proof {
                assert forall|i: int, j: int|
                    0 <= i < v@.len() && 0 <= j < v@.len() && i != j implies v@[i] != v@[j] by {
                    if i < before.len() && j < before.len() {
                        assert(v@[i] == before[i] && v@[j] == before[j]);
                    } else if i == before.len() {
                        assert(v@[j] == before[j]);
                    } else {
                        assert(v@[i] == before[i]);
                    }
                }
                assert(neighbors(e, x as int).contains(c));
                assert forall|y: u32| v@.contains(y) implies neighbors(e, x as int).contains(y) by {
                    let t = choose|t: int| 0 <= t < v@.len() && v@[t] == y;
                    if t < before.len() {
                        assert(before[t] == y);
                        assert(before.contains(y));
                    } else {
                        assert(v@[t] == c);
                    }
                }
                assert forall|m: int| 0 <= m < outs@.len() && outs@[m].0 != x implies v@.contains(
                    #[trigger] outs@[m].0,
                ) by {
                    let t = choose|t: int| 0 <= t < before.len() && before[t] == outs@[m].0;
                    assert(v@[t] == before[t]);
                }
                assert forall|m: int| 0 <= m < k + 1 && ins@[m].0 != x implies v@.contains(
                    #[trigger] ins@[m].0,
                ) by {
                    if m < k {
                        let t = choose|t: int| 0 <= t < before.len() && before[t] == ins@[m].0;
                        assert(v@[t] == before[t]);
                    } else {
                        assert(v@[before.len() as int] == c);
                    }
                }
            }
        }
        k += 1;
    }
    proof {
        assert forall|y: u32| neighbors(e, x as int).contains(y) implies v@.contains(y) by {
            let kk = choose|kk: int|
                0 <= kk < e.len() && ((#[trigger] e[kk].0 == x as int && e[kk].1 == y as int) || (
                e[kk].0 == y as int && e[kk].1 == x as int));
            if e[kk].0 == x as int && e[kk].1 == y as int {
                lemma_edge_in_out_list(e, kk);
                let m = choose|m: int|
                    0 <= m < out_list(e, e[kk].0).len() && #[trigger] out_list(e, e[kk].0)[m] == (
                    e[kk].1, e[kk].2);
                assert(pair_ints(outs@)[m] == out_list(e, x as int)[m]);
                assert(outs@[m].0 == y);
            } else {
                lemma_edge_in_in_list(e, kk);
                let m = choose|m: int|
                    0 <= m < in_list(e, e[kk].1).len() && #[trigger] in_list(e, e[kk].1)[m] == (
                    e[kk].0, e[kk].2);
                assert(pair_ints(ins@)[m] == in_list(e, x as int)[m]);
                assert(ins@[m].0 == y);
            }
        }
        assert(v@.to_set() =~= neighbors(e, x as int));
    }
    v
}

/// A list of distinct values below `n` has at most `n` entries.
proof fn lemma_distinct_below(s: Seq<u32>, n: int)
    requires
        s.no_duplicates(),
        0 <= n,
        forall|t: int| 0 <= t < s.len() ==> (#[trigger] s[t]) < n,
    ensures
        s.len() <= n,
{
    let m = s.map_values(|y: u32| y as int);
    assert(m.no_duplicates()) by {
        assert forall|i: int, j: int| 0 <= i < m.len() && 0 <= j < m.len() && i != j implies m[i] != m[j] by {
            assert(s[i] != s[j]);
        }
    }
    m.unique_seq_to_set();
    vstd::set_lib::lemma_int_range(0, n);
    assert(m.to_set().subset_of(vstd::set_lib::set_int_range(0, n))) by {
        assert forall|y: int| m.to_set().contains(y) implies vstd::set_lib::set_int_range(0, n).contains(y) by {
            let t = choose|t: int| 0 <= t < m.len() && m[t] == y;
            assert(s[t] < n);
        }
    }
    vstd::set_lib::lemma_len_subset(m.to_set(), vstd::set_lib::set_int_range(0, n));
}

/// The shared undirected neighbours of `a` and `b`, without repetitions, in
/// the order of `neighbor_set(a)`.
pub fn shared_neighbors(g: &CsrGraph, a: u32, b: u32) -> (shared: Vec<u32>)
    requires
        a < g.node_ids().len(),
        b < g.node_ids().len(),
    ensures
        shared@.no_duplicates(),
        shared@.to_set() == neighbors(g.kept_edges(), a as int).intersect(neighbors(g.kept_edges(), b as int)),
        forall|t: int| 0 <= t < shared@.len() ==> (#[trigger] shared@[t]) < g.node_ids().len(),
{
    let ghost e = g.kept_edges();
    let n = g.node_count();
    let na = neighbor_set(g, a);
    let nb = neighbor_set(g, b);
    let mut shared: Vec<u32> = Vec::new();
    let mut k: usize = 0;
    while k < na.len()
        invariant
            k <= na@.len(),
            e == g.kept_edges(),
            na@.no_duplicates(),
            na@.to_set() == neighbors(e, a as int),
            nb@.to_set() == neighbors(e, b as int),
            shared@.no_duplicates(),
            forall|y: u32| shared@.contains(y) <==> (na@.take(k as int).contains(y) && nb@.contains(y)),
        decreases na@.len() - k,
    {
        let y = na[k];
        let inb = contains_u32(&nb, y);
        let ghost before = shared@;
        let ghost tk = na@.take(k as int);
        let ghost tk1 = na@.take(k + 1);
        proof {
            assert(tk1 == tk.push(y));
            assert forall|t: int| 0 <= t < tk.len() implies tk[t] != y by {
                assert(tk[t] == na@[t]);
            }
        }
        if inb {
            shared.push(y);
            proof {
                assert forall|i: int, j: int|
                    0 <= i < shared@.len() && 0 <= j < shared@.len() && i != j implies shared@[i]
                        != shared@[j] by {
                    if i < before.len() && j < before.len() {
                        assert(shared@[i] == before[i] && shared@[j] == before[j]);
                    } else if i == before.len() {
                        assert(shared@[j] == before[j]);
                        assert(before.contains(before[j]));
                        assert(tk.contains(before[j]));
                    } else {
                        assert(shared@[i] == before[i]);
                        assert(before.contains(before[i]));
                        assert(tk.contains(before[i]));
                    }
                }
            }
        }
        proof {
            assert forall|z: u32| shared@.contains(z) <==> (tk1.contains(z) && nb@.contains(z)) by {
                if shared@.contains(z) {
                    let t = choose|t: int| 0 <= t < shared@.len() && shared@[t] == z;
                    if t < before.len() {
                        assert(before[t] == z);
                        assert(before.contains(z));
                        let u = choose|u: int| 0 <= u < tk.len() && tk[u] == z;
                        assert(tk1[u] == z);
                    } else {
                        assert(tk1[k as int] == z);
                    }
                }
                if tk1.contains(z) && nb@.contains(z) {
                    let u = choose|u: int| 0 <= u < tk1.len() && tk1[u] == z;
                    if u < k {
                        assert(tk[u] == z);
                        assert(before.contains(z));
                        let t = choose|t: int| 0 <= t < before.len() && before[t] == z;
                        assert(shared@[t] == z);
                    } else {
                        assert(z == y);
                        assert(shared@[before.len() as int] == z);
                    }
                }
            }
        }
        k += 1;
    }
    proof {
        assert(na@.take(na@.len() as int) == na@);
        assert forall|y: u32| shared@.to_set().contains(y) <==> neighbors(e, a as int).intersect(
            neighbors(e, b as int),
        ).contains(y) by {
            assert(na@.to_set().contains(y) == na@.contains(y));
            assert(nb@.to_set().contains(y) == nb@.contains(y));
        }
        assert(shared@.to_set() =~= neighbors(e, a as int).intersect(neighbors(e, b as int)));
        assert forall|t: int| 0 <= t < shared@.len() implies (#[trigger] shared@[t]) < n by {
            assert(shared@.contains(shared@[t]));
            let u = choose|u: int| 0 <= u < na@.len() && na@[u] == shared@[t];
        }
    }
    shared
}

/// Number of shared undirected neighbours, `|N(a) ∩ N(b)|`.
pub fn common_neighbors(g: &CsrGraph, a: u32, b: u32) -> (c: u32)
    requires
        a < g.node_ids().len(),
        b < g.node_ids().len(),
    ensures
        c == neighbors(g.kept_edges(), a as int).intersect(neighbors(g.kept_edges(), b as int)).len(),
{
    let n = g.node_count();
    let shared = shared_neighbors(g, a, b);
    proof {
        shared@.unique_seq_to_set();
        lemma_distinct_below(shared@, n as int);
    }
    shared.len() as u32
}


/// An unconnected pair worth predicting a link for: not neighbours, but with
/// at least one neighbour in common.
pub open spec fn link_candidate(e: Seq<(int, int, int)>, a: int, b: int) -> bool {
    &&& !neighbors(e, a).contains(b as u32)
    &&& exists|z: u32| #[trigger] neighbors(e, a).contains(z) && neighbors(e, b).contains(z)
}

/// `(a, b)` comes strictly before `(c, d)` in lexicographic order.
pub open spec fn pair_before(a: int, b: int, c: int, d: int) -> bool {
    a < c || (a == c && b < d)
}

fn intersects(x: &Vec<u32>, y: &Vec<u32>) -> (b: bool)
    ensures
        b == exists|z: u32| #[trigger] x@.contains(z) && y@.contains(z),
{
    let mut i: usize = 0;
    while i < x.len()
        invariant
            i <= x@.len(),
            forall|k: int| 0 <= k < i ==> !y@.contains(#[trigger] x@[k]),
        decreases x@.len() - i,
    {
        if contains_u32(y, x[i]) {
            assert(x@.contains(x@[i as int]));
            return true;
        }
        i += 1;
    }
    proof {
        assert forall|z: u32| !(#[trigger] x@.contains(z) && y@.contains(z)) by {
            if x@.contains(z) {
                let k = choose|k: int| 0 <= k < x@.len() && x@[k] == z;
                assert(!y@.contains(x@[k]));
            }
        }
    }
    false
}

/// The pairs `a < b` that are link candidates, in lexicographic order: the
/// pairs that link prediction scores.
pub fn link_candidates(g: &CsrGraph) -> (r: Vec<(u32, u32)>)
    ensures
        forall|k: int|
            0 <= k < r@.len() ==> {
                let p = #[trigger] r@[k];
                &&& p.0 < p.1
                &&& p.1 < g.node_ids().len()
                &&& link_candidate(g.kept_edges(), p.0 as int, p.1 as int)
            },
        forall|k: int, l: int|
            0 <= k < l < r@.len() ==> pair_before(
                (#[trigger] r@[k]).0 as int,
                r@[k].1 as int,
                (#[trigger] r@[l]).0 as int,
                r@[l].1 as int,
            ),
        forall|a: u32, b: u32|
            a < b < g.node_ids().len() && link_candidate(g.kept_edges(), a as int, b as int)
                ==> #[trigger] r@.contains((a, b)),
{
    let ghost e = g.kept_edges();
    let n = g.node_count();
    let mut sets: Vec<Vec<u32>> = Vec::new();
    let mut i: usize = 0;
    while i < n
        invariant
            i <= n,
            n == g.node_ids().len(),
            n <= u32::MAX,
            e == g.kept_edges(),
            sets@.len() == i,
            forall|j: int| 0 <= j < i ==> (#[trigger] sets@[j])@.to_set() == neighbors(e, j),
        decreases n - i,
    {
        let v = neighbor_set(g, i as u32);
        sets.push(v);
        i += 1;
    }
    let mut r: Vec<(u32, u32)> = Vec::new();
    let mut a: usize = 0;
    while a < n
        invariant
            a <= n,
            n == g.node_ids().len(),
            n <= u32::MAX,
            e == g.kept_edges(),
            sets@.len() == n,
            forall|j: int| 0 <= j < n ==> (#[trigger] sets@[j])@.to_set() == neighbors(e, j),
            forall|k: int|
                0 <= k < r@.len() ==> {
                    let p = #[trigger] r@[k];
                    &&& p.0 < p.1 < n
                    &&& p.0 < a
                    &&& link_candidate(e, p.0 as int, p.1 as int)
                },
            forall|k: int, l: int|
                0 <= k < l < r@.len() ==> pair_before(
                    (#[trigger] r@[k]).0 as int,
                    r@[k].1 as int,
                    (#[trigger] r@[l]).0 as int,
                    r@[l].1 as int,
                ),
            forall|x: u32, y: u32|
                x < y < n && x < a && link_candidate(e, x as int, y as int) ==> #[trigger] r@.contains(
                    (x, y),
                ),
        decreases n - a,
    {
        let mut b: usize = a + 1;
        while b < n
            invariant
                a < n,
                a + 1 <= b <= n,
                n == g.node_ids().len(),
                n <= u32::MAX,
                e == g.kept_edges(),
                sets@.len() == n,
                forall|j: int| 0 <= j < n ==> (#[trigger] sets@[j])@.to_set() == neighbors(e, j),
                forall|k: int|
                    0 <= k < r@.len() ==> {
                        let p = #[trigger] r@[k];
                        &&& p.0 < p.1 < n
                        &&& pair_before(p.0 as int, p.1 as int, a as int, b as int)
                        &&& link_candidate(e, p.0 as int, p.1 as int)
                    },
                forall|k: int, l: int|
                    0 <= k < l < r@.len() ==> pair_before(
                        (#[trigger] r@[k]).0 as int,
                        r@[k].1 as int,
                        (#[trigger] r@[l]).0 as int,
                        r@[l].1 as int,
                    ),
                forall|x: u32, y: u32|
                    x < y < n && pair_before(x as int, y as int, a as int, b as int) && link_candidate(
                        e,
                        x as int,
                        y as int,
                    ) ==> #[trigger] r@.contains((x, y)),
            decreases n - b,
        {
            let sa = &sets[a];
            let sb = &sets[b];
            let direct = contains_u32(sa, b as u32);
            let shared = intersects(sa, sb);
            proof {
                assert(sa@.to_set() == neighbors(e, a as int));
                assert(sb@.to_set() == neighbors(e, b as int));
                assert(direct == neighbors(e, a as int).contains(b as u32)) by {
                    assert(sa@.to_set().contains(b as u32) == sa@.contains(b as u32));
                }
                assert(shared == exists|z: u32| #[trigger] neighbors(e, a as int).contains(z)
                    && neighbors(e, b as int).contains(z)) by {
                    if shared {
                        let z = choose|z: u32| #[trigger] sa@.contains(z) && sb@.contains(z);
                        assert(sa@.to_set().contains(z) && sb@.to_set().contains(z));
                    } else {
                        assert forall|z: u32| !(#[trigger] neighbors(e, a as int).contains(z)
                            && neighbors(e, b as int).contains(z)) by {
                            assert(sa@.to_set().contains(z) == sa@.contains(z));
                            assert(sb@.to_set().contains(z) == sb@.contains(z));
                        }
                    }
                }
            }
            if !direct && shared {
                let ghost before = r@;
                r.push((a as u32, b as u32));
                proof {
                    assert forall|x: u32, y: u32|
                        x < y < n && pair_before(x as int, y as int, a as int, b + 1) && link_candidate(
                            e,
                            x as int,
                            y as int,
                        ) implies #[trigger] r@.contains((x, y)) by {
                        if x == a && y == b {
                            assert(r@[before.len() as int] == (x, y));
                        } else {
                            assert(before.contains((x, y)));
                            let k = choose|k: int| 0 <= k < before.len() && before[k] == (x, y);
                            assert(r@[k] == (x, y));
                        }
                    }
                }
            } else {
                proof {
                    assert forall|x: u32, y: u32|
                        x < y < n && pair_before(x as int, y as int, a as int, b + 1) && link_candidate(
                            e,
                            x as int,
                            y as int,
                        ) implies #[trigger] r@.contains((x, y)) by {
                        if x == a && y == b {
                            assert(!link_candidate(e, a as int, b as int));
                        }
                    }
                }
            }
            b += 1;
        }
        proof {
            assert forall|x: u32, y: u32|
                x < y < n && x < a + 1 && link_candidate(e, x as int, y as int) implies #[trigger] r@.contains(
                (x, y),
            ) by {
                assert(pair_before(x as int, y as int, a as int, n as int));
            }
        }
        a += 1;
    }
    r
}

} // verus!
