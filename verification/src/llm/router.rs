//! Routing for multi-backend clients: the order in which backends are tried
//! is a stable sort of their indices by a per-backend key (priority, or a
//! cost rank), and a request falls through that order until one succeeds.
use vstd::prelude::*;

use crate::error::KernelError;

verus! {

/// How a router orders and falls through its backends.
#[derive(Debug, Clone, Copy, PartialEq, Eq, Structural)]
pub enum RoutingStrategy {
    /// Try backends in ascending `priority` order; on error fall through.
    /// Ties keep insertion order.
    Fallback,
    /// Try backends in ascending cost order; on error fall through to the next
    /// cheapest. Backends with unknown (or non-finite) cost sort last.
    LowestCost,
}

impl Default for RoutingStrategy {
    fn default() -> (s: RoutingStrategy)
        ensures
            s == RoutingStrategy::Fallback,
    {
        RoutingStrategy::Fallback
    }
}

/// `i` comes before `j` when its key is smaller, or the keys tie and `i` was
/// inserted first.
pub open spec fn before(keys: Seq<u64>, i: int, j: int) -> bool {
    keys[i] < keys[j] || (keys[i] == keys[j] && i < j)
}

/// `order` lists every index of `keys` exactly once, sorted by key with ties
/// in insertion order.
pub open spec fn stable_order(keys: Seq<u64>, order: Seq<usize>) -> bool {
    &&& order.len() == keys.len()
    &&& forall|k: int| 0 <= k < order.len() ==> #[trigger] order[k] < keys.len()
    &&& forall|a: int, b: int|
        0 <= a < b < order.len() ==> before(keys, #[trigger] order[a] as int, #[trigger] order[b] as int)
}

/// The try-order of backends whose sort keys are `keys`: indices sorted by
/// key, ties keeping insertion order.
pub fn compute_order(keys: &[u64]) -> (order: Vec<usize>)
    ensures
        stable_order(keys@, order@),
{
    let mut order: Vec<usize> = Vec::new();
    let mut n: usize = 0;
    while n < keys.len()
        invariant
            n <= keys.len(),
            order@.len() == n,
            forall|k: int| 0 <= k < order@.len() ==> #[trigger] order@[k] < n,
            forall|a: int, b: int|
                0 <= a < b < order@.len() ==> before(keys@, #[trigger] order@[a] as int, #[trigger] order@[b] as int),
        decreases keys.len() - n,
    {
        // Insert index n after every element whose key is not larger.
        let mut pos: usize = order.len();
        while pos > 0 && keys[n] < keys[order[pos - 1]]
            invariant
                pos <= order@.len(),
                order@.len() == n,
                n < keys@.len(),
                forall|k: int| pos <= k < order@.len() ==> keys@[n as int] < keys@[#[trigger] order@[k] as int],
                forall|k: int| 0 <= k < order@.len() ==> #[trigger] order@[k] < n,
            decreases pos,
        {
            pos -= 1;
        }
        let ghost o0 = order@;
        proof {
            assert forall|k: int| 0 <= k < pos implies before(keys@, #[trigger] o0[k] as int, n as int) by {
                if k < pos - 1 {
                    assert(before(keys@, o0[k] as int, o0[pos - 1] as int));
                }
            }
        }
        order.insert(pos, n);
        proof {
            let o1 = order@;
            assert(o1 == o0.insert(pos as int, n));
            assert forall|k: int| 0 <= k < o1.len() implies #[trigger] o1[k] < n + 1 by {
                if k < pos {
                    assert(o1[k] == o0[k]);
                } else if k > pos {
                    assert(o1[k] == o0[k - 1]);
                }
            }
            assert forall|a: int, b: int| 0 <= a < b < o1.len() implies before(keys@, #[trigger] o1[a] as int, #[trigger] o1[b] as int) by {
                if b < pos {
                    assert(o1[a] == o0[a] && o1[b] == o0[b]);
                } else if b == pos {
                    assert(o1[a] == o0[a]);
                } else if a < pos {
                    assert(o1[a] == o0[a] && o1[b] == o0[b - 1]);
                    assert(before(keys@, o0[a] as int, n as int));
                    assert(keys@[n as int] < keys@[o0[b - 1] as int]);
                } else if a == pos {
                    assert(o1[b] == o0[b - 1]);
                } else {
                    assert(o1[a] == o0[a - 1] && o1[b] == o0[b - 1]);
                }
            }
        }
        n += 1;
    }
    order
}

/// The try-order of a router over backends whose sort keys are `keys`; a
/// router needs at least one backend.
pub fn router_order(keys: &[u64]) -> (r: Result<Vec<usize>, KernelError>)
    ensures
        keys@.len() == 0 <==> r is Err,
        r matches Err(e) ==> (e matches KernelError::Config(m) && m@ == "RouterClient requires at least one backend"@),
        r matches Ok(order) ==> stable_order(keys@, order@),
{
    if keys.len() == 0 {
        return Err(KernelError::Config("RouterClient requires at least one backend".to_string()));
    }
    Ok(compute_order(keys))
}

/// The position of the first success among `attempts`, if any.
pub open spec fn first_success<T>(attempts: Seq<Result<T, KernelError>>) -> Option<int>
    decreases attempts.len(),
{
    if attempts.len() == 0 {
        None
    } else if attempts[0] is Ok {
        Some(0)
    } else {
        match first_success(attempts.drop_first()) {
            Some(j) => Some(j + 1),
            None => None,
        }
    }
}

/// What a fallback run answers, given the outcomes of the backends it tried,
/// in try order: the first success; when every backend failed, the last
/// error; a configuration error when none was tried.
pub fn fallback_result<T>(attempts: Vec<Result<T, KernelError>>) -> (r: Result<T, KernelError>)
    ensures
        first_success(attempts@) matches Some(j) ==> r == attempts@[j],
        first_success(attempts@) is None && attempts@.len() > 0 ==> r == attempts@.last(),
        attempts@.len() == 0 ==> (r matches Err(e) && e matches KernelError::Config(m)
            && m@ == "RouterClient: no backends tried"@),
{
    let ghost all = attempts@;
    let mut rest = attempts;
    let mut i: usize = 0;
    while i < rest.len()
        invariant
            rest@ == all,
            all == attempts@,
            i <= all.len(),
            forall|k: int| 0 <= k < i ==> all[k] is Err,
        decreases all.len() - i,
    {
        if rest[i].is_ok() {
            proof {
                lemma_first_success_at(all, i as int);
            }
            let found = rest.remove(i);
            assert(found == all[i as int]);
            return found;
        }
        i += 1;
    }
    proof {
        lemma_first_success_none(all);
    }
    match rest.pop() {
        Some(last) => last,
        None => Err(KernelError::Config("RouterClient: no backends tried".to_string())),
    }
}

proof fn lemma_first_success_at<T>(s: Seq<Result<T, KernelError>>, i: int)
    requires
        0 <= i < s.len(),
        s[i] is Ok,
        forall|k: int| 0 <= k < i ==> s[k] is Err,
    ensures
        first_success(s) == Some(i),
    decreases i,
{
    if i > 0 {
        lemma_first_success_at(s.drop_first(), i - 1);
    }
}

proof fn lemma_first_success_none<T>(s: Seq<Result<T, KernelError>>)
    requires
        forall|k: int| 0 <= k < s.len() ==> s[k] is Err,
    ensures
        first_success(s) is None,
    decreases s.len(),
{
    if s.len() > 0 {
        lemma_first_success_none(s.drop_first());
    }
}

} // verus!
