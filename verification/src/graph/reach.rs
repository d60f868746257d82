//! Reachability along the flow graph's edges: walks, reachability within
//! a number of steps, and their relation.

use vstd::prelude::*;
use crate::graph::flow::{has_edge, is_walk, reach_within};

verus! {

/// Reachability within `k` steps implies reachability within any more.
pub proof fn lemma_reach_mono(es: Seq<(u128, u128)>, a: u128, b: u128, k: nat, k2: nat)
    requires
        k <= k2,
        reach_within(es, a, b, k),
    ensures
        reach_within(es, a, b, k2),
    decreases k2,
{
    if k < k2 {
        lemma_reach_mono(es, a, b, k, (k2 - 1) as nat);
    }
}

/// A walk from `a` to `b` with `n` nodes reaches `b` within `n - 1` steps.
pub proof fn lemma_walk_reaches(es: Seq<(u128, u128)>, p: Seq<u128>)
    requires
        is_walk(es, p),
    ensures
        reach_within(es, p[0], p.last(), (p.len() - 1) as nat),
    decreases p.len(),
{
    if p.len() > 1 {
        let q = p.drop_last();
        assert forall|k: int| 0 <= k < q.len() - 1 implies has_edge(es, #[trigger] q[k], q[k + 1]) by {
            assert(has_edge(es, p[k], p[k + 1]));
        }
        lemma_walk_reaches(es, q);
        assert(has_edge(es, p[p.len() - 2], p[p.len() - 1]));
        let j = choose|j: int| 0 <= j < es.len() && #[trigger] es[j] == (p[p.len() - 2], p[p.len() - 1]);
        assert(es[j].1 == p.last());
        assert(q.last() == p[p.len() - 2]);
        assert(q[0] == p[0]);
    }
}

/// Reaching `b` within `k` steps is witnessed by a walk of at most
/// `k + 1` nodes.
pub proof fn lemma_reach_walk(es: Seq<(u128, u128)>, a: u128, b: u128, k: nat) -> (p: Seq<u128>)
    requires
        reach_within(es, a, b, k),
    ensures
        is_walk(es, p),
        p[0] == a,
        p.last() == b,
        p.len() <= k + 1,
    decreases k,
{
    if k == 0 {
        seq![a]
    } else if reach_within(es, a, b, (k - 1) as nat) {
        lemma_reach_walk(es, a, b, (k - 1) as nat)
    } else {
        let j = choose|j: int|
            0 <= j < es.len() && #[trigger] es[j].1 == b && reach_within(es, a, es[j].0, (k - 1) as nat);
        let q = lemma_reach_walk(es, a, es[j].0, (k - 1) as nat);
        let p = q.push(b);
        assert(es[j] == (es[j].0, b));
        assert forall|i: int| 0 <= i < p.len() - 1 implies has_edge(es, #[trigger] p[i], p[i + 1]) by {
            if i < q.len() - 1 {
                assert(p[i] == q[i]);
                assert(p[i + 1] == q[i + 1]);
            } else {
                assert(p[i] == q.last());
                assert(p[i + 1] == b);
            }
        }
        p
    }
}

/// Whether `b` can be reached from `a` along `es` by some walk.
pub open spec fn reachable(es: Seq<(u128, u128)>, a: u128, b: u128) -> bool {
    exists|p: Seq<u128>| #[trigger] is_walk(es, p) && p[0] == a && p.last() == b
}

/// Reachability by a walk is reachability within some number of steps.
pub proof fn lemma_reachable_iff(es: Seq<(u128, u128)>, a: u128, b: u128)
    ensures
        reachable(es, a, b) <==> exists|k: nat| reach_within(es, a, b, k),
{
    if reachable(es, a, b) {
        let p = choose|p: Seq<u128>| #[trigger] is_walk(es, p) && p[0] == a && p.last() == b;
        lemma_walk_reaches(es, p);
        assert(reach_within(es, a, b, (p.len() - 1) as nat));
    }
    if exists|k: nat| reach_within(es, a, b, k) {
        let k = choose|k: nat| reach_within(es, a, b, k);
        let p = lemma_reach_walk(es, a, b, k);
        assert(is_walk(es, p));
    }
}

} // verus!
