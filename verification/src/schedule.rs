//! The settling order of a graph: all components by ascending level.

use vstd::prelude::*;
use crate::graph::{ints, is_schedule, naturals, precedes};

verus! {

/// What the order holds once the levels below `l` are placed whole and
/// level `l` up to position `k`.
pub open spec fn placed(levels: Seq<nat>, order: Seq<int>, l: int, k: int) -> bool {
    &&& forall|t: int| 0 <= t < order.len() ==> 0 <= #[trigger] order[t] < levels.len()
    &&& forall|j: int|
        0 <= j < levels.len() ==> (#[trigger] order.contains(j) <==> levels[j] < l || (levels[j]
            == l && j < k))
    &&& forall|s: int, t: int|
        0 <= s < t < order.len() ==> precedes(levels, #[trigger] order[s], #[trigger] order[t])
}

proof fn lemma_place(levels: Seq<nat>, order: Seq<int>, l: int, k: int)
    requires
        placed(levels, order, l, k),
        0 <= k < levels.len(),
    ensures
        levels[k] == l ==> placed(levels, order.push(k), l, k + 1),
        levels[k] != l ==> placed(levels, order, l, k + 1),
{
    if levels[k] == l {
        let after = order.push(k);
        assert forall|j: int| 0 <= j < levels.len() implies (#[trigger] after.contains(j)
            <==> levels[j] < l || (levels[j] == l && j < k + 1)) by {
            if order.contains(j) {
                let t = choose|t: int| 0 <= t < order.len() && order[t] == j;
                assert(after[t] == j);
            }
            if j == k {
                assert(after[order.len() as int] == k);
            }
        }
        assert forall|s: int, t: int| 0 <= s < t < after.len() implies precedes(
            levels,
            #[trigger] after[s],
            #[trigger] after[t],
        ) by {
            if t >= order.len() {
                assert(order.contains(order[s]));
            }
        }
    }
}

/// Lists all positions by ascending level, equal levels by position.
pub fn schedule(levels: &Vec<usize>) -> (order: Vec<usize>)
    requires
        forall|k: int| 0 <= k < levels@.len() ==> (#[trigger] levels@[k]) < levels@.len(),
    ensures
        is_schedule(naturals(levels@), ints(order@)),
{
    let n = levels.len();
    // One more than the highest level: the number of levels in use.
    let mut height: usize = 0;
    let mut i: usize = 0;
    while i < n
        invariant
            n == levels@.len(),
            i <= n,
            height <= n,
            forall|k: int| 0 <= k < levels@.len() ==> (#[trigger] levels@[k]) < levels@.len(),
            forall|k: int| 0 <= k < i ==> (#[trigger] levels@[k]) < height,
        decreases n - i,
    {
        if levels[i] >= height {
            height = levels[i] + 1;
        }
        i = i + 1;
    }
    let mut order: Vec<usize> = Vec::new();
    let mut l: usize = 0;
    while l < height
        invariant
            n == levels@.len(),
            l <= height,
            placed(naturals(levels@), ints(order@), l as int, 0),
        decreases height - l,
    {
        let mut k: usize = 0;
        while k < n
            invariant
                n == levels@.len(),
                l < height,
                k <= n,
                placed(naturals(levels@), ints(order@), l as int, k as int),
            decreases n - k,
        {
            proof {
                lemma_place(naturals(levels@), ints(order@), l as int, k as int);
            }
            if levels[k] == l {
                let ghost before = ints(order@);
                order.push(k);
                assert(ints(order@) =~= before.push(k as int));
            }
            k = k + 1;
        }
        l = l + 1;
    }
    order
}

} // verus!
