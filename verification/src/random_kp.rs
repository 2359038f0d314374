//! Random knapsack construction: draw the candidate items in random order
//! and take each drawn item that still fits. Only what holds of every
//! random outcome is promised: the selection is a duplicate-free set of
//! items that lie on the path, its weight fits the capacity, and the
//! reported profit is exactly the selection's profit.

use vstd::prelude::*;
use crate::instance::{Instance, MAX_VALUE};
use crate::path::Path;

verus! {

/// Weight of the items named by the first `k` 1-based identifiers.
pub open spec fn ids_weight_upto(inst: Instance, ids: Seq<usize>, k: int) -> int
    decreases k,
{
    if k <= 0 {
        0
    } else {
        ids_weight_upto(inst, ids, k - 1) + inst.items@[ids[k - 1] - 1].weight as int
    }
}

/// Profit of the items named by the first `k` 1-based identifiers.
pub open spec fn ids_profit_upto(inst: Instance, ids: Seq<usize>, k: int) -> int
    decreases k,
{
    if k <= 0 {
        0
    } else {
        ids_profit_upto(inst, ids, k - 1) + inst.items@[ids[k - 1] - 1].profit as int
    }
}

/// Whether the home node of item `j` appears on the path (by its 1-based
/// node identifier).
pub open spec fn item_on_path(p: Path, inst: Instance, j: int) -> bool {
    exists|q: int| 0 <= q < p.nodes@.len() && (#[trigger] p.nodes@[q]).id == inst.items@[j].node + 1
}

/// Identifier sums are non-negative and at most `k * MAX_VALUE`.
proof fn lemma_ids_sums_bounds(inst: Instance, ids: Seq<usize>, k: int)
    requires
        inst.bounded(),
        0 <= k <= ids.len(),
        forall|a: int| 0 <= a < ids.len() ==> 1 <= (#[trigger] ids[a]) <= inst.items@.len(),
    ensures
        0 <= ids_weight_upto(inst, ids, k) <= k * MAX_VALUE,
        0 <= ids_profit_upto(inst, ids, k) <= k * MAX_VALUE,
    decreases k,
{
    if k > 0 {
        lemma_ids_sums_bounds(inst, ids, k - 1);
    }
}

/// Identifier sums look only at the identifiers below `k`.
proof fn lemma_ids_sums_prefix(inst: Instance, ids1: Seq<usize>, ids2: Seq<usize>, k: int)
    requires
        0 <= k <= ids1.len(),
        k <= ids2.len(),
        forall|a: int| 0 <= a < k ==> (#[trigger] ids1[a]) == ids2[a],
    ensures
        ids_weight_upto(inst, ids1, k) == ids_weight_upto(inst, ids2, k),
        ids_profit_upto(inst, ids1, k) == ids_profit_upto(inst, ids2, k),
    decreases k,
{
    if k > 0 {
        lemma_ids_sums_prefix(inst, ids1, ids2, k - 1);
    }
}

/// Relies on `rand::thread_rng` and `rand::Rng::gen_range` over the
/// inclusive range `0 ..= n - 1`: the result is below `n`. Nothing is
/// assumed about which value comes back.
#[verifier::external_body]
fn random_below(n: usize) -> (r: usize)
    requires
        n >= 1,
    ensures
        r < n,
{
    rand::Rng::gen_range(&mut rand::thread_rng(), 0..=(n - 1))
}

/// Random knapsack construction.
pub struct RandomKP;

impl RandomKP {
    /// Gather the items whose home node lies on the path, draw them in
    /// random order, and take each drawn item whose weight still fits
    /// under the capacity. Returns the collected profit and the 1-based
    /// identifiers of the taken items, in the order drawn.
    #[verifier::loop_isolation(false)]
    pub fn solve(path: &Path, instance: &Instance) -> (r: (i128, Vec<usize>))
        requires
            instance.wf(),
        ensures
            forall|k: int|
                0 <= k < r.1@.len() ==> 1 <= (#[trigger] r.1@[k]) <= instance.items@.len(),
            forall|a: int, b: int| 0 <= a < b < r.1@.len() ==> r.1@[a] != r.1@[b],
            forall|k: int|
                0 <= k < r.1@.len() ==> item_on_path(*path, *instance, (#[trigger] r.1@[k]) - 1),
            ids_weight_upto(*instance, r.1@, r.1@.len() as int)
                <= instance.capacity_of_knapsack as int,
            r.0 == ids_profit_upto(*instance, r.1@, r.1@.len() as int),
            forall|q: usize|
                q < instance.items@.len() && item_on_path(*path, *instance, q as int)
                    && !r.1@.contains((q + 1) as usize) ==> ids_weight_upto(
                    *instance,
                    r.1@,
                    r.1@.len() as int,
                ) + instance.items@[q as int].weight > instance.capacity_of_knapsack as int,
    {
        let m = instance.items.len();
        let mut cands: Vec<usize> = Vec::new();
        for j in 0..m
            invariant
                cands@.len() <= j,
                forall|k: int|
                    0 <= k < cands@.len() ==> (#[trigger] cands@[k]) < j && item_on_path(
                        *path,
                        *instance,
                        cands@[k] as int,
                    ),
                forall|a: int, b: int| 0 <= a < b < cands@.len() ==> cands@[a] != cands@[b],
                forall|q: usize|
                    q < j && item_on_path(*path, *instance, q as int) ==> #[trigger] cands@.contains(
                        q,
                    ),
        {
            let ghost cands_pre = cands@;
            let on_path = path.has_node(instance.items[j].node + 1);
            if on_path {
                cands.push(j);
            }
            proof {
                if !on_path {
                    assert(!item_on_path(*path, *instance, j as int)) by {
                        if item_on_path(*path, *instance, j as int) {
                            let w = choose|w: int|
                                0 <= w < path.nodes@.len() && (#[trigger] path.nodes@[w]).id
                                    == instance.items@[j as int].node + 1;
                            assert(path.nodes@[w].id == instance.items@[j as int].node + 1);
                        }
                    }
                }
                assert forall|q: usize|
                    q < j + 1 && item_on_path(*path, *instance, q as int) implies #[trigger] cands@.contains(
                    q,
                ) by {
                    if q < j {
                        assert(cands_pre.contains(q));
                        let w = choose|w: int| 0 <= w < cands_pre.len() && cands_pre[w] == q;
                        assert(cands@[w] == q);
                    } else {
                        assert(cands@[cands@.len() - 1] == q);
                    }
                }
            }
        }
        let total = cands.len();
        let mut selected: Vec<usize> = Vec::new();
        let mut weightsum: u64 = 0;
        let mut profitsum: u64 = 0;
        let cap = instance.capacity_of_knapsack as u64;
        for t in 0..total
            invariant
                total <= m,
                cands@.len() + t == total,
                selected@.len() <= t,
                forall|k: int|
                    0 <= k < cands@.len() ==> (#[trigger] cands@[k]) < m && item_on_path(
                        *path,
                        *instance,
                        cands@[k] as int,
                    ),
                forall|a: int, b: int| 0 <= a < b < cands@.len() ==> cands@[a] != cands@[b],
                forall|k: int|
                    0 <= k < selected@.len() ==> 1 <= (#[trigger] selected@[k]) <= m
                        && item_on_path(*path, *instance, selected@[k] - 1),
                forall|a: int, b: int|
                    0 <= a < b < selected@.len() ==> selected@[a] != selected@[b],
                forall|a: int, k: int|
                    0 <= a < selected@.len() && 0 <= k < cands@.len() ==> (#[trigger] selected@[a])
                        != (#[trigger] cands@[k]) + 1,
                weightsum == ids_weight_upto(*instance, selected@, selected@.len() as int),
                weightsum <= cap,
                profitsum == ids_profit_upto(*instance, selected@, selected@.len() as int),
                forall|q: usize|
                    q < m && item_on_path(*path, *instance, q as int) ==> (
                    #[trigger] cands@.contains(q) || selected@.contains((q + 1) as usize) || (
                    weightsum as int) + instance.items@[q as int].weight
                        > instance.capacity_of_knapsack as int),
        {
            let ghost weightsum0 = weightsum;
            let ghost sel_before = selected@;
            let idx = random_below(cands.len());
            let ghost cands0 = cands@;
            let j = cands.remove(idx);
            proof {
                assert forall|k: int| 0 <= k < cands@.len() implies (#[trigger] cands@[k]) < m
                    && item_on_path(*path, *instance, cands@[k] as int) && cands@[k] != j by {
                    if k < idx {
                        assert(cands@[k] == cands0[k]);
                    } else {
                        assert(cands@[k] == cands0[k + 1]);
                    }
                }
                assert forall|a: int, b: int| 0 <= a < b < cands@.len() implies cands@[a]
                    != cands@[b] by {
                    let sa = if a < idx {
                        a
                    } else {
                        a + 1
                    };
                    let sb = if b < idx {
                        b
                    } else {
                        b + 1
                    };
                    assert(cands@[a] == cands0[sa] && cands@[b] == cands0[sb]);
                }
                assert forall|a: int, k: int|
                    0 <= a < selected@.len() && 0 <= k < cands@.len() implies (
                #[trigger] selected@[a]) != (#[trigger] cands@[k]) + 1 by {
                    if k < idx {
                        assert(cands@[k] == cands0[k]);
                    } else {
                        assert(cands@[k] == cands0[k + 1]);
                    }
                }
                assert(forall|a: int|
                    0 <= a < selected@.len() ==> (#[trigger] selected@[a]) != j + 1) by {
                    assert(cands0[idx as int] == j);
                }
                lemma_ids_sums_bounds(*instance, selected@, selected@.len() as int);
            }
            let it_w = instance.items[j].weight as u64;
            if weightsum + it_w <= cap {
                let ghost sel0 = selected@;
                weightsum = weightsum + it_w;
                profitsum = profitsum + instance.items[j].profit as u64;
                selected.push(instance.items[j].id);
                proof {
                    assert(selected@ == sel0.push((j + 1) as usize));
                    assert(selected@.len() == sel0.len() + 1);
                    assert(forall|k: int|
                        0 <= k < sel0.len() ==> (#[trigger] selected@[k]) == sel0[k]);
                    assert(selected@[sel0.len() as int] == j + 1);
                    lemma_ids_sums_prefix(*instance, sel0, selected@, sel0.len() as int);
                }
            }
            proof {
                assert forall|q: usize|
                    q < m && item_on_path(*path, *instance, q as int) implies (
                #[trigger] cands@.contains(q) || selected@.contains((q + 1) as usize) || (
                weightsum as int) + instance.items@[q as int].weight
                    > instance.capacity_of_knapsack as int) by {
                    if q == j {
                        if weightsum0 + instance.items@[q as int].weight as u64 <= cap {
                            assert(selected@[selected@.len() - 1] == (q + 1) as usize);
                        }
                    } else {
                        if cands0.contains(q) {
                            let w = choose|w: int| 0 <= w < cands0.len() && cands0[w] == q;
                            assert(w != idx);
                            if w < idx {
                                assert(cands@[w] == q);
                            } else {
                                assert(cands@[w - 1] == q);
                            }
                        } else if sel_before.contains((q + 1) as usize) {
                            let w = choose|w: int|
                                0 <= w < sel_before.len() && sel_before[w] == (q + 1) as usize;
                            assert(selected@[w] == (q + 1) as usize);
                        }
                    }
                }
            }
        }
        proof {
            assert forall|q: usize|
                q < instance.items@.len() && item_on_path(*path, *instance, q as int)
                    && !selected@.contains((q + 1) as usize) implies ids_weight_upto(
                *instance,
                selected@,
                selected@.len() as int,
            ) + instance.items@[q as int].weight > instance.capacity_of_knapsack as int by {
                if cands@.contains(q) {
                    let w = choose|w: int| 0 <= w < cands@.len() && cands@[w] == q;
                }
            }
        }
        (profitsum as i128, selected)
    }
}

} // verus!
