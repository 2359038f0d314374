//! Joint hill-climbing over a tour and a packing plan: four neighborhood
//! operators (tour segment reversal, tour position swap, packing bit-flip,
//! packing item-swap), each first-improvement, cycled by an orchestrator
//! until a full cycle yields no improvement.

use vstd::prelude::*;
use crate::instance::Instance;
use crate::objective::{
    lemma_objective_upper, lemma_plan_weight_bounds, lemma_plan_weight_update, objective, plan_ok,
    plan_feasible, plan_weight, plan_weight_upto, tour_ok, tour_perm,
};
use crate::solution::Solution;

verus! {

/// `t` with the segment `[i ..= j]` reversed.
pub open spec fn reverse_seg(t: Seq<usize>, i: int, j: int) -> Seq<usize> {
    Seq::new(
        t.len(),
        |k: int|
            if i <= k <= j {
                t[i + j - k]
            } else {
                t[k]
            },
    )
}

/// `t` with the entries at `i` and `j` exchanged.
pub open spec fn swap_pos(t: Seq<usize>, i: int, j: int) -> Seq<usize> {
    t.update(i, t[j]).update(j, t[i])
}

/// `plan` with the flag at `i` flipped.
pub open spec fn flip(plan: Seq<usize>, i: int) -> Seq<usize> {
    plan.update(
        i,
        if plan[i] == 1 {
            0usize
        } else {
            1usize
        },
    )
}

/// `plan` with the picked item `p` dropped and the unpicked item `u`
/// picked.
pub open spec fn swap_items(plan: Seq<usize>, p: int, u: int) -> Seq<usize> {
    plan.update(p, 0usize).update(u, 1usize)
}

/// No segment reversal that keeps the depot anchored improves the
/// objective.
pub open spec fn no_improving_reversal(inst: Instance, tour: Seq<usize>, plan: Seq<usize>) -> bool {
    forall|i: int, j: int|
        1 <= i < j < tour.len() ==> objective(inst, #[trigger] reverse_seg(tour, i, j), plan)
            <= objective(inst, tour, plan)
}

/// No position swap that keeps the depot anchored improves the objective.
pub open spec fn no_improving_swap(inst: Instance, tour: Seq<usize>, plan: Seq<usize>) -> bool {
    forall|i: int, j: int|
        1 <= i < j < tour.len() ==> objective(inst, #[trigger] swap_pos(tour, i, j), plan)
            <= objective(inst, tour, plan)
}

/// No single admissible flag flip improves the objective: dropping is
/// always admissible, picking only within the remaining capacity.
pub open spec fn no_improving_flip(inst: Instance, tour: Seq<usize>, plan: Seq<usize>) -> bool {
    forall|i: int|
        0 <= i < plan.len() ==> {
            &&& (plan[i] == 1 ==> objective(inst, tour, #[trigger] flip(plan, i)) <= objective(
                inst,
                tour,
                plan,
            ))
            &&& (plan[i] == 0 && plan_weight(inst, plan) + inst.items@[i].weight
                <= inst.capacity_of_knapsack ==> objective(inst, tour, flip(plan, i)) <= objective(
                inst,
                tour,
                plan,
            ))
        }
}

/// No capacity-admissible exchange of a picked for an unpicked item
/// improves the objective.
pub open spec fn no_improving_item_swap(
    inst: Instance,
    tour: Seq<usize>,
    plan: Seq<usize>,
) -> bool {
    forall|p: int, u: int|
        0 <= p < plan.len() && 0 <= u < plan.len() && plan[p] == 1 && plan[u] == 0 && plan_weight(
            inst,
            plan,
        ) - inst.items@[p].weight + inst.items@[u].weight <= inst.capacity_of_knapsack
            ==> objective(inst, tour, #[trigger] swap_items(plan, p, u)) <= objective(
            inst,
            tour,
            plan,
        )
}

/// A true fixed point of the full optimizer: no operator of the four has
/// an improving move.
pub open spec fn converged(inst: Instance, tour: Seq<usize>, plan: Seq<usize>) -> bool {
    &&& no_improving_reversal(inst, tour, plan)
    &&& no_improving_swap(inst, tour, plan)
    &&& no_improving_flip(inst, tour, plan)
    &&& no_improving_item_swap(inst, tour, plan)
}

/// A fixed point of the tour-only optimizer.
pub open spec fn tour_converged(inst: Instance, tour: Seq<usize>, plan: Seq<usize>) -> bool {
    &&& no_improving_reversal(inst, tour, plan)
    &&& no_improving_swap(inst, tour, plan)
}

/// Reversing an inner segment keeps a tour valid, keeps the depot
/// anchored, and keeps a permutation a permutation.
pub proof fn lemma_reverse_seg_perm(inst: Instance, t: Seq<usize>, i: int, j: int)
    requires
        tour_ok(inst, t),
        1 <= i <= j < t.len(),
    ensures
        tour_ok(inst, reverse_seg(t, i, j)),
        reverse_seg(t, i, j)[0] == t[0],
        tour_perm(inst, t) ==> tour_perm(inst, reverse_seg(t, i, j)),
{
    let r = reverse_seg(t, i, j);
    assert forall|k: int| 0 <= k < r.len() implies (#[trigger] r[k]) < inst.nodes@.len() by {
        if i <= k <= j {
            assert(r[k] == t[i + j - k]);
        }
    }
    if tour_perm(inst, t) {
        assert forall|a: int, b: int| 0 <= a < b < r.len() implies (#[trigger] r[a]) != (
        #[trigger] r[b]) by {
            let sa = if i <= a <= j {
                i + j - a
            } else {
                a
            };
            let sb = if i <= b <= j {
                i + j - b
            } else {
                b
            };
            assert(r[a] == t[sa] && r[b] == t[sb]);
            assert(sa != sb);
            if sa < sb {
                assert(t[sa] != t[sb]);
            } else {
                assert(t[sb] != t[sa]);
            }
        }
    }
}

/// Swapping two inner entries keeps a tour valid, keeps the depot
/// anchored, and keeps a permutation a permutation.
pub proof fn lemma_swap_pos_perm(inst: Instance, t: Seq<usize>, i: int, j: int)
    requires
        tour_ok(inst, t),
        1 <= i < j < t.len(),
    ensures
        tour_ok(inst, swap_pos(t, i, j)),
        swap_pos(t, i, j)[0] == t[0],
        tour_perm(inst, t) ==> tour_perm(inst, swap_pos(t, i, j)),
{
    let r = swap_pos(t, i, j);
    assert forall|k: int| 0 <= k < r.len() implies (#[trigger] r[k]) < inst.nodes@.len() by {
        assert(r[k] == t[k] || r[k] == t[i] || r[k] == t[j]);
    }
    if tour_perm(inst, t) {
        assert forall|a: int, b: int| 0 <= a < b < r.len() implies (#[trigger] r[a]) != (
        #[trigger] r[b]) by {
            let sa = if a == i {
                j
            } else if a == j {
                i
            } else {
                a
            };
            let sb = if b == i {
                j
            } else if b == j {
                i
            } else {
                b
            };
            assert(r[a] == t[sa] && r[b] == t[sb]);
            if sa < sb {
                assert(t[sa] != t[sb]);
            } else {
                assert(t[sb] != t[sa]);
            }
        }
    }
}

/// An element-wise copy of `t` with the segment `[i ..= j]` reversed.
fn reversed_copy(t: &Vec<usize>, i: usize, j: usize) -> (r: Vec<usize>)
    requires
        i <= j < t@.len(),
    ensures
        r@ == reverse_seg(t@, i as int, j as int),
{
    let mut r = crate::solution::clone_indices(t);
    let mut a = i;
    let mut b = j;
    while a < b
        invariant
            i <= a,
            a <= b + 1,
            b <= j,
            a + b == i + j,
            j < t@.len(),
            r@.len() == t@.len(),
            forall|k: int|
                0 <= k < t@.len() ==> (#[trigger] r@[k]) == if i <= k < a || b < k <= j {
                    t@[i + j - k]
                } else {
                    t@[k]
                },
        decreases b + 1 - a,
    {
        let va = r[a];
        let vb = r[b];
        r[a] = vb;
        r[b] = va;
        a = a + 1;
        b = b - 1;
    }
    proof {
        assert forall|k: int| 0 <= k < t@.len() implies r@[k] == reverse_seg(
            t@,
            i as int,
            j as int,
        )[k] by {
            if a == b && k == a as int {
                assert(i + j - k == k);
            }
        }
        assert(r@ =~= reverse_seg(t@, i as int, j as int));
    }
    r
}

/// An element-wise copy of `t` with the entries at `i` and `j` exchanged.
fn swapped_copy(t: &Vec<usize>, i: usize, j: usize) -> (r: Vec<usize>)
    requires
        i < t@.len(),
        j < t@.len(),
    ensures
        r@ == swap_pos(t@, i as int, j as int),
{
    let mut r = crate::solution::clone_indices(t);
    let vi = r[i];
    let vj = r[j];
    r[i] = vj;
    r[j] = vi;
    proof {
        assert(r@ =~= swap_pos(t@, i as int, j as int));
    }
    r
}

/// One first-improvement pass over all reversal candidates `(i, j)` with
/// `1 <= i < j < n`, in row-major order. Returns the first candidate that
/// strictly improves on `best_obj`, or reports that none exists.
#[verifier::loop_isolation(false)]
fn scan_reversal(instance: &Instance, tour: &Vec<usize>, plan: &Vec<usize>, best_obj: i128) -> (r:
    (bool, Vec<usize>, i128))
    requires
        instance.wf(),
        tour_ok(*instance, tour@),
        plan_ok(*instance, plan@),
        best_obj == objective(*instance, tour@, plan@),
    ensures
        tour_ok(*instance, r.1@),
        r.1@[0] == tour@[0],
        tour_perm(*instance, tour@) ==> tour_perm(*instance, r.1@),
        r.2 == objective(*instance, r.1@, plan@),
        r.0 ==> r.2 > best_obj,
        !r.0 ==> r.1@ == tour@ && r.2 == best_obj && no_improving_reversal(
            *instance,
            tour@,
            plan@,
        ),
        no_improving_reversal(*instance, tour@, plan@) ==> !r.0,
{
    let n = tour.len();
    let mut i: usize = 1;
    while i + 1 < n
        invariant
            1 <= i <= n,
            forall|a: int, b: int|
                1 <= a < b < n && a < i ==> objective(
                    *instance,
                    #[trigger] reverse_seg(tour@, a, b),
                    plan@,
                ) <= best_obj,
        decreases n - i,
    {
        let mut j = i + 1;
        while j < n
            invariant
                i + 1 <= j <= n,
                forall|a: int, b: int|
                    1 <= a < b < n && a < i ==> objective(
                        *instance,
                        #[trigger] reverse_seg(tour@, a, b),
                        plan@,
                    ) <= best_obj,
                forall|b: int|
                    i < b < j ==> objective(
                        *instance,
                        #[trigger] reverse_seg(tour@, i as int, b),
                        plan@,
                    ) <= best_obj,
            decreases n - j,
        {
            let cand = reversed_copy(tour, i, j);
            proof {
                lemma_reverse_seg_perm(*instance, tour@, i as int, j as int);
            }
            let sol = Solution::evaluate(instance, &cand, plan);
            if sol.ob > best_obj {
                proof {
                    if no_improving_reversal(*instance, tour@, plan@) {
                        assert(objective(
                            *instance,
                            reverse_seg(tour@, i as int, j as int),
                            plan@,
                        ) <= best_obj);
                    }
                }
                return (true, cand, sol.ob);
            }
            j = j + 1;
        }
        assert forall|a: int, b: int| 1 <= a < b < n && a < i + 1 implies objective(
            *instance,
            #[trigger] reverse_seg(tour@, a, b),
            plan@,
        ) <= best_obj by {
            if a == i as int {
                assert(objective(*instance, reverse_seg(tour@, i as int, b), plan@) <= best_obj);
            }
        }
        i = i + 1;
    }
    assert forall|a: int, b: int| 1 <= a < b < n implies objective(
        *instance,
        #[trigger] reverse_seg(tour@, a, b),
        plan@,
    ) <= best_obj by {
        assert(a < i);
    }
    (false, crate::solution::clone_indices(tour), best_obj)
}

/// One first-improvement pass over all position-swap candidates, in the
/// same order as the reversal scan.
#[verifier::loop_isolation(false)]
fn scan_swap(instance: &Instance, tour: &Vec<usize>, plan: &Vec<usize>, best_obj: i128) -> (r: (
    bool,
    Vec<usize>,
    i128,
))
    requires
        instance.wf(),
        tour_ok(*instance, tour@),
        plan_ok(*instance, plan@),
        best_obj == objective(*instance, tour@, plan@),
    ensures
        tour_ok(*instance, r.1@),
        r.1@[0] == tour@[0],
        tour_perm(*instance, tour@) ==> tour_perm(*instance, r.1@),
        r.2 == objective(*instance, r.1@, plan@),
        r.0 ==> r.2 > best_obj,
        !r.0 ==> r.1@ == tour@ && r.2 == best_obj && no_improving_swap(*instance, tour@, plan@),
        no_improving_swap(*instance, tour@, plan@) ==> !r.0,
{
    let n = tour.len();
    let mut i: usize = 1;
    while i + 1 < n
        invariant
            1 <= i <= n,
            forall|a: int, b: int|
                1 <= a < b < n && a < i ==> objective(
                    *instance,
                    #[trigger] swap_pos(tour@, a, b),
                    plan@,
                ) <= best_obj,
        decreases n - i,
    {
        let mut j = i + 1;
        while j < n
            invariant
                i + 1 <= j <= n,
                forall|a: int, b: int|
                    1 <= a < b < n && a < i ==> objective(
                        *instance,
                        #[trigger] swap_pos(tour@, a, b),
                        plan@,
                    ) <= best_obj,
                forall|b: int|
                    i < b < j ==> objective(
                        *instance,
                        #[trigger] swap_pos(tour@, i as int, b),
                        plan@,
                    ) <= best_obj,
            decreases n - j,
        {
            let cand = swapped_copy(tour, i, j);
            proof {
                lemma_swap_pos_perm(*instance, tour@, i as int, j as int);
            }
            let sol = Solution::evaluate(instance, &cand, plan);
            if sol.ob > best_obj {
                proof {
                    if no_improving_swap(*instance, tour@, plan@) {
                        assert(objective(*instance, swap_pos(tour@, i as int, j as int), plan@)
                            <= best_obj);
                    }
                }
                return (true, cand, sol.ob);
            }
            j = j + 1;
        }
        assert forall|a: int, b: int| 1 <= a < b < n && a < i + 1 implies objective(
            *instance,
            #[trigger] swap_pos(tour@, a, b),
            plan@,
        ) <= best_obj by {
            if a == i as int {
                assert(objective(*instance, swap_pos(tour@, i as int, b), plan@) <= best_obj);
            }
        }
        i = i + 1;
    }
    assert forall|a: int, b: int| 1 <= a < b < n implies objective(
        *instance,
        #[trigger] swap_pos(tour@, a, b),
        plan@,
    ) <= best_obj by {
        assert(a < i);
    }
    (false, crate::solution::clone_indices(tour), best_obj)
}

/// A picked item's weight never exceeds the total weight of its plan.
proof fn lemma_picked_weight(inst: Instance, plan: Seq<usize>, i: int)
    requires
        inst.bounded(),
        plan.len() == inst.items@.len(),
        0 <= i < plan.len(),
        plan[i] == 1,
    ensures
        inst.items@[i].weight <= plan_weight(inst, plan),
{
    let m = plan.len() as int;
    lemma_plan_weight_update(inst, plan, i, 0, m);
    lemma_plan_weight_bounds(inst, plan.update(i, 0usize), m);
}

/// Total weight of the picked items of `plan`.
#[verifier::loop_isolation(false)]
fn plan_total_weight(instance: &Instance, plan: &Vec<usize>) -> (w: u64)
    requires
        instance.wf(),
        plan_ok(*instance, plan@),
    ensures
        w == plan_weight(*instance, plan@),
{
    let m = plan.len();
    let mut w: u64 = 0;
    for j in 0..m
        invariant
            w == plan_weight_upto(*instance, plan@, j as int),
    {
        proof {
            lemma_plan_weight_bounds(*instance, plan@, j as int);
        }
        if plan[j] == 1 {
            w = w + instance.items[j].weight as u64;
        }
    }
    w
}

/// Write one packing flag.
fn set_flag(plan: &mut Vec<usize>, i: usize, x: usize)
    requires
        i < old(plan)@.len(),
    ensures
        final(plan)@ == old(plan)@.update(i as int, x),
{
    plan[i] = x;
}

/// One ascending bit-flip sweep with a running weight: each unpicked item
/// is tentatively picked only within the remaining capacity, each picked
/// item tentatively dropped, and the flip kept exactly when it strictly
/// improves the objective. A sweep may keep several flips.
#[verifier::loop_isolation(false)]
fn sweep_bit_flip(
    instance: &Instance,
    tour: &Vec<usize>,
    plan: &mut Vec<usize>,
    weight: &mut u64,
    obj: &mut i128,
) -> (changed: bool)
    requires
        instance.wf(),
        tour_ok(*instance, tour@),
        plan_ok(*instance, old(plan)@),
        *old(weight) == plan_weight(*instance, old(plan)@),
        *old(weight) <= instance.capacity_of_knapsack as u64,
        *old(obj) == objective(*instance, tour@, old(plan)@),
    ensures
        plan_ok(*instance, final(plan)@),
        *final(weight) == plan_weight(*instance, final(plan)@),
        *final(weight) <= instance.capacity_of_knapsack as u64,
        *final(obj) == objective(*instance, tour@, final(plan)@),
        *final(obj) >= *old(obj),
        changed ==> *final(obj) > *old(obj),
        !changed ==> final(plan)@ == old(plan)@ && *final(obj) == *old(obj) && no_improving_flip(
            *instance,
            tour@,
            old(plan)@,
        ),
        no_improving_flip(*instance, tour@, old(plan)@) ==> !changed,
{
    let m = plan.len();
    let mut changed = false;
    for i in 0..m
        invariant
            plan@.len() == m,
            plan_ok(*instance, plan@),
            *weight == plan_weight(*instance, plan@),
            *weight <= instance.capacity_of_knapsack as u64,
            *obj == objective(*instance, tour@, plan@),
            *obj >= *old(obj),
            changed ==> *obj > *old(obj),
            !changed ==> plan@ == old(plan)@ && *obj == *old(obj),
            !changed ==> forall|k: int|
                0 <= k < i ==> {
                    &&& (plan@[k] == 1 ==> objective(*instance, tour@, #[trigger] flip(plan@, k))
                        <= *obj)
                    &&& (plan@[k] == 0 && plan_weight(*instance, plan@)
                        + instance.items@[k].weight <= instance.capacity_of_knapsack
                        ==> objective(*instance, tour@, flip(plan@, k)) <= *obj)
                },
            no_improving_flip(*instance, tour@, old(plan)@) ==> !changed,
    {
        let ghost prev = plan@;
        let w_i = instance.items[i].weight as u64;
        if plan[i] == 0 {
            if *weight + w_i <= instance.capacity_of_knapsack as u64 {
                set_flag(plan, i, 1);
                assert(plan@ == flip(prev, i as int));
                proof {
                    lemma_plan_weight_update(*instance, prev, i as int, 1usize, prev.len() as int);
                }
                let sol = Solution::evaluate(instance, tour, plan);
                if sol.ob > *obj {
                    proof {
                        if no_improving_flip(*instance, tour@, old(plan)@) {
                            assert(!changed);
                            assert(objective(*instance, tour@, flip(prev, i as int)) <= *obj);
                        }
                    }
                    *obj = sol.ob;
                    *weight = *weight + w_i;
                    changed = true;
                } else {
                    set_flag(plan, i, 0);
                    proof {
                        assert(plan@ =~= prev);
                    }
                }
            }
        } else {
            set_flag(plan, i, 0);
            assert(plan@ == flip(prev, i as int));
            proof {
                lemma_plan_weight_update(*instance, prev, i as int, 0usize, prev.len() as int);
                lemma_picked_weight(*instance, prev, i as int);
            }
            let sol = Solution::evaluate(instance, tour, plan);
            if sol.ob > *obj {
                proof {
                    if no_improving_flip(*instance, tour@, old(plan)@) {
                        assert(!changed);
                        assert(objective(*instance, tour@, flip(prev, i as int)) <= *obj);
                    }
                }
                *obj = sol.ob;
                *weight = *weight - w_i;
                changed = true;
            } else {
                set_flag(plan, i, 1);
                proof {
                    assert(plan@ =~= prev);
                }
            }
        }
    }
    changed
}

/// One first-improvement pass over all (picked, unpicked) item exchanges,
/// outer loop over picked items, inner over unpicked, both in ascending
/// index order. A swap is trialed only when the exchanged weight stays
/// within the capacity; the pass ends at the first accepted swap.
#[verifier::loop_isolation(false)]
fn sweep_item_swap(
    instance: &Instance,
    tour: &Vec<usize>,
    plan: &mut Vec<usize>,
    weight: &mut u64,
    obj: &mut i128,
) -> (changed: bool)
    requires
        instance.wf(),
        tour_ok(*instance, tour@),
        plan_ok(*instance, old(plan)@),
        *old(weight) == plan_weight(*instance, old(plan)@),
        *old(weight) <= instance.capacity_of_knapsack as u64,
        *old(obj) == objective(*instance, tour@, old(plan)@),
    ensures
        plan_ok(*instance, final(plan)@),
        *final(weight) == plan_weight(*instance, final(plan)@),
        *final(weight) <= instance.capacity_of_knapsack as u64,
        *final(obj) == objective(*instance, tour@, final(plan)@),
        *final(obj) >= *old(obj),
        changed ==> *final(obj) > *old(obj),
        !changed ==> final(plan)@ == old(plan)@ && *final(obj) == *old(obj)
            && no_improving_item_swap(*instance, tour@, old(plan)@),
        no_improving_item_swap(*instance, tour@, old(plan)@) ==> !changed,
{
    let m = plan.len();
    let mut p: usize = 0;
    while p < m
        invariant
            p <= m,
            plan@ == old(plan)@,
            *weight == *old(weight),
            *obj == *old(obj),
            forall|a: int, b: int|
                0 <= a < p && 0 <= b < m && plan@[a] == 1 && plan@[b] == 0 && plan_weight(
                    *instance,
                    plan@,
                ) - instance.items@[a].weight + instance.items@[b].weight
                    <= instance.capacity_of_knapsack ==> objective(
                    *instance,
                    tour@,
                    #[trigger] swap_items(plan@, a, b),
                ) <= *obj,
        decreases m - p,
    {
        if plan[p] == 0 {
            assert forall|b: int|
                0 <= b < m && plan@[p as int] == 1 && plan@[b] == 0 && plan_weight(
                    *instance,
                    plan@,
                ) - instance.items@[p as int].weight + instance.items@[b].weight
                    <= instance.capacity_of_knapsack implies objective(
                *instance,
                tour@,
                #[trigger] swap_items(plan@, p as int, b),
            ) <= *obj by {}
        } else {
            let w_p = instance.items[p].weight as u64;
            proof {
                lemma_picked_weight(*instance, plan@, p as int);
            }
            let mut u: usize = 0;
            while u < m
                invariant
                    u <= m,
                    p < m,
                    plan@ == old(plan)@,
                    *weight == *old(weight),
                    *obj == *old(obj),
                    plan@[p as int] == 1,
                    w_p == instance.items@[p as int].weight,
                    w_p <= *weight,
                    forall|a: int, b: int|
                        0 <= a < p && 0 <= b < m && plan@[a] == 1 && plan@[b] == 0 && plan_weight(
                            *instance,
                            plan@,
                        ) - instance.items@[a].weight + instance.items@[b].weight
                            <= instance.capacity_of_knapsack ==> objective(
                            *instance,
                            tour@,
                            #[trigger] swap_items(plan@, a, b),
                        ) <= *obj,
                    forall|b: int|
                        0 <= b < u && plan@[b] == 0 && plan_weight(*instance, plan@)
                            - instance.items@[p as int].weight + instance.items@[b].weight
                            <= instance.capacity_of_knapsack ==> objective(
                            *instance,
                            tour@,
                            #[trigger] swap_items(plan@, p as int, b),
                        ) <= *obj,
                decreases m - u,
            {
                if plan[u] == 0 {
                    let w_u = instance.items[u].weight as u64;
                    if *weight - w_p + w_u <= instance.capacity_of_knapsack as u64 {
                        let ghost prev = plan@;
                        set_flag(plan, p, 0);
                        set_flag(plan, u, 1);
                        assert(plan@ == swap_items(prev, p as int, u as int));
                        proof {
                            lemma_plan_weight_update(
                                *instance,
                                prev,
                                p as int,
                                0usize,
                                prev.len() as int,
                            );
                            lemma_plan_weight_update(
                                *instance,
                                prev.update(p as int, 0usize),
                                u as int,
                                1usize,
                                prev.len() as int,
                            );
                        }
                        let sol = Solution::evaluate(instance, tour, plan);
                        if sol.ob > *obj {
                            proof {
                                if no_improving_item_swap(*instance, tour@, old(plan)@) {
                                    assert(objective(
                                        *instance,
                                        tour@,
                                        swap_items(prev, p as int, u as int),
                                    ) <= *obj);
                                }
                            }
                            *obj = sol.ob;
                            *weight = *weight - w_p + w_u;
                            return true;
                        } else {
                            set_flag(plan, u, 0);
                            set_flag(plan, p, 1);
                            proof {
                                assert(plan@ =~= prev);
                            }
                        }
                    }
                }
                u = u + 1;
            }
        }
        p = p + 1;
    }
    false
}

/// The hill-climbing orchestrator over tours and packing plans.
pub struct HillClimbingTTP;

impl HillClimbingTTP {
    /// Segment-reversal (2-opt) operator: repeat first-improvement passes,
    /// restarting from scratch after each accepted move, until one
    /// complete pass finds no improving reversal. Monotone in the
    /// objective; returns the input unchanged exactly when it cannot
    /// improve it.
    pub fn run_2opt(
        instance: &Instance,
        current_tour: &Vec<usize>,
        packing_plan: &Vec<usize>,
        current_best_obj: i128,
    ) -> (r: (Vec<usize>, i128))
        requires
            instance.wf(),
            tour_ok(*instance, current_tour@),
            plan_ok(*instance, packing_plan@),
            current_best_obj == objective(*instance, current_tour@, packing_plan@),
        ensures
            tour_ok(*instance, r.0@),
            r.0@[0] == current_tour@[0],
            tour_perm(*instance, current_tour@) ==> tour_perm(*instance, r.0@),
            r.1 == objective(*instance, r.0@, packing_plan@),
            r.1 >= current_best_obj,
            r.1 == current_best_obj ==> r.0@ == current_tour@,
            no_improving_reversal(*instance, r.0@, packing_plan@),
            no_improving_reversal(*instance, current_tour@, packing_plan@) ==> r.0@
                == current_tour@ && r.1 == current_best_obj,
    {
        let mut best_tour = crate::solution::clone_indices(current_tour);
        let mut best_obj = current_best_obj;
        let mut improved = true;
        proof {
            lemma_objective_upper(*instance, current_tour@, packing_plan@);
        }
        while improved
            invariant
                instance.wf(),
                tour_ok(*instance, current_tour@),
                plan_ok(*instance, packing_plan@),
                current_best_obj == objective(*instance, current_tour@, packing_plan@),
                tour_ok(*instance, best_tour@),
                best_tour@[0] == current_tour@[0],
                tour_perm(*instance, current_tour@) ==> tour_perm(*instance, best_tour@),
                best_obj == objective(*instance, best_tour@, packing_plan@),
                best_obj >= current_best_obj,
                best_obj == current_best_obj ==> best_tour@ == current_tour@,
                !improved ==> no_improving_reversal(*instance, best_tour@, packing_plan@),
                no_improving_reversal(*instance, current_tour@, packing_plan@) ==> best_tour@
                    == current_tour@ && best_obj == current_best_obj,
                best_obj <= 10_000_000_000_000_000_000,
            decreases
                    10_000_000_000_000_000_000 - best_obj,
                    (if improved {
                        1int
                    } else {
                        0int
                    }),
        {
            let (found, t2, o2) = scan_reversal(instance, &best_tour, packing_plan, best_obj);
            improved = found;
            if found {
                best_tour = t2;
                best_obj = o2;
            }
            proof {
                lemma_objective_upper(*instance, best_tour@, packing_plan@);
            }
        }
        (best_tour, best_obj)
    }

    /// Position-swap operator: the same control structure as `run_2opt`,
    /// with the candidate formed by exchanging two tour entries.
    pub fn run_swap(
        instance: &Instance,
        current_tour: &Vec<usize>,
        packing_plan: &Vec<usize>,
        current_best_obj: i128,
    ) -> (r: (Vec<usize>, i128))
        requires
            instance.wf(),
            tour_ok(*instance, current_tour@),
            plan_ok(*instance, packing_plan@),
            current_best_obj == objective(*instance, current_tour@, packing_plan@),
        ensures
            tour_ok(*instance, r.0@),
            r.0@[0] == current_tour@[0],
            tour_perm(*instance, current_tour@) ==> tour_perm(*instance, r.0@),
            r.1 == objective(*instance, r.0@, packing_plan@),
            r.1 >= current_best_obj,
            r.1 == current_best_obj ==> r.0@ == current_tour@,
            no_improving_swap(*instance, r.0@, packing_plan@),
            no_improving_swap(*instance, current_tour@, packing_plan@) ==> r.0@ == current_tour@
                && r.1 == current_best_obj,
    {
        let mut best_tour = crate::solution::clone_indices(current_tour);
        let mut best_obj = current_best_obj;
        let mut improved = true;
        proof {
            lemma_objective_upper(*instance, current_tour@, packing_plan@);
        }
        while improved
            invariant
                instance.wf(),
                tour_ok(*instance, current_tour@),
                plan_ok(*instance, packing_plan@),
                current_best_obj == objective(*instance, current_tour@, packing_plan@),
                tour_ok(*instance, best_tour@),
                best_tour@[0] == current_tour@[0],
                tour_perm(*instance, current_tour@) ==> tour_perm(*instance, best_tour@),
                best_obj == objective(*instance, best_tour@, packing_plan@),
                best_obj >= current_best_obj,
                best_obj == current_best_obj ==> best_tour@ == current_tour@,
                !improved ==> no_improving_swap(*instance, best_tour@, packing_plan@),
                no_improving_swap(*instance, current_tour@, packing_plan@) ==> best_tour@
                    == current_tour@ && best_obj == current_best_obj,
                best_obj <= 10_000_000_000_000_000_000,
            decreases
                    10_000_000_000_000_000_000 - best_obj,
                    (if improved {
                        1int
                    } else {
                        0int
                    }),
        {
            let (found, t2, o2) = scan_swap(instance, &best_tour, packing_plan, best_obj);
            improved = found;
            if found {
                best_tour = t2;
                best_obj = o2;
            }
            proof {
                lemma_objective_upper(*instance, best_tour@, packing_plan@);
            }
        }
        (best_tour, best_obj)
    }

    /// Packing bit-flip operator: repeat full ascending sweeps until one
    /// sweep keeps no flip. Every kept plan stays capacity-feasible.
    pub fn run_bit_flip(
        instance: &Instance,
        tour: &Vec<usize>,
        current_packing: &Vec<usize>,
        current_best_obj: i128,
    ) -> (r: (Vec<usize>, i128))
        requires
            instance.wf(),
            tour_ok(*instance, tour@),
            plan_ok(*instance, current_packing@),
            plan_feasible(*instance, current_packing@),
            current_best_obj == objective(*instance, tour@, current_packing@),
        ensures
            plan_ok(*instance, r.0@),
            plan_feasible(*instance, r.0@),
            r.1 == objective(*instance, tour@, r.0@),
            r.1 >= current_best_obj,
            r.1 == current_best_obj ==> r.0@ == current_packing@,
            no_improving_flip(*instance, tour@, r.0@),
            no_improving_flip(*instance, tour@, current_packing@) ==> r.0@ == current_packing@
                && r.1 == current_best_obj,
    {
        let mut best_packing = crate::solution::clone_indices(current_packing);
        let mut weight = plan_total_weight(instance, &best_packing);
        let mut obj = current_best_obj;
        let mut improved = true;
        proof {
            lemma_objective_upper(*instance, tour@, current_packing@);
        }
        while improved
            invariant
                instance.wf(),
                tour_ok(*instance, tour@),
                plan_ok(*instance, current_packing@),
                current_best_obj == objective(*instance, tour@, current_packing@),
                plan_ok(*instance, best_packing@),
                weight == plan_weight(*instance, best_packing@),
                weight <= instance.capacity_of_knapsack as u64,
                obj == objective(*instance, tour@, best_packing@),
                obj >= current_best_obj,
                obj == current_best_obj ==> best_packing@ == current_packing@,
                !improved ==> no_improving_flip(*instance, tour@, best_packing@),
                no_improving_flip(*instance, tour@, current_packing@) ==> best_packing@
                    == current_packing@ && obj == current_best_obj,
                obj <= 10_000_000_000_000_000_000,
            decreases
                    10_000_000_000_000_000_000 - obj,
                    (if improved {
                        1int
                    } else {
                        0int
                    }),
        {
            let changed = sweep_bit_flip(instance, tour, &mut best_packing, &mut weight, &mut obj);
            improved = changed;
            proof {
                lemma_objective_upper(*instance, tour@, best_packing@);
            }
        }
        (best_packing, obj)
    }

    /// Packing item-swap operator: repeat first-improvement exchange
    /// passes, restarting after each accepted swap, until one full pass
    /// accepts none. Every kept plan stays capacity-feasible.
    pub fn run_item_swap(
        instance: &Instance,
        tour: &Vec<usize>,
        current_packing: &Vec<usize>,
        current_best_obj: i128,
    ) -> (r: (Vec<usize>, i128))
        requires
            instance.wf(),
            tour_ok(*instance, tour@),
            plan_ok(*instance, current_packing@),
            plan_feasible(*instance, current_packing@),
            current_best_obj == objective(*instance, tour@, current_packing@),
        ensures
            plan_ok(*instance, r.0@),
            plan_feasible(*instance, r.0@),
            r.1 == objective(*instance, tour@, r.0@),
            r.1 >= current_best_obj,
            r.1 == current_best_obj ==> r.0@ == current_packing@,
            no_improving_item_swap(*instance, tour@, r.0@),
            no_improving_item_swap(*instance, tour@, current_packing@) ==> r.0@
                == current_packing@ && r.1 == current_best_obj,
    {
        let mut best_packing = crate::solution::clone_indices(current_packing);
        let mut weight = plan_total_weight(instance, &best_packing);
        let mut obj = current_best_obj;
        let mut improved = true;
        proof {
            lemma_objective_upper(*instance, tour@, current_packing@);
        }
        while improved
            invariant
                instance.wf(),
                tour_ok(*instance, tour@),
                plan_ok(*instance, current_packing@),
                current_best_obj == objective(*instance, tour@, current_packing@),
                plan_ok(*instance, best_packing@),
                weight == plan_weight(*instance, best_packing@),
                weight <= instance.capacity_of_knapsack as u64,
                obj == objective(*instance, tour@, best_packing@),
                obj >= current_best_obj,
                obj == current_best_obj ==> best_packing@ == current_packing@,
                !improved ==> no_improving_item_swap(*instance, tour@, best_packing@),
                no_improving_item_swap(*instance, tour@, current_packing@) ==> best_packing@
                    == current_packing@ && obj == current_best_obj,
                obj <= 10_000_000_000_000_000_000,
            decreases
                    10_000_000_000_000_000_000 - obj,
                    (if improved {
                        1int
                    } else {
                        0int
                    }),
        {
            let changed = sweep_item_swap(instance, tour, &mut best_packing, &mut weight, &mut obj);
            improved = changed;
            proof {
                lemma_objective_upper(*instance, tour@, best_packing@);
            }
        }
        (best_packing, obj)
    }

    /// Full hill-climbing orchestrator: cycle the reversal, position-swap,
    /// bit-flip and item-swap operators, each against the current
    /// incumbent, until one complete cycle yields no improvement. The
    /// objective never decreases; the returned pair is a true fixed point,
    /// and a pair that is already a fixed point comes back identical.
    pub fn optimize_full(instance: &Instance, tour: Vec<usize>, packing_plan: Vec<usize>) -> (r: (
        Vec<usize>,
        Vec<usize>,
    ))
        requires
            instance.wf(),
            tour_ok(*instance, tour@),
            plan_ok(*instance, packing_plan@),
            plan_feasible(*instance, packing_plan@),
        ensures
            tour_ok(*instance, r.0@),
            r.0@[0] == tour@[0],
            tour_perm(*instance, tour@) ==> tour_perm(*instance, r.0@),
            plan_ok(*instance, r.1@),
            plan_feasible(*instance, r.1@),
            objective(*instance, r.0@, r.1@) >= objective(*instance, tour@, packing_plan@),
            converged(*instance, r.0@, r.1@),
            converged(*instance, tour@, packing_plan@) ==> r.0@ == tour@ && r.1@
                == packing_plan@,
    {
        let ghost tour0 = tour@;
        let ghost plan0 = packing_plan@;
        let best_sol = Solution::evaluate(instance, &tour, &packing_plan);
        let mut best_obj = best_sol.ob;
        let mut best_tour = tour;
        let mut best_packing = packing_plan;
        let mut improved = true;
        proof {
            lemma_objective_upper(*instance, tour0, plan0);
        }
        while improved
            invariant
                instance.wf(),
                tour_ok(*instance, tour0),
                plan_ok(*instance, plan0),
                plan_feasible(*instance, plan0),
                tour_ok(*instance, best_tour@),
                best_tour@[0] == tour0[0],
                tour_perm(*instance, tour0) ==> tour_perm(*instance, best_tour@),
                plan_ok(*instance, best_packing@),
                plan_feasible(*instance, best_packing@),
                best_obj == objective(*instance, best_tour@, best_packing@),
                best_obj >= objective(*instance, tour0, plan0),
                !improved ==> converged(*instance, best_tour@, best_packing@),
                converged(*instance, tour0, plan0) ==> best_tour@ == tour0 && best_packing@
                    == plan0 && best_obj == objective(*instance, tour0, plan0),
                best_obj <= 10_000_000_000_000_000_000,
            decreases
                    10_000_000_000_000_000_000 - best_obj,
                    (if improved {
                        1int
                    } else {
                        0int
                    }),
        {
            improved = false;
            let (tour_2opt, obj_2opt) = Self::run_2opt(
                instance,
                &best_tour,
                &best_packing,
                best_obj,
            );
            if obj_2opt > best_obj {
                best_tour = tour_2opt;
                best_obj = obj_2opt;
                improved = true;
            }
            let (tour_swap, obj_swap) = Self::run_swap(
                instance,
                &best_tour,
                &best_packing,
                best_obj,
            );
            if obj_swap > best_obj {
                best_tour = tour_swap;
                best_obj = obj_swap;
                improved = true;
            }
            let (pack_flip, obj_flip) = Self::run_bit_flip(
                instance,
                &best_tour,
                &best_packing,
                best_obj,
            );
            if obj_flip > best_obj {
                best_packing = pack_flip;
                best_obj = obj_flip;
                improved = true;
            }
            let (pack_swap, obj_iswap) = Self::run_item_swap(
                instance,
                &best_tour,
                &best_packing,
                best_obj,
            );
            if obj_iswap > best_obj {
                best_packing = pack_swap;
                best_obj = obj_iswap;
                improved = true;
            }
            proof {
                lemma_objective_upper(*instance, best_tour@, best_packing@);
            }
        }
        (best_tour, best_packing)
    }

    /// Tour-only variant of the orchestrator: cycle the reversal and
    /// position-swap operators with the packing plan held fixed, until a
    /// complete cycle yields no improvement.
    pub fn optimize_tour(instance: &Instance, tour: Vec<usize>, packing_plan: Vec<usize>) -> (r: (
        Vec<usize>,
        Vec<usize>,
    ))
        requires
            instance.wf(),
            tour_ok(*instance, tour@),
            plan_ok(*instance, packing_plan@),
        ensures
            tour_ok(*instance, r.0@),
            r.0@[0] == tour@[0],
            tour_perm(*instance, tour@) ==> tour_perm(*instance, r.0@),
            r.1@ == packing_plan@,
            objective(*instance, r.0@, r.1@) >= objective(*instance, tour@, packing_plan@),
            tour_converged(*instance, r.0@, r.1@),
            tour_converged(*instance, tour@, packing_plan@) ==> r.0@ == tour@,
    {
        let ghost tour0 = tour@;
        let best_sol = Solution::evaluate(instance, &tour, &packing_plan);
        let mut best_obj = best_sol.ob;
        let mut best_tour = tour;
        let mut improved = true;
        proof {
            lemma_objective_upper(*instance, tour0, packing_plan@);
        }
        while improved
            invariant
                instance.wf(),
                tour_ok(*instance, tour0),
                plan_ok(*instance, packing_plan@),
                tour_ok(*instance, best_tour@),
                best_tour@[0] == tour0[0],
                tour_perm(*instance, tour0) ==> tour_perm(*instance, best_tour@),
                best_obj == objective(*instance, best_tour@, packing_plan@),
                best_obj >= objective(*instance, tour0, packing_plan@),
                !improved ==> tour_converged(*instance, best_tour@, packing_plan@),
                tour_converged(*instance, tour0, packing_plan@) ==> best_tour@ == tour0
                    && best_obj == objective(*instance, tour0, packing_plan@),
                best_obj <= 10_000_000_000_000_000_000,
            decreases
                    10_000_000_000_000_000_000 - best_obj,
                    (if improved {
                        1int
                    } else {
                        0int
                    }),
        {
            improved = false;
            let (tour_2opt, obj_2opt) = Self::run_2opt(
                instance,
                &best_tour,
                &packing_plan,
                best_obj,
            );
            if obj_2opt > best_obj {
                best_tour = tour_2opt;
                best_obj = obj_2opt;
                improved = true;
            }
            let (tour_swap, obj_swap) = Self::run_swap(
                instance,
                &best_tour,
                &packing_plan,
                best_obj,
            );
            if obj_swap > best_obj {
                best_tour = tour_swap;
                best_obj = obj_swap;
                improved = true;
            }
            proof {
                lemma_objective_upper(*instance, best_tour@, packing_plan@);
            }
        }
        (best_tour, packing_plan)
    }
}

} // verus!
