//! Greedy knapsack construction: fill the plan in descending
//! profit-per-weight order, taking every item that still fits.

use vstd::prelude::*;
use crate::instance::Instance;
use crate::objective::{
    lemma_plan_weight_bounds, lemma_plan_weight_monotone, lemma_plan_weight_update, plan_feasible,
    plan_ok, plan_weight,
};

verus! {

/// The plan that picks every item.
pub open spec fn full_plan(m: nat) -> Seq<usize> {
    Seq::new(m, |k: int| 1usize)
}

/// Whether item `x` has a strictly higher profit-per-weight ratio than
/// item `y`, compared exactly by cross-multiplication.
fn more_efficient(instance: &Instance, x: usize, y: usize) -> (b: bool)
    requires
        instance.wf(),
        x < instance.items@.len(),
        y < instance.items@.len(),
    ensures
        b == ((instance.items@[x as int].profit as int) * (instance.items@[y as int].weight as int)
            > (instance.items@[y as int].profit as int) * (instance.items@[x as int].weight as int)),
{
    proof {
        assert((instance.items@[x as int].profit as int) * (instance.items@[y as int].weight as int)
            <= 1_000_000_000_000_000_000 && (instance.items@[y as int].profit as int) * (
        instance.items@[x as int].weight as int) <= 1_000_000_000_000_000_000) by (nonlinear_arith)
            requires
                0 <= instance.items@[x as int].profit <= 1_000_000_000,
                0 <= instance.items@[x as int].weight <= 1_000_000_000,
                0 <= instance.items@[y as int].profit <= 1_000_000_000,
                0 <= instance.items@[y as int].weight <= 1_000_000_000,
        ;
    }
    (instance.items[x].profit as i128) * (instance.items[y].weight as i128) > (
    instance.items[y].profit as i128) * (instance.items[x].weight as i128)
}

/// Greedy profit-per-weight knapsack construction.
pub struct GreedyKP;

impl GreedyKP {
    /// Sort item positions by descending profit-per-weight ratio
    /// (compared exactly by cross-multiplication; a zero-weight item
    /// counts as infinitely efficient; ties keep their original order)
    /// and pick each item in that order whenever its weight still fits
    /// under the capacity. The result is always capacity-feasible, and
    /// picks everything whenever everything fits together. The tour does
    /// not influence the initial plan.
    #[verifier::loop_isolation(false)]
    pub fn solve(instance: &Instance, _tour: &Vec<usize>) -> (plan: Vec<usize>)
        requires
            instance.wf(),
        ensures
            plan_ok(*instance, plan@),
            plan_feasible(*instance, plan@),
            plan_weight(*instance, full_plan(instance.items@.len()))
                <= instance.capacity_of_knapsack ==> forall|j: int|
                0 <= j < plan@.len() ==> plan@[j] == 1,
            forall|j: int|
                0 <= j < plan@.len() && (#[trigger] plan@[j]) == 0 ==> plan_weight(*instance, plan@)
                    + instance.items@[j].weight > instance.capacity_of_knapsack,
    {
        let m = instance.items.len();
        // positions in their original order
        let mut order: Vec<usize> = Vec::new();
        for t in 0..m
            invariant
                order@.len() == t,
                forall|s: int| 0 <= s < t ==> (#[trigger] order@[s]) == s,
        {
            order.push(t);
        }
        proof {
            assert forall|j: usize| j < m implies #[trigger] order@.contains(j) by {
                assert(order@[j as int] == j);
            }
        }
        // stable insertion sort: bubble each position left while it is
        // strictly more efficient than its left neighbour
        let mut t: usize = 1;
        while t < m
            invariant
                1 <= t || m == 0,
                t <= m || m == 0,
                order@.len() == m,
                forall|s: int| 0 <= s < m ==> (#[trigger] order@[s]) < m,
                forall|a: int, b: int|
                    0 <= a < b < m ==> (#[trigger] order@[a]) != (#[trigger] order@[b]),
                forall|j: usize| j < m ==> #[trigger] order@.contains(j),
            decreases m - t,
        {
            let mut s: usize = t;
            while s > 0 && more_efficient(instance, order[s], order[s - 1])
                invariant
                    s <= t < m,
                    order@.len() == m,
                    forall|k: int| 0 <= k < m ==> (#[trigger] order@[k]) < m,
                    forall|a: int, b: int|
                        0 <= a < b < m ==> (#[trigger] order@[a]) != (#[trigger] order@[b]),
                    forall|j: usize| j < m ==> #[trigger] order@.contains(j),
                decreases s,
            {
                let ghost before = order@;
                let hi = order[s];
                let lo = order[s - 1];
                order[s] = lo;
                order[s - 1] = hi;
                proof {
                    assert forall|a: int, b: int| 0 <= a < b < m implies (#[trigger] order@[a]) != (
                    #[trigger] order@[b]) by {
                        let sa = if a == s - 1 {
                            s as int
                        } else if a == s {
                            s - 1
                        } else {
                            a
                        };
                        let sb = if b == s - 1 {
                            s as int
                        } else if b == s {
                            s - 1
                        } else {
                            b
                        };
                        assert(order@[a] == before[sa] && order@[b] == before[sb]);
                        if sa < sb {
                            assert(before[sa] != before[sb]);
                        } else {
                            assert(before[sb] != before[sa]);
                        }
                    }
                    assert forall|j: usize| j < m implies #[trigger] order@.contains(j) by {
                        assert(before.contains(j));
                        let w = choose|k: int| 0 <= k < before.len() && before[k] == j;
                        if w == s - 1 {
                            assert(order@[s as int] == j);
                        } else if w == s {
                            assert(order@[s - 1] == j);
                        } else {
                            assert(order@[w] == j);
                        }
                    }
                }
                s = s - 1;
            }
            t = t + 1;
        }
        // greedy fill along the sorted order
        let mut plan: Vec<usize> = Vec::new();
        for t in 0..m
            invariant
                plan@.len() == t,
                forall|k: int| 0 <= k < t ==> (#[trigger] plan@[k]) == 0,
        {
            plan.push(0);
        }
        let mut weight: u64 = 0;
        let cap = instance.capacity_of_knapsack as u64;
        let ghost full = full_plan(instance.items@.len());
        proof {
            crate::objective::lemma_plan_weight_zero(*instance, plan@, m as int);
        }
        for t in 0..m
            invariant
                order@.len() == m,
                plan@.len() == m,
                forall|s: int| 0 <= s < m ==> (#[trigger] order@[s]) < m,
                forall|a: int, b: int|
                    0 <= a < b < m ==> (#[trigger] order@[a]) != (#[trigger] order@[b]),
                forall|j: usize| j < m ==> #[trigger] order@.contains(j),
                forall|k: int| 0 <= k < m ==> (#[trigger] plan@[k]) == 0 || plan@[k] == 1,
                weight == plan_weight(*instance, plan@),
                weight <= cap,
                forall|s: int| t <= s < m ==> plan@[#[trigger] order@[s] as int] == 0,
                plan_weight(*instance, full) <= instance.capacity_of_knapsack ==> forall|s: int|
                    0 <= s < t ==> plan@[#[trigger] order@[s] as int] == 1,
                forall|s: int|
                    0 <= s < t && plan@[#[trigger] order@[s] as int] == 0 ==> weight
                        + instance.items@[order@[s] as int].weight
                        > instance.capacity_of_knapsack,
        {
            let j = order[t];
            let w = instance.items[j].weight as u64;
            let ghost prev = plan@;
            proof {
                lemma_plan_weight_bounds(*instance, plan@, m as int);
            }
            if weight + w <= cap {
                plan[j] = 1;
                weight = weight + w;
                proof {
                    lemma_plan_weight_update(*instance, prev, j as int, 1usize, m as int);
                }
            } else {
                proof {
                    if plan_weight(*instance, full) <= instance.capacity_of_knapsack {
                        lemma_plan_weight_update(*instance, full, j as int, 0usize, m as int);
                        lemma_plan_weight_monotone(
                            *instance,
                            prev,
                            full.update(j as int, 0usize),
                            m as int,
                        );
                        assert(false);
                    }
                }
            }
        }
        proof {
            if plan_weight(*instance, full) <= instance.capacity_of_knapsack {
                assert forall|j: int| 0 <= j < plan@.len() implies plan@[j] == 1 by {
                    assert(order@.contains(j as usize));
                    let s = choose|s: int| 0 <= s < order@.len() && order@[s] == j as usize;
                    assert(plan@[order@[s] as int] == 1);
                }
            }
            assert forall|j: int|
                0 <= j < plan@.len() && (#[trigger] plan@[j]) == 0 implies plan_weight(
                *instance,
                plan@,
            ) + instance.items@[j].weight > instance.capacity_of_knapsack by {
                assert(order@.contains(j as usize));
                let s = choose|s: int| 0 <= s < order@.len() && order@[s] == j as usize;
                assert(plan@[order@[s] as int] == 0);
            }
        }
        plan
    }
}

} // verus!
