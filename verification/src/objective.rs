//! Mathematical model of the TTP objective: what one full traversal of a
//! tour collects, how long it takes, and the resulting objective value.
//!
//! The traversal walks the tour as a cycle of `n` steps. Leaving the
//! departure node of a step, it first picks up every item located there
//! whose packing flag is set; the edge is then crossed at a velocity that
//! falls linearly from `max_speed` to `min_speed` as the carried weight
//! approaches the capacity (and is clamped at `min_speed` beyond it). The
//! objective is the collected profit minus the travel time times the
//! renting ratio.

use vstd::prelude::*;
use crate::instance::{Instance, SCALE, MAX_VALUE};
use crate::math::{spec_dist, MAX_DIST};

verus! {

/// A tour vector fit for evaluation: one entry per node, each a valid
/// 0-based node index.
pub open spec fn tour_ok(inst: Instance, tour: Seq<usize>) -> bool {
    &&& tour.len() == inst.nodes@.len()
    &&& forall|i: int| 0 <= i < tour.len() ==> (#[trigger] tour[i]) < inst.nodes@.len()
}

/// A tour that is moreover a permutation: no node index appears twice.
pub open spec fn tour_perm(inst: Instance, tour: Seq<usize>) -> bool {
    &&& tour_ok(inst, tour)
    &&& forall|i: int, j: int|
        0 <= i < j < tour.len() ==> (#[trigger] tour[i]) != (#[trigger] tour[j])
}

/// A packing plan fit for evaluation: one binary flag per item.
pub open spec fn plan_ok(inst: Instance, plan: Seq<usize>) -> bool {
    &&& plan.len() == inst.items@.len()
    &&& forall|j: int| 0 <= j < plan.len() ==> (#[trigger] plan[j]) == 0 || plan[j] == 1
}

/// Weight of the picked items among the first `j` items that lie at `node`.
pub open spec fn node_weight_upto(inst: Instance, plan: Seq<usize>, node: int, j: int) -> int
    decreases j,
{
    if j <= 0 {
        0
    } else {
        node_weight_upto(inst, plan, node, j - 1) + if inst.items@[j - 1].node == node && plan[j
            - 1] == 1 {
            inst.items@[j - 1].weight as int
        } else {
            0
        }
    }
}

/// Profit of the picked items among the first `j` items that lie at `node`.
pub open spec fn node_profit_upto(inst: Instance, plan: Seq<usize>, node: int, j: int) -> int
    decreases j,
{
    if j <= 0 {
        0
    } else {
        node_profit_upto(inst, plan, node, j - 1) + if inst.items@[j - 1].node == node && plan[j
            - 1] == 1 {
            inst.items@[j - 1].profit as int
        } else {
            0
        }
    }
}

/// Weight picked up when leaving `node`.
pub open spec fn node_weight(inst: Instance, plan: Seq<usize>, node: int) -> int {
    node_weight_upto(inst, plan, node, inst.items@.len() as int)
}

/// Profit picked up when leaving `node`.
pub open spec fn node_profit(inst: Instance, plan: Seq<usize>, node: int) -> int {
    node_profit_upto(inst, plan, node, inst.items@.len() as int)
}

/// Weight carried after leaving the first `k` tour positions; this is the
/// load on the edge out of `tour[k - 1]`.
pub open spec fn weight_at_step(inst: Instance, tour: Seq<usize>, plan: Seq<usize>, k: int) -> int
    decreases k,
{
    if k <= 0 {
        0
    } else {
        weight_at_step(inst, tour, plan, k - 1) + node_weight(inst, plan, tour[k - 1] as int)
    }
}

/// Profit collected after leaving the first `k` tour positions.
pub open spec fn profit_at_step(inst: Instance, tour: Seq<usize>, plan: Seq<usize>, k: int) -> int
    decreases k,
{
    if k <= 0 {
        0
    } else {
        profit_at_step(inst, tour, plan, k - 1) + node_profit(inst, plan, tour[k - 1] as int)
    }
}

/// Velocity under carried weight `w`: linear interpolation between
/// `max_speed` and `min_speed` proportional to `w / capacity`, clamped to
/// `min_speed` when the load exceeds the capacity.
pub open spec fn spec_velocity(inst: Instance, w: int) -> int {
    let cap = inst.capacity_of_knapsack as int;
    if w > cap {
        inst.min_speed as int
    } else if cap > 0 {
        inst.max_speed - (w * (inst.max_speed - inst.min_speed)) / cap
    } else {
        inst.max_speed as int
    }
}

/// Fixed-point travel time of step `i`: the edge from `tour[i]` to its
/// cyclic successor, crossed under the weight carried after the pickup at
/// `tour[i]`.
pub open spec fn step_time(inst: Instance, tour: Seq<usize>, plan: Seq<usize>, i: int) -> int {
    let n = tour.len() as int;
    let d = spec_dist(inst.nodes@[tour[i] as int], inst.nodes@[tour[((i + 1) % n) as int] as int]);
    d * (SCALE as int) / spec_velocity(inst, weight_at_step(inst, tour, plan, i + 1))
}

/// Total fixed-point travel time of the first `k` steps.
pub open spec fn time_at_step(inst: Instance, tour: Seq<usize>, plan: Seq<usize>, k: int) -> int
    decreases k,
{
    if k <= 0 {
        0
    } else {
        time_at_step(inst, tour, plan, k - 1) + step_time(inst, tour, plan, k - 1)
    }
}

/// Total profit of one full traversal.
pub open spec fn total_profit(inst: Instance, tour: Seq<usize>, plan: Seq<usize>) -> int {
    profit_at_step(inst, tour, plan, tour.len() as int)
}

/// Final carried weight of one full traversal.
pub open spec fn total_weight(inst: Instance, tour: Seq<usize>, plan: Seq<usize>) -> int {
    weight_at_step(inst, tour, plan, tour.len() as int)
}

/// Total fixed-point travel time of one full traversal.
pub open spec fn total_time(inst: Instance, tour: Seq<usize>, plan: Seq<usize>) -> int {
    time_at_step(inst, tour, plan, tour.len() as int)
}

/// The objective: profit minus time times renting ratio (both operands
/// fixed-point, the product rescaled once).
pub open spec fn objective(inst: Instance, tour: Seq<usize>, plan: Seq<usize>) -> int {
    total_profit(inst, tour, plan) - total_time(inst, tour, plan) * (inst.renting_ratio as int)
        / (SCALE as int)
}

/// Weight of the picked items among the first `j` items, regardless of
/// where they lie: what the packing operators gate against the capacity.
pub open spec fn plan_weight_upto(inst: Instance, plan: Seq<usize>, j: int) -> int
    decreases j,
{
    if j <= 0 {
        0
    } else {
        plan_weight_upto(inst, plan, j - 1) + if plan[j - 1] == 1 {
            inst.items@[j - 1].weight as int
        } else {
            0
        }
    }
}

/// Total weight of the packing plan.
pub open spec fn plan_weight(inst: Instance, plan: Seq<usize>) -> int {
    plan_weight_upto(inst, plan, inst.items@.len() as int)
}

/// A capacity-feasible plan.
pub open spec fn plan_feasible(inst: Instance, plan: Seq<usize>) -> bool {
    plan_weight(inst, plan) <= inst.capacity_of_knapsack as int
}

/// Profit of the picked items among the first `j` items, regardless of
/// where they lie.
pub open spec fn plan_profit_upto(inst: Instance, plan: Seq<usize>, j: int) -> int
    decreases j,
{
    if j <= 0 {
        0
    } else {
        plan_profit_upto(inst, plan, j - 1) + if plan[j - 1] == 1 {
            inst.items@[j - 1].profit as int
        } else {
            0
        }
    }
}

/// Total profit of the packing plan.
pub open spec fn plan_profit(inst: Instance, plan: Seq<usize>) -> int {
    plan_profit_upto(inst, plan, inst.items@.len() as int)
}

// ---------------------------------------------------------------------
// Bounds. These keep the evaluator inside its integer types.
// ---------------------------------------------------------------------

/// Per-node pickup sums are non-negative and at most `j * MAX_VALUE`.
pub proof fn lemma_node_sums_bounds(inst: Instance, plan: Seq<usize>, node: int, j: int)
    requires
        inst.bounded(),
        0 <= j <= inst.items@.len(),
    ensures
        0 <= node_weight_upto(inst, plan, node, j) <= j * MAX_VALUE,
        0 <= node_profit_upto(inst, plan, node, j) <= j * MAX_VALUE,
    decreases j,
{
    if j > 0 {
        lemma_node_sums_bounds(inst, plan, node, j - 1);
    }
}

/// Carried weight and collected profit after `k` steps are non-negative
/// and at most `k * 100_000 * MAX_VALUE`.
pub proof fn lemma_step_sums_bounds(inst: Instance, tour: Seq<usize>, plan: Seq<usize>, k: int)
    requires
        inst.bounded(),
        0 <= k,
    ensures
        0 <= weight_at_step(inst, tour, plan, k) <= k * 100_000_000_000_000,
        0 <= profit_at_step(inst, tour, plan, k) <= k * 100_000_000_000_000,
    decreases k,
{
    if k > 0 {
        lemma_step_sums_bounds(inst, tour, plan, k - 1);
        lemma_node_sums_bounds(inst, plan, tour[k - 1] as int, inst.items@.len() as int);
        assert(inst.items@.len() as int * MAX_VALUE <= 100_000_000_000_000);
    }
}

/// Velocity stays between `min_speed` and `max_speed` for non-negative
/// loads, hence is positive.
pub proof fn lemma_velocity_bounds(inst: Instance, w: int)
    requires
        inst.wf(),
        0 <= w,
    ensures
        inst.min_speed <= spec_velocity(inst, w) <= inst.max_speed,
{
    let cap = inst.capacity_of_knapsack as int;
    let delta = inst.max_speed - inst.min_speed;
    if w > cap {
    } else if cap > 0 {
        assert(0 <= w * delta <= cap * delta) by (nonlinear_arith)
            requires
                0 <= w <= cap,
                0 <= delta,
        ;
        vstd::arithmetic::div_mod::lemma_div_pos_is_pos(w * delta, cap);
        vstd::arithmetic::div_mod::lemma_div_is_ordered(w * delta, cap * delta, cap);
        vstd::arithmetic::div_mod::lemma_div_multiples_vanish(delta, cap);
    }
}

/// Each step's time is non-negative and below `MAX_DIST * SCALE`.
pub proof fn lemma_step_time_bounds(inst: Instance, tour: Seq<usize>, plan: Seq<usize>, i: int)
    requires
        inst.wf(),
        tour_ok(inst, tour),
        0 <= i < tour.len(),
    ensures
        0 <= step_time(inst, tour, plan, i) < (MAX_DIST as int) * (SCALE as int),
    decreases i,
{
    let n = tour.len() as int;
    let a = inst.nodes@[tour[i] as int];
    let b = inst.nodes@[tour[((i + 1) % n) as int] as int];
    assert(0 <= (i + 1) % n < n) by {
        vstd::arithmetic::div_mod::lemma_mod_bound(i + 1, n);
    }
    crate::math::lemma_dist_bounds(a, b);
    let d = spec_dist(a, b);
    lemma_step_sums_bounds(inst, tour, plan, i + 1);
    let w = weight_at_step(inst, tour, plan, i + 1);
    lemma_velocity_bounds(inst, w);
    let v = spec_velocity(inst, w);
    vstd::arithmetic::div_mod::lemma_div_pos_is_pos(d * (SCALE as int), v);
    vstd::arithmetic::div_mod::lemma_div_nonincreasing(d * (SCALE as int), v);
    assert(0 <= d * (SCALE as int) < (MAX_DIST as int) * (SCALE as int)) by (nonlinear_arith)
        requires
            0 <= d < MAX_DIST,
    ;
}

/// Total time after `k` steps is non-negative and at most
/// `k * MAX_DIST * SCALE`.
pub proof fn lemma_time_bounds(inst: Instance, tour: Seq<usize>, plan: Seq<usize>, k: int)
    requires
        inst.wf(),
        tour_ok(inst, tour),
        0 <= k <= tour.len(),
    ensures
        0 <= time_at_step(inst, tour, plan, k) <= k * 3_000_000_000_000,
    decreases k,
{
    if k > 0 {
        lemma_time_bounds(inst, tour, plan, k - 1);
        lemma_step_time_bounds(inst, tour, plan, k - 1);
    }
}

/// Plan weights are non-negative and at most `j * MAX_VALUE`.
pub proof fn lemma_plan_weight_bounds(inst: Instance, plan: Seq<usize>, j: int)
    requires
        inst.bounded(),
        0 <= j <= inst.items@.len(),
    ensures
        0 <= plan_weight_upto(inst, plan, j) <= j * MAX_VALUE,
    decreases j,
{
    if j > 0 {
        lemma_plan_weight_bounds(inst, plan, j - 1);
    }
}

/// A plan with no flag set weighs nothing.
pub proof fn lemma_plan_weight_zero(inst: Instance, plan: Seq<usize>, j: int)
    requires
        forall|k: int| 0 <= k < j ==> (#[trigger] plan[k]) != 1,
    ensures
        plan_weight_upto(inst, plan, j) == 0,
    decreases j,
{
    if j > 0 {
        lemma_plan_weight_zero(inst, plan, j - 1);
    }
}

/// A plan that picks pointwise no more than another weighs no more.
pub proof fn lemma_plan_weight_monotone(inst: Instance, p1: Seq<usize>, p2: Seq<usize>, j: int)
    requires
        inst.bounded(),
        0 <= j <= inst.items@.len(),
        forall|k: int| 0 <= k < j ==> (#[trigger] p1[k]) == 1 ==> p2[k] == 1,
    ensures
        plan_weight_upto(inst, p1, j) <= plan_weight_upto(inst, p2, j),
    decreases j,
{
    if j > 0 {
        lemma_plan_weight_monotone(inst, p1, p2, j - 1);
    }
}

/// Updating one flag changes the plan weight by exactly that item's
/// contribution.
pub proof fn lemma_plan_weight_update(
    inst: Instance,
    plan: Seq<usize>,
    i: int,
    v: usize,
    j: int,
)
    requires
        0 <= i < plan.len(),
        0 <= j <= plan.len(),
    ensures
        plan_weight_upto(inst, plan.update(i, v), j) == plan_weight_upto(inst, plan, j) + if i < j {
            (if v == 1 {
                inst.items@[i].weight as int
            } else {
                0
            }) - (if plan[i] == 1 {
                inst.items@[i].weight as int
            } else {
                0
            })
        } else {
            0
        },
    decreases j,
{
    if j > 0 {
        lemma_plan_weight_update(inst, plan, i, v, j - 1);
    }
}

/// Whether `v` occurs among the first `k` tour entries.
pub open spec fn in_prefix(tour: Seq<usize>, k: int, v: int) -> bool {
    exists|i: int| 0 <= i < k && (#[trigger] tour[i]) == v
}

/// Per-node pickups summed over the nodes below `v`, counting only the
/// items below `j`.
spec fn nodes_weight_sum(inst: Instance, plan: Seq<usize>, v: int, j: int) -> int
    decreases v,
{
    if v <= 0 {
        0
    } else {
        nodes_weight_sum(inst, plan, v - 1, j) + node_weight_upto(inst, plan, v - 1, j)
    }
}

/// Profit analog of `nodes_weight_sum`.
spec fn nodes_profit_sum(inst: Instance, plan: Seq<usize>, v: int, j: int) -> int
    decreases v,
{
    if v <= 0 {
        0
    } else {
        nodes_profit_sum(inst, plan, v - 1, j) + node_profit_upto(inst, plan, v - 1, j)
    }
}

/// Per-node pickups summed over the nodes below `v` that the first `k`
/// tour entries visit.
spec fn visited_weight_sum(inst: Instance, plan: Seq<usize>, tour: Seq<usize>, k: int, v: int) -> int
    decreases v,
{
    if v <= 0 {
        0
    } else {
        visited_weight_sum(inst, plan, tour, k, v - 1) + if in_prefix(tour, k, v - 1) {
            node_weight(inst, plan, v - 1)
        } else {
            0
        }
    }
}

/// Profit analog of `visited_weight_sum`.
spec fn visited_profit_sum(inst: Instance, plan: Seq<usize>, tour: Seq<usize>, k: int, v: int) -> int
    decreases v,
{
    if v <= 0 {
        0
    } else {
        visited_profit_sum(inst, plan, tour, k, v - 1) + if in_prefix(tour, k, v - 1) {
            node_profit(inst, plan, v - 1)
        } else {
            0
        }
    }
}

/// Admitting one more item adds its contribution at exactly its home
/// node.
proof fn lemma_nodes_sum_step(inst: Instance, plan: Seq<usize>, v: int, j: int)
    requires
        0 <= v,
        0 <= j < inst.items@.len(),
    ensures
        nodes_weight_sum(inst, plan, v, j + 1) == nodes_weight_sum(inst, plan, v, j) + (
        if inst.items@[j].node < v && plan[j] == 1 {
            inst.items@[j].weight as int
        } else {
            0
        }),
        nodes_profit_sum(inst, plan, v, j + 1) == nodes_profit_sum(inst, plan, v, j) + (
        if inst.items@[j].node < v && plan[j] == 1 {
            inst.items@[j].profit as int
        } else {
            0
        }),
    decreases v,
{
    if v > 0 {
        lemma_nodes_sum_step(inst, plan, v - 1, j);
    }
}

/// With no items admitted, per-node sums vanish.
proof fn lemma_nodes_sum_zero(inst: Instance, plan: Seq<usize>, v: int)
    requires
        0 <= v,
    ensures
        nodes_weight_sum(inst, plan, v, 0) == 0,
        nodes_profit_sum(inst, plan, v, 0) == 0,
    decreases v,
{
    if v > 0 {
        lemma_nodes_sum_zero(inst, plan, v - 1);
    }
}

/// Exchange of summation: summing pickups node by node equals summing
/// the plan item by item, once every home node lies below `v`.
proof fn lemma_nodes_sum_exchange(inst: Instance, plan: Seq<usize>, v: int, j: int)
    requires
        0 <= v,
        0 <= j <= inst.items@.len(),
        plan.len() == inst.items@.len(),
        forall|q: int| 0 <= q < inst.items@.len() ==> (#[trigger] inst.items@[q]).node < v,
    ensures
        nodes_weight_sum(inst, plan, v, j) == plan_weight_upto(inst, plan, j),
        nodes_profit_sum(inst, plan, v, j) == plan_profit_upto(inst, plan, j),
    decreases j,
{
    if j > 0 {
        lemma_nodes_sum_exchange(inst, plan, v, j - 1);
        lemma_nodes_sum_step(inst, plan, v, j - 1);
    } else {
        lemma_nodes_sum_zero(inst, plan, v);
    }
}

/// An empty tour prefix has visited nothing.
proof fn lemma_visited_sum_zero(inst: Instance, plan: Seq<usize>, tour: Seq<usize>, v: int)
    requires
        0 <= v,
    ensures
        visited_weight_sum(inst, plan, tour, 0, v) == 0,
        visited_profit_sum(inst, plan, tour, 0, v) == 0,
    decreases v,
{
    if v > 0 {
        lemma_visited_sum_zero(inst, plan, tour, v - 1);
    }
}

/// Taking one more tour step adds exactly that node's pickup, provided
/// the step visits a fresh node.
proof fn lemma_visited_sum_step(
    inst: Instance,
    plan: Seq<usize>,
    tour: Seq<usize>,
    k: int,
    v: int,
)
    requires
        0 <= k < tour.len(),
        0 <= v,
        !in_prefix(tour, k, tour[k] as int),
    ensures
        visited_weight_sum(inst, plan, tour, k + 1, v) == visited_weight_sum(
            inst,
            plan,
            tour,
            k,
            v,
        ) + (if (tour[k] as int) < v {
            node_weight(inst, plan, tour[k] as int)
        } else {
            0
        }),
        visited_profit_sum(inst, plan, tour, k + 1, v) == visited_profit_sum(
            inst,
            plan,
            tour,
            k,
            v,
        ) + (if (tour[k] as int) < v {
            node_profit(inst, plan, tour[k] as int)
        } else {
            0
        }),
    decreases v,
{
    if v > 0 {
        lemma_visited_sum_step(inst, plan, tour, k, v - 1);
        if v - 1 == tour[k] as int {
            assert(in_prefix(tour, k + 1, v - 1)) by {
                assert(tour[k] == (v - 1) as usize);
            }
        } else {
            if in_prefix(tour, k + 1, v - 1) {
                let i = choose|i: int| 0 <= i < k + 1 && (#[trigger] tour[i]) == v - 1;
                assert(i < k);
                assert(in_prefix(tour, k, v - 1));
            }
            if in_prefix(tour, k, v - 1) {
                let i = choose|i: int| 0 <= i < k && (#[trigger] tour[i]) == v - 1;
                assert(in_prefix(tour, k + 1, v - 1));
            }
        }
    }
}

/// Over a duplicate-free tour, the running traversal sums equal the
/// visited-node sums.
proof fn lemma_step_sums_are_visited_sums(
    inst: Instance,
    plan: Seq<usize>,
    tour: Seq<usize>,
    k: int,
    v: int,
)
    requires
        0 <= k <= tour.len(),
        0 <= v,
        forall|a: int, b: int|
            0 <= a < b < tour.len() ==> (#[trigger] tour[a]) != (#[trigger] tour[b]),
        forall|i: int| 0 <= i < tour.len() ==> (#[trigger] tour[i]) < v,
    ensures
        weight_at_step(inst, tour, plan, k) == visited_weight_sum(inst, plan, tour, k, v),
        profit_at_step(inst, tour, plan, k) == visited_profit_sum(inst, plan, tour, k, v),
    decreases k,
{
    if k == 0 {
        lemma_visited_sum_zero(inst, plan, tour, v);
    } else {
        lemma_step_sums_are_visited_sums(inst, plan, tour, k - 1, v);
        assert(!in_prefix(tour, k - 1, tour[k - 1] as int)) by {
            if in_prefix(tour, k - 1, tour[k - 1] as int) {
                let i = choose|i: int|
                    0 <= i < k - 1 && (#[trigger] tour[i]) == tour[k - 1] as int;
                assert(tour[i] != tour[k - 1]);
            }
        }
        lemma_visited_sum_step(inst, plan, tour, k - 1, v);
    }
}

/// Where the whole tour covers every node below `v`, the visited sums
/// are the full per-node sums.
proof fn lemma_visited_sum_full(inst: Instance, plan: Seq<usize>, tour: Seq<usize>, v: int)
    requires
        0 <= v,
        forall|w: int| 0 <= w < v ==> in_prefix(tour, tour.len() as int, w),
    ensures
        visited_weight_sum(inst, plan, tour, tour.len() as int, v) == nodes_weight_sum(
            inst,
            plan,
            v,
            inst.items@.len() as int,
        ),
        visited_profit_sum(inst, plan, tour, tour.len() as int, v) == nodes_profit_sum(
            inst,
            plan,
            v,
            inst.items@.len() as int,
        ),
    decreases v,
{
    if v > 0 {
        lemma_visited_sum_full(inst, plan, tour, v - 1);
    }
}

/// A permutation tour visits every node index below its length.
proof fn lemma_tour_covers(inst: Instance, tour: Seq<usize>)
    requires
        tour_perm(inst, tour),
    ensures
        forall|v: int| 0 <= v < tour.len() ==> in_prefix(tour, tour.len() as int, v),
{
    broadcast use vstd::set::group_set_axioms;
    broadcast use vstd::seq_lib::seq_to_set_is_finite;

    let n = tour.len() as int;
    let t = tour.map_values(|x: usize| x as int);
    assert(t.no_duplicates()) by {
        assert forall|a: int, b: int|
            0 <= a < t.len() && 0 <= b < t.len() && a != b implies t[a] != t[b] by {
            if a < b {
                assert(tour[a] != tour[b]);
            } else {
                assert(tour[b] != tour[a]);
            }
        }
    }
    t.unique_seq_to_set();
    let range = vstd::set_lib::set_int_range(0, n);
    vstd::set_lib::lemma_int_range(0, n);
    assert(t.to_set().subset_of(range)) by {
        assert forall|x: int| t.to_set().contains(x) implies range.contains(x) by {
            let i = choose|i: int| 0 <= i < t.len() && t[i] == x;
            assert(tour[i] < n);
        }
    }
    vstd::set_lib::lemma_subset_equality(t.to_set(), range);
    assert forall|v: int| 0 <= v < tour.len() implies in_prefix(tour, tour.len() as int, v) by {
        assert(range.contains(v));
        assert(t.to_set().contains(v));
        assert(t.contains(v));
        let i = choose|i: int| 0 <= i < t.len() && t[i] == v;
        assert(tour[i] == v);
    }
}

/// Over a permutation tour, one full traversal collects exactly the
/// plan's items: the final carried weight is the plan's total weight and
/// the collected profit the plan's total profit.
pub proof fn lemma_traversal_collects_plan(inst: Instance, tour: Seq<usize>, plan: Seq<usize>)
    requires
        inst.wf(),
        tour_perm(inst, tour),
        plan_ok(inst, plan),
    ensures
        total_weight(inst, tour, plan) == plan_weight(inst, plan),
        total_profit(inst, tour, plan) == plan_profit(inst, plan),
{
    let n = tour.len() as int;
    let m = inst.items@.len() as int;
    lemma_step_sums_are_visited_sums(inst, plan, tour, n, n);
    lemma_tour_covers(inst, tour);
    lemma_visited_sum_full(inst, plan, tour, n);
    lemma_nodes_sum_exchange(inst, plan, n, m);
}

/// The objective never exceeds the collected profit, which gives it the
/// upper bound used as a termination measure for the search loops.
pub proof fn lemma_objective_upper(inst: Instance, tour: Seq<usize>, plan: Seq<usize>)
    requires
        inst.wf(),
        tour_ok(inst, tour),
    ensures
        objective(inst, tour, plan) <= 10_000_000_000_000_000_000,
{
    lemma_step_sums_bounds(inst, tour, plan, tour.len() as int);
    lemma_time_bounds(inst, tour, plan, tour.len() as int);
    let t = total_time(inst, tour, plan);
    let r = inst.renting_ratio as int;
    assert(0 <= t * r) by (nonlinear_arith)
        requires
            0 <= t,
            0 <= r,
    ;
    vstd::arithmetic::div_mod::lemma_div_pos_is_pos(t * r, SCALE as int);
    assert(tour.len() as int * 100_000_000_000_000 <= 10_000_000_000_000_000_000);
}

} // verus!
