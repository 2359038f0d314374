//! The objective evaluator: one full traversal of a (tour, packing plan)
//! pair against an instance, producing a `Solution` whose every field is
//! pinned to the traversal model of `objective`.

use vstd::prelude::*;
use crate::instance::{Instance, SCALE};
use crate::math::distance;
use crate::objective::{
    lemma_node_sums_bounds, lemma_step_sums_bounds, lemma_step_time_bounds, lemma_time_bounds,
    lemma_velocity_bounds, node_profit_upto, node_weight_upto, objective, plan_ok, profit_at_step,
    spec_velocity, step_time, time_at_step, total_profit, total_time, total_weight, tour_ok,
    weight_at_step,
};

verus! {

/// The immutable result of evaluating a (tour, packing plan) pair: profit,
/// travel time (twice, one slot kept for a raw variant), objective, final
/// carried weight (twice, one slot kept for the used-capacity reading) and
/// an optional computation duration in milliseconds, zero when unused.
#[derive(Clone, Debug, PartialEq)]
pub struct Solution {
    pub tsp_tour: Vec<usize>,
    pub packing_plan: Vec<usize>,
    pub fp: i128,
    pub ft: i128,
    pub ftraw: i128,
    pub ob: i128,
    pub wend: i128,
    pub wend_used: i128,
    pub computation_time: u64,
}

/// Everything evaluation promises of its result: each field is a function
/// of the instance, tour and plan alone.
pub open spec fn solution_of(
    inst: Instance,
    tour: Seq<usize>,
    plan: Seq<usize>,
    s: Solution,
) -> bool {
    &&& s.tsp_tour@ == tour
    &&& s.packing_plan@ == plan
    &&& s.fp == total_profit(inst, tour, plan)
    &&& s.ft == total_time(inst, tour, plan)
    &&& s.ftraw == s.ft
    &&& s.ob == objective(inst, tour, plan)
    &&& s.wend == total_weight(inst, tour, plan)
    &&& s.wend_used == s.wend
    &&& s.computation_time == 0
}

/// Evaluation is a pure function: two solutions of the same inputs agree
/// in every field.
pub proof fn lemma_evaluate_deterministic(
    inst: Instance,
    tour: Seq<usize>,
    plan: Seq<usize>,
    s1: Solution,
    s2: Solution,
)
    requires
        solution_of(inst, tour, plan, s1),
        solution_of(inst, tour, plan, s2),
    ensures
        s1.tsp_tour@ == s2.tsp_tour@,
        s1.packing_plan@ == s2.packing_plan@,
        s1.fp == s2.fp,
        s1.ft == s2.ft,
        s1.ftraw == s2.ftraw,
        s1.ob == s2.ob,
        s1.wend == s2.wend,
        s1.wend_used == s2.wend_used,
        s1.computation_time == s2.computation_time,
{
}

/// Velocity under carried weight `w`, in fixed-point raw units.
/// Positive for every well-formed instance, so no division by zero can
/// reach the time accumulation.
fn velocity(instance: &Instance, w: u128) -> (v: i64)
    requires
        instance.wf(),
    ensures
        v == spec_velocity(*instance, w as int),
        instance.min_speed <= v <= instance.max_speed,
{
    proof {
        lemma_velocity_bounds(*instance, w as int);
    }
    let cap = instance.capacity_of_knapsack;
    if w > cap as u128 {
        instance.min_speed
    } else if cap > 0 {
        let delta = instance.max_speed - instance.min_speed;
        assert(w * (delta as u128) <= 1_000_000_000_000_000_000u128) by (nonlinear_arith)
            requires
                w <= 1_000_000_000u128,
                delta as u128 <= 1_000_000_000u128,
        ;
        let red = w * (delta as u128) / (cap as u128);
        assert(red == (w as int) * (delta as int) / (cap as int));
        assert(red <= delta) by {
            assert((w as int) * delta <= (cap as int) * delta) by (nonlinear_arith)
                requires
                    0 <= w as int <= cap as int,
                    0 <= delta,
            ;
            vstd::arithmetic::div_mod::lemma_div_is_ordered(
                (w as int) * delta,
                (cap as int) * delta,
                cap as int,
            );
            vstd::arithmetic::div_mod::lemma_div_multiples_vanish(delta as int, cap as int);
        }
        instance.max_speed - red as i64
    } else {
        instance.max_speed
    }
}

impl Solution {
    /// Simulate one full traversal of `tour` under `packing_plan` and
    /// report profit, time, objective and final carried weight. Purely
    /// functional over its inputs; capacity overruns are not rejected but
    /// degrade the velocity (clamped at `min_speed`).
    #[verifier::loop_isolation(false)]
    pub fn evaluate(instance: &Instance, tour: &Vec<usize>, packing_plan: &Vec<usize>) -> (sol:
        Solution)
        requires
            instance.wf(),
            tour_ok(*instance, tour@),
            plan_ok(*instance, packing_plan@),
        ensures
            solution_of(*instance, tour@, packing_plan@, sol),
    {
        let n = tour.len();
        let m = packing_plan.len();
        let mut weight: u128 = 0;
        let mut profit: u128 = 0;
        let mut time: u128 = 0;
        for i in 0..n
            invariant
                weight == weight_at_step(*instance, tour@, packing_plan@, i as int),
                profit == profit_at_step(*instance, tour@, packing_plan@, i as int),
                time == time_at_step(*instance, tour@, packing_plan@, i as int),
        {
            proof {
                lemma_step_sums_bounds(*instance, tour@, packing_plan@, i as int);
                lemma_time_bounds(*instance, tour@, packing_plan@, i as int);
            }
            let c = tour[i];
            for j in 0..m
                invariant
                    c == tour@[i as int],
                    weight == weight_at_step(*instance, tour@, packing_plan@, i as int)
                        + node_weight_upto(*instance, packing_plan@, c as int, j as int),
                    profit == profit_at_step(*instance, tour@, packing_plan@, i as int)
                        + node_profit_upto(*instance, packing_plan@, c as int, j as int),
            {
                proof {
                    lemma_step_sums_bounds(*instance, tour@, packing_plan@, i as int);
                    lemma_node_sums_bounds(*instance, packing_plan@, c as int, j as int);
                }
                if packing_plan[j] == 1 && instance.items[j].node == c {
                    weight = weight + instance.items[j].weight as u128;
                    profit = profit + instance.items[j].profit as u128;
                }
            }
            assert(weight == weight_at_step(*instance, tour@, packing_plan@, i + 1));
            assert(profit == profit_at_step(*instance, tour@, packing_plan@, i + 1));
            let nxt = tour[(i + 1) % n];
            let d = distance(&instance.nodes[c], &instance.nodes[nxt]);
            let v = velocity(instance, weight);
            let dt = (d as u128) * (SCALE as u128) / (v as u128);
            assert(dt == step_time(*instance, tour@, packing_plan@, i as int));
            proof {
                lemma_step_time_bounds(*instance, tour@, packing_plan@, i as int);
            }
            time = time + dt;
        }
        proof {
            lemma_step_sums_bounds(*instance, tour@, packing_plan@, n as int);
            lemma_time_bounds(*instance, tour@, packing_plan@, n as int);
        }
        proof {
            assert(time as int <= 300_000_000_000_000_000);
            assert(0 <= time as int * (instance.renting_ratio as int) <= time as int
                * 1_000_000_000) by (nonlinear_arith)
                requires
                    0 <= time as int,
                    0 <= instance.renting_ratio as int <= 1_000_000_000,
            ;
            assert(time as int * 1_000_000_000 <= 300_000_000_000_000_000_000_000_000)
                by (nonlinear_arith)
                requires
                    0 <= time as int <= 300_000_000_000_000_000,
            ;
            vstd::arithmetic::div_mod::lemma_div_pos_is_pos(
                time as int * (instance.renting_ratio as int),
                SCALE as int,
            );
            vstd::arithmetic::div_mod::lemma_div_is_ordered(
                time as int * (instance.renting_ratio as int),
                time as int * 1_000_000_000,
                SCALE as int,
            );
            vstd::arithmetic::div_mod::lemma_div_nonincreasing(
                time as int * (instance.renting_ratio as int),
                SCALE as int,
            );
        }
        let rent = time * (instance.renting_ratio as u128) / (SCALE as u128);
        assert(rent == total_time(*instance, tour@, packing_plan@) * (
        instance.renting_ratio as int) / (SCALE as int));
        let ob = profit as i128 - (rent as i128);
        let sol = Solution {
            tsp_tour: clone_indices(tour),
            packing_plan: clone_indices(packing_plan),
            fp: profit as i128,
            ft: time as i128,
            ftraw: time as i128,
            ob,
            wend: weight as i128,
            wend_used: weight as i128,
            computation_time: 0,
        };
        sol
    }
}

impl Solution {
    /// This solution as the two-line file text: the tour as 1-based
    /// identifiers, then the ascending 1-based identifiers of the picked
    /// items.
    pub fn answer(&self) -> (r: Vec<u8>)
        requires
            forall|k: int|
                0 <= k < self.tsp_tour@.len() ==> (#[trigger] self.tsp_tour@[k]) < usize::MAX,
        ensures
            r@ == crate::codec::render_solution(self.tsp_tour@, self.packing_plan@),
    {
        crate::codec::render_solution_bytes(&self.tsp_tour, &self.packing_plan)
    }
}

/// Why `try_evaluate` refuses its inputs instead of evaluating them.
#[derive(Clone, Copy, Debug, PartialEq, Eq, Structural)]
pub enum EvalError {
    /// Zero nodes, capacity not positive with items present, speeds not
    /// positive or inverted, a negative renting ratio, an item whose home
    /// node does not exist, or inconsistent identifiers.
    DegenerateInstance,
    /// Tour length (after dropping a trailing repeat of the first node)
    /// differs from the node count.
    TourLengthMismatch,
    /// A tour entry is not a valid 0-based node index.
    TourIndexOutOfRange,
    /// Packing plan length differs from the item count.
    PackingLengthMismatch,
    /// A packing plan entry is neither 0 nor 1.
    PackingNotBinary,
}

/// The tour as evaluated: a trailing repeat of the first node, if the
/// caller appended one to close the cycle, is dropped.
pub open spec fn dedup_tour(tour: Seq<usize>) -> Seq<usize> {
    if tour.len() >= 2 && tour[0] == tour[tour.len() - 1] {
        tour.drop_last()
    } else {
        tour
    }
}

impl Solution {
    /// Checked evaluation entry for inputs of unknown provenance: refuses
    /// to evaluate — rather than truncating, padding or dividing by zero —
    /// exactly when the instance is degenerate or the tour or plan breaks
    /// its length or range contract, in that order of checks.
    #[verifier::loop_isolation(false)]
    pub fn try_evaluate(instance: &Instance, tour: &Vec<usize>, packing_plan: &Vec<usize>) -> (r:
        Result<Solution, EvalError>)
        requires
            instance.bounded(),
        ensures
            ({
                let t = dedup_tour(tour@);
                if !instance.valid() {
                    r == Result::<Solution, EvalError>::Err(EvalError::DegenerateInstance)
                } else if t.len() != instance.nodes@.len() {
                    r == Result::<Solution, EvalError>::Err(EvalError::TourLengthMismatch)
                } else if exists|i: int| 0 <= i < t.len() && (#[trigger] t[i])
                    >= instance.nodes@.len() {
                    r == Result::<Solution, EvalError>::Err(EvalError::TourIndexOutOfRange)
                } else if packing_plan@.len() != instance.items@.len() {
                    r == Result::<Solution, EvalError>::Err(EvalError::PackingLengthMismatch)
                } else if exists|j: int| 0 <= j < packing_plan@.len() && (
                #[trigger] packing_plan@[j]) > 1 {
                    r == Result::<Solution, EvalError>::Err(EvalError::PackingNotBinary)
                } else {
                    r is Ok && solution_of(*instance, t, packing_plan@, r->Ok_0)
                }
            }),
    {
        if !instance.check_valid() {
            return Err(EvalError::DegenerateInstance);
        }
        let mut t = clone_indices(tour);
        if t.len() >= 2 && t[0] == t[t.len() - 1] {
            t.pop();
        }
        assert(t@ == dedup_tour(tour@));
        if t.len() != instance.nodes.len() {
            return Err(EvalError::TourLengthMismatch);
        }
        let n = t.len();
        for i in 0..n
            invariant
                n == t@.len(),
                n == instance.nodes@.len(),
                t@ == dedup_tour(tour@),
                instance.bounded(),
                forall|k: int| 0 <= k < i ==> (#[trigger] t@[k]) < instance.nodes@.len(),
        {
            if t[i] >= instance.nodes.len() {
                assert(exists|k: int|
                    0 <= k < t@.len() && (#[trigger] t@[k]) >= instance.nodes@.len()) by {
                    assert(t@[i as int] >= instance.nodes@.len());
                }
                return Err(EvalError::TourIndexOutOfRange);
            }
        }
        if packing_plan.len() != instance.items.len() {
            return Err(EvalError::PackingLengthMismatch);
        }
        let m = packing_plan.len();
        for j in 0..m
            invariant
                m == packing_plan@.len(),
                forall|k: int| 0 <= k < j ==> (#[trigger] packing_plan@[k]) <= 1,
        {
            if packing_plan[j] > 1 {
                assert(exists|k: int|
                    0 <= k < packing_plan@.len() && (#[trigger] packing_plan@[k]) > 1) by {
                    assert(packing_plan@[j as int] > 1);
                }
                return Err(EvalError::PackingNotBinary);
            }
        }
        Ok(Self::evaluate(instance, &t, packing_plan))
    }
}

/// An element-wise copy of an index vector.
pub(crate) fn clone_indices(v: &Vec<usize>) -> (r: Vec<usize>)
    ensures
        r@ == v@,
{
    let mut r: Vec<usize> = Vec::new();
    let n = v.len();
    for i in 0..n
        invariant
            r@ == v@.subrange(0, i as int),
            n == v@.len(),
    {
        r.push(v[i]);
    }
    proof {
        assert(r@ =~= v@);
    }
    r
}

} // verus!
