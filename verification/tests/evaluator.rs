use ttp::instance::{Instance, Item, Node};
use ttp::solution::{EvalError, Solution};

fn node(id: usize, x: i64, y: i64) -> Node {
    Node { id, x, y }
}

fn item(id: usize, profit: i64, weight: i64, node: usize) -> Item {
    Item {
        id,
        profit,
        weight,
        node,
    }
}

fn unit_square(renting_ratio: i64) -> Instance {
    Instance {
        nodes: vec![
            node(1, 0, 0),
            node(2, 0, 1000),
            node(3, 1000, 1000),
            node(4, 1000, 0),
        ],
        items: vec![],
        capacity_of_knapsack: 1000,
        min_speed: 1000,
        max_speed: 1000,
        renting_ratio,
    }
}

#[test]
fn unit_square_perimeter_time() {
    // 4 nodes on a unit square, no items, unit speed: time is exactly 4.0
    let inst = unit_square(2000);
    let tour = vec![0, 1, 2, 3];
    let plan: Vec<usize> = vec![];
    let sol = Solution::evaluate(&inst, &tour, &plan);
    assert_eq!(sol.ft, 4000);
    assert_eq!(sol.ftraw, 4000);
    assert_eq!(sol.fp, 0);
    assert_eq!(sol.wend, 0);
    // objective = 0 - 4.0 * 2.0 = -8.0
    assert_eq!(sol.ob, -8000);
}

#[test]
fn evaluate_is_deterministic() {
    let inst = Instance {
        nodes: vec![node(1, 0, 0), node(2, 300, 400)],
        items: vec![item(1, 5000, 2000, 0), item(2, 7000, 3000, 1)],
        capacity_of_knapsack: 4000,
        min_speed: 500,
        max_speed: 1000,
        renting_ratio: 1500,
    };
    let tour = vec![0, 1];
    let plan = vec![1, 0];
    let a = Solution::evaluate(&inst, &tour, &plan);
    let b = Solution::evaluate(&inst, &tour, &plan);
    assert_eq!(a, b);
}

#[test]
fn carried_weight_slows_travel() {
    // two nodes 1.0 apart; an item of full capacity at the start node
    let inst = Instance {
        nodes: vec![node(1, 0, 0), node(2, 1000, 0)],
        items: vec![item(1, 9000, 6000, 0)],
        capacity_of_knapsack: 6000,
        min_speed: 500,
        max_speed: 1000,
        renting_ratio: 0,
    };
    let tour = vec![0, 1];
    let empty = Solution::evaluate(&inst, &tour, &vec![0]);
    // unloaded: both legs at max speed: 2 * 1.0 / 1.0 = 2.0
    assert_eq!(empty.ft, 2000);
    let loaded = Solution::evaluate(&inst, &tour, &vec![1]);
    // loaded from the first departure: both legs at min speed: 2 * 1.0 / 0.5
    assert_eq!(loaded.ft, 4000);
    assert_eq!(loaded.wend, 6000);
    assert_eq!(loaded.fp, 9000);
}

#[test]
fn pickup_happens_on_departure_of_last_leg() {
    // an item at the final city still slows the return edge
    let inst = Instance {
        nodes: vec![node(1, 0, 0), node(2, 1000, 0)],
        items: vec![item(1, 1000, 6000, 1)],
        capacity_of_knapsack: 6000,
        min_speed: 500,
        max_speed: 1000,
        renting_ratio: 0,
    };
    let tour = vec![0, 1];
    let sol = Solution::evaluate(&inst, &tour, &vec![1]);
    // out empty at 1.0, back loaded at 0.5: 1.0 + 2.0
    assert_eq!(sol.ft, 3000);
}

#[test]
fn overloaded_velocity_clamps_to_min_speed() {
    // operators keep plans feasible; the evaluator itself only clamps
    let inst = Instance {
        nodes: vec![node(1, 0, 0), node(2, 1000, 0)],
        items: vec![item(1, 1000, 5000, 0), item(2, 1000, 5000, 0)],
        capacity_of_knapsack: 6000,
        min_speed: 500,
        max_speed: 1000,
        renting_ratio: 0,
    };
    let tour = vec![0, 1];
    let sol = Solution::evaluate(&inst, &tour, &vec![1, 1]);
    assert_eq!(sol.wend, 10000);
    // both legs clamped to min speed 0.5
    assert_eq!(sol.ft, 4000);
}

#[test]
fn try_evaluate_accepts_closed_tour_copy() {
    let inst = unit_square(1000);
    // the caller appended the first node to close the cycle
    let tour = vec![0, 1, 2, 3, 0];
    let plan: Vec<usize> = vec![];
    let sol = Solution::try_evaluate(&inst, &tour, &plan).unwrap();
    assert_eq!(sol.ft, 4000);
    assert_eq!(sol.tsp_tour, vec![0, 1, 2, 3]);
}

#[test]
fn try_evaluate_rejects_degenerate_instance() {
    let inst = Instance {
        nodes: vec![],
        items: vec![],
        capacity_of_knapsack: 1000,
        min_speed: 1000,
        max_speed: 1000,
        renting_ratio: 0,
    };
    let r = Solution::try_evaluate(&inst, &vec![], &vec![]);
    assert_eq!(r, Err(EvalError::DegenerateInstance));
}

#[test]
fn try_evaluate_rejects_zero_capacity_with_items() {
    let inst = Instance {
        nodes: vec![node(1, 0, 0)],
        items: vec![item(1, 1000, 1000, 0)],
        capacity_of_knapsack: 0,
        min_speed: 1000,
        max_speed: 1000,
        renting_ratio: 0,
    };
    let r = Solution::try_evaluate(&inst, &vec![0], &vec![0]);
    assert_eq!(r, Err(EvalError::DegenerateInstance));
}

#[test]
fn try_evaluate_rejects_tour_length_mismatch() {
    let inst = unit_square(1000);
    let r = Solution::try_evaluate(&inst, &vec![0, 1, 2], &vec![]);
    assert_eq!(r, Err(EvalError::TourLengthMismatch));
}

#[test]
fn try_evaluate_rejects_tour_index_out_of_range() {
    let inst = unit_square(1000);
    let r = Solution::try_evaluate(&inst, &vec![0, 1, 2, 9], &vec![]);
    assert_eq!(r, Err(EvalError::TourIndexOutOfRange));
}

#[test]
fn try_evaluate_rejects_packing_length_mismatch() {
    let inst = unit_square(1000);
    let r = Solution::try_evaluate(&inst, &vec![0, 1, 2, 3], &vec![1]);
    assert_eq!(r, Err(EvalError::PackingLengthMismatch));
}

#[test]
fn try_evaluate_rejects_non_binary_packing() {
    let mut inst = unit_square(1000);
    inst.items = vec![item(1, 1000, 1000, 0)];
    let r = Solution::try_evaluate(&inst, &vec![0, 1, 2, 3], &vec![2]);
    assert_eq!(r, Err(EvalError::PackingNotBinary));
}
