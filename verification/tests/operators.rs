use ttp::hill_climbing::HillClimbingTTP;
use ttp::instance::{Instance, Item, Node};
use ttp::solution::Solution;

fn node(id: usize, x: i64, y: i64) -> Node {
    Node { id, x, y }
}

fn item(id: usize, profit: i64, weight: i64, node: usize) -> Item {
    Item {
        id,
        profit,
        weight,
        node,
    }
}

/// Two nodes 1.0 apart, fixed travel speed, two items at the first node.
fn two_node_instance(capacity: i64, profits: (i64, i64), weights: (i64, i64)) -> Instance {
    Instance {
        nodes: vec![node(1, 0, 0), node(2, 1000, 0)],
        items: vec![
            item(1, profits.0, weights.0, 0),
            item(2, profits.1, weights.1, 0),
        ],
        capacity_of_knapsack: capacity,
        min_speed: 1000,
        max_speed: 1000,
        renting_ratio: 1000,
    }
}

#[test]
fn bit_flip_obeys_running_weight_gate() {
    // weights 5.0 and 10.0, capacity 10.0: the 5.0 item improves and is
    // picked; afterwards 5 + 10 = 15 > 10 keeps the 10.0 item out, no
    // matter its profit
    let inst = two_node_instance(10_000, (3000, 1_000_000), (5000, 10_000));
    let tour = vec![0, 1];
    let plan = vec![0, 0];
    let base = Solution::evaluate(&inst, &tour, &plan);
    assert_eq!(base.ob, -2000);
    let (new_plan, new_obj) = HillClimbingTTP::run_bit_flip(&inst, &tour, &plan, base.ob);
    assert_eq!(new_plan, vec![1, 0]);
    assert_eq!(new_obj, 1000);
}

#[test]
fn bit_flip_drops_a_losing_item() {
    // a heavy, worthless item on a slow track is dropped
    let inst = Instance {
        nodes: vec![node(1, 0, 0), node(2, 1000, 0)],
        items: vec![item(1, 100, 6000, 0)],
        capacity_of_knapsack: 6000,
        min_speed: 500,
        max_speed: 1000,
        renting_ratio: 1000,
    };
    let tour = vec![0, 1];
    let plan = vec![1];
    let base = Solution::evaluate(&inst, &tour, &plan);
    let (new_plan, new_obj) = HillClimbingTTP::run_bit_flip(&inst, &tour, &plan, base.ob);
    assert_eq!(new_plan, vec![0]);
    assert!(new_obj > base.ob);
    // unloaded round trip costs 2.0
    assert_eq!(new_obj, -2000);
}

#[test]
fn item_swap_rejects_capacity_breaking_swap() {
    // swapping out 5.0 for 10.0 under capacity 9.0 would overload: the
    // swap is rejected even though it would raise the profit
    let inst = two_node_instance(9000, (3000, 1_000_000), (5000, 10_000));
    let tour = vec![0, 1];
    let plan = vec![1, 0];
    let base = Solution::evaluate(&inst, &tour, &plan);
    let (new_plan, new_obj) = HillClimbingTTP::run_item_swap(&inst, &tour, &plan, base.ob);
    assert_eq!(new_plan, vec![1, 0]);
    assert_eq!(new_obj, base.ob);
}

#[test]
fn item_swap_accepts_feasible_improving_swap() {
    // under capacity 10.0 the same swap fits exactly and wins
    let inst = two_node_instance(10_000, (3000, 1_000_000), (5000, 10_000));
    let tour = vec![0, 1];
    let plan = vec![1, 0];
    let base = Solution::evaluate(&inst, &tour, &plan);
    let (new_plan, new_obj) = HillClimbingTTP::run_item_swap(&inst, &tour, &plan, base.ob);
    assert_eq!(new_plan, vec![0, 1]);
    assert!(new_obj > base.ob);
}

fn crossing_square() -> (Instance, Vec<usize>, Vec<usize>) {
    let inst = Instance {
        nodes: vec![
            node(1, 0, 0),
            node(2, 0, 1000),
            node(3, 1000, 1000),
            node(4, 1000, 0),
        ],
        items: vec![],
        capacity_of_knapsack: 1000,
        min_speed: 1000,
        max_speed: 1000,
        renting_ratio: 1000,
    };
    // visiting order crosses the square twice
    (inst, vec![0, 2, 1, 3], vec![])
}

#[test]
fn reversal_untangles_a_crossing_tour() {
    let (inst, tour, plan) = crossing_square();
    let base = Solution::evaluate(&inst, &tour, &plan);
    let (new_tour, new_obj) = HillClimbingTTP::run_2opt(&inst, &tour, &plan, base.ob);
    assert_eq!(new_tour, vec![0, 1, 2, 3]);
    // perimeter 4.0 at renting ratio 1.0
    assert_eq!(new_obj, -4000);
    assert!(new_obj > base.ob);
}

#[test]
fn position_swap_untangles_a_crossing_tour() {
    let (inst, tour, plan) = crossing_square();
    let base = Solution::evaluate(&inst, &tour, &plan);
    let (new_tour, new_obj) = HillClimbingTTP::run_swap(&inst, &tour, &plan, base.ob);
    assert_eq!(new_tour, vec![0, 1, 2, 3]);
    assert_eq!(new_obj, -4000);
}

#[test]
fn optimizer_never_lowers_the_objective() {
    let inst = Instance {
        nodes: vec![
            node(1, 0, 0),
            node(2, 0, 1000),
            node(3, 1000, 1000),
            node(4, 1000, 0),
        ],
        items: vec![item(1, 4000, 2000, 1), item(2, 500, 3000, 2)],
        capacity_of_knapsack: 4000,
        min_speed: 500,
        max_speed: 1000,
        renting_ratio: 1000,
    };
    let tour = vec![0, 2, 1, 3];
    let plan = vec![0, 0];
    let base = Solution::evaluate(&inst, &tour, &plan);
    let (opt_tour, opt_plan) = HillClimbingTTP::optimize_full(&inst, tour, plan);
    let opt = Solution::evaluate(&inst, &opt_tour, &opt_plan);
    assert!(opt.ob >= base.ob);
    // capacity still respected
    let weight: i64 = opt_plan
        .iter()
        .enumerate()
        .map(|(j, &f)| if f == 1 { inst.items[j].weight } else { 0 })
        .sum();
    assert!(weight <= inst.capacity_of_knapsack);
}

#[test]
fn converged_output_is_a_fixed_point() {
    let inst = Instance {
        nodes: vec![
            node(1, 0, 0),
            node(2, 0, 1000),
            node(3, 1000, 1000),
            node(4, 1000, 0),
        ],
        items: vec![item(1, 4000, 2000, 1), item(2, 500, 3000, 2)],
        capacity_of_knapsack: 4000,
        min_speed: 500,
        max_speed: 1000,
        renting_ratio: 1000,
    };
    let (t1, p1) = HillClimbingTTP::optimize_full(&inst, vec![0, 2, 1, 3], vec![0, 0]);
    let (t2, p2) = HillClimbingTTP::optimize_full(&inst, t1.clone(), p1.clone());
    assert_eq!(t1, t2);
    assert_eq!(p1, p2);
}

#[test]
fn tour_only_optimizer_keeps_the_packing() {
    let inst = Instance {
        nodes: vec![
            node(1, 0, 0),
            node(2, 0, 1000),
            node(3, 1000, 1000),
            node(4, 1000, 0),
        ],
        items: vec![item(1, 4000, 2000, 1)],
        capacity_of_knapsack: 4000,
        min_speed: 500,
        max_speed: 1000,
        renting_ratio: 1000,
    };
    let (opt_tour, plan_back) = HillClimbingTTP::optimize_tour(&inst, vec![0, 2, 1, 3], vec![1]);
    assert_eq!(plan_back, vec![1]);
    // picking up the item as late as possible keeps the early legs fast
    assert_eq!(opt_tour, vec![0, 3, 2, 1]);
}
