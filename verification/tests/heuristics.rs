use ttp::greedy_kp::GreedyKP;
use ttp::instance::{Instance, Item, Node};
use ttp::nearest_neighbor::NearestNeighborTSP;
use ttp::path::Path;
use ttp::random_kp::RandomKP;
use ttp::tabu_search::TabuSearchTSB;
use ttp::two_opt::TwoOpt;

fn node(id: usize, x: i64, y: i64) -> Node {
    Node { id, x, y }
}

fn item(id: usize, profit: i64, weight: i64, node: usize) -> Item {
    Item {
        id,
        profit,
        weight,
        node,
    }
}

fn square_nodes() -> Vec<Node> {
    vec![
        node(1, 0, 0),
        node(2, 0, 1000),
        node(3, 1000, 1000),
        node(4, 1000, 0),
    ]
}

fn square_instance(items: Vec<Item>, capacity: i64) -> Instance {
    Instance {
        nodes: square_nodes(),
        items,
        capacity_of_knapsack: capacity,
        min_speed: 500,
        max_speed: 1000,
        renting_ratio: 1000,
    }
}

#[test]
fn path_length_of_unit_square() {
    let p = Path::new(square_nodes());
    assert_eq!(p.length(), 4000);
}

#[test]
fn path_has_node_by_id() {
    let p = Path::new(square_nodes());
    assert!(p.has_node(1));
    assert!(p.has_node(4));
    assert!(!p.has_node(0));
    assert!(!p.has_node(9));
}

#[test]
fn greedy_kp_picks_by_efficiency_under_capacity() {
    // ratios 2.5, 3.0 and 1.0: the middle item first, then the first
    // does not fit, then the third fills the sack exactly
    let inst = square_instance(
        vec![
            item(1, 10_000, 4000, 0),
            item(2, 9000, 3000, 1),
            item(3, 1000, 1000, 2),
        ],
        4000,
    );
    let plan = GreedyKP::solve(&inst, &vec![0, 1, 2, 3]);
    assert_eq!(plan, vec![0, 1, 1]);
}

#[test]
fn greedy_kp_takes_everything_that_fits_together() {
    let inst = square_instance(
        vec![item(1, 1000, 1000, 0), item(2, 2000, 2000, 1)],
        5000,
    );
    let plan = GreedyKP::solve(&inst, &vec![0, 1, 2, 3]);
    assert_eq!(plan, vec![1, 1]);
}

#[test]
fn greedy_kp_treats_weightless_items_as_infinitely_efficient() {
    let inst = square_instance(
        vec![item(1, 1, 0, 0), item(2, 1_000_000, 1000, 1)],
        1000,
    );
    let plan = GreedyKP::solve(&inst, &vec![0, 1, 2, 3]);
    assert_eq!(plan, vec![1, 1]);
}

#[test]
fn nearest_neighbor_walks_the_square_in_order() {
    // from the first corner both neighbours are 1.0 away: the earliest
    // index wins the tie, then the walk follows the perimeter
    let p = Path::new(square_nodes());
    let r = NearestNeighborTSP::solve(&p);
    let ids: Vec<usize> = r.nodes.iter().map(|n| n.id).collect();
    assert_eq!(ids, vec![1, 2, 3, 4]);
}

#[test]
fn nearest_neighbor_keeps_all_nodes() {
    let p = Path::new(vec![
        node(1, 500, 500),
        node(2, 0, 0),
        node(3, 2000, 0),
        node(4, 0, 2000),
    ]);
    let r = NearestNeighborTSP::solve(&p);
    assert_eq!(r.nodes.len(), 4);
    let mut ids: Vec<usize> = r.nodes.iter().map(|n| n.id).collect();
    assert_eq!(ids[0], 1);
    ids.sort();
    assert_eq!(ids, vec![1, 2, 3, 4]);
}

#[test]
fn two_opt_never_lengthens_the_path() {
    // the crossing order is untangled
    let crossing = Path::new(vec![
        node(1, 0, 0),
        node(3, 1000, 1000),
        node(2, 0, 1000),
        node(4, 1000, 0),
    ]);
    let before = crossing.length();
    let r = TwoOpt::solve(&crossing);
    assert!(r.length() <= before);
    assert_eq!(r.length(), 4000);
    let mut ids: Vec<usize> = r.nodes.iter().map(|n| n.id).collect();
    ids.sort();
    assert_eq!(ids, vec![1, 2, 3, 4]);
}

#[test]
fn tabu_search_never_lengthens_the_path() {
    let crossing = Path::new(vec![
        node(1, 0, 0),
        node(3, 1000, 1000),
        node(2, 0, 1000),
        node(4, 1000, 0),
    ]);
    let before = crossing.length();
    let r = TabuSearchTSB::solve(&crossing);
    assert!(r.length() <= before);
    let mut ids: Vec<usize> = r.nodes.iter().map(|n| n.id).collect();
    ids.sort();
    assert_eq!(ids, vec![1, 2, 3, 4]);
}

#[test]
fn random_kp_stays_feasible_and_reports_its_profit() {
    let inst = square_instance(
        vec![
            item(1, 3000, 2000, 0),
            item(2, 4000, 3000, 1),
            item(3, 5000, 4000, 2),
            item(4, 1000, 1000, 3),
        ],
        5000,
    );
    let p = Path::new(square_nodes());
    for _ in 0..20 {
        let (profit, selected) = RandomKP::solve(&p, &inst);
        // distinct valid identifiers
        let mut seen = selected.clone();
        seen.sort();
        seen.dedup();
        assert_eq!(seen.len(), selected.len());
        let mut weight: i64 = 0;
        let mut expected_profit: i128 = 0;
        for &id in &selected {
            assert!(1 <= id && id <= 4);
            weight += inst.items[id - 1].weight;
            expected_profit += inst.items[id - 1].profit as i128;
        }
        assert!(weight <= inst.capacity_of_knapsack);
        assert_eq!(profit, expected_profit);
        // saturation: any item left out would overflow the capacity
        for id in 1..=4usize {
            if !selected.contains(&id) {
                assert!(weight + inst.items[id - 1].weight > inst.capacity_of_knapsack);
            }
        }
    }
}

#[test]
fn random_kp_only_takes_items_on_the_path() {
    let inst = square_instance(
        vec![item(1, 3000, 1000, 0), item(2, 4000, 1000, 3)],
        5000,
    );
    // a path over the first two corners only: the item at the fourth
    // corner is never a candidate
    let p = Path::new(vec![node(1, 0, 0), node(2, 0, 1000)]);
    for _ in 0..20 {
        let (_, selected) = RandomKP::solve(&p, &inst);
        for &id in &selected {
            assert_eq!(id, 1);
        }
    }
}
