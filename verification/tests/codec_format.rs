use ttp::codec::{parse_solution_bytes, render_solution_bytes, rotate_to_depot};
use ttp::instance::{Instance, Item, Node};
use ttp::solution::Solution;

fn node(id: usize, x: i64, y: i64) -> Node {
    Node { id, x, y }
}

fn item(id: usize, profit: i64, weight: i64, node: usize) -> Item {
    Item {
        id,
        profit,
        weight,
        node,
    }
}

#[test]
fn render_uses_one_based_ids_and_sparse_picks() {
    let text = render_solution_bytes(&vec![0, 2, 1], &vec![1, 0, 1]);
    assert_eq!(text, b"[1, 3, 2]\n[1, 3]\n".to_vec());
}

#[test]
fn render_empty_pick_list_as_brackets() {
    let text = render_solution_bytes(&vec![0], &vec![0, 0]);
    assert_eq!(text, b"[1]\n[]\n".to_vec());
}

#[test]
fn solution_answer_renders_its_own_fields() {
    let inst = Instance {
        nodes: vec![node(1, 0, 0), node(2, 1000, 0)],
        items: vec![item(1, 2000, 1000, 0)],
        capacity_of_knapsack: 2000,
        min_speed: 1000,
        max_speed: 1000,
        renting_ratio: 0,
    };
    let sol = Solution::evaluate(&inst, &vec![0, 1], &vec![1]);
    assert_eq!(sol.answer(), b"[1, 2]\n[1]\n".to_vec());
}

#[test]
fn parse_restores_tour_and_mask() {
    let text = b"[1, 3, 2]\n[1, 3]\n".to_vec();
    let (tour, plan) = parse_solution_bytes(&text, 3, 3).unwrap();
    assert_eq!(tour, vec![0, 2, 1]);
    assert_eq!(plan, vec![1, 0, 1]);
}

#[test]
fn parse_accepts_empty_pick_list() {
    let text = b"[2, 1]\n[]\n".to_vec();
    let (tour, plan) = parse_solution_bytes(&text, 2, 2).unwrap();
    assert_eq!(tour, vec![1, 0]);
    assert_eq!(plan, vec![0, 0]);
}

#[test]
fn parse_rejects_malformed_texts() {
    assert!(parse_solution_bytes(&b"[1]".to_vec(), 1, 0).is_none());
    assert!(parse_solution_bytes(&b"1\n[]\n".to_vec(), 1, 0).is_none());
    assert!(parse_solution_bytes(&b"[1]\n[]".to_vec(), 1, 0).is_none());
    assert!(parse_solution_bytes(&b"[a]\n[]\n".to_vec(), 1, 0).is_none());
    assert!(parse_solution_bytes(&b"[1,2]\n[]\n".to_vec(), 2, 0).is_none());
}

#[test]
fn parse_rejects_out_of_range_ids() {
    // node id 0 and ids beyond the counts are refused
    assert!(parse_solution_bytes(&b"[0]\n[]\n".to_vec(), 1, 0).is_none());
    assert!(parse_solution_bytes(&b"[2]\n[]\n".to_vec(), 1, 0).is_none());
    assert!(parse_solution_bytes(&b"[1]\n[2]\n".to_vec(), 1, 1).is_none());
    // a tour shorter or longer than the node count is refused
    assert!(parse_solution_bytes(&b"[1]\n[]\n".to_vec(), 2, 0).is_none());
}

#[test]
fn parse_rejects_oversized_numbers() {
    let text = b"[99999999999999999999]\n[]\n".to_vec();
    assert!(parse_solution_bytes(&text, 1, 0).is_none());
}

#[test]
fn round_trip_preserves_the_objective() {
    let inst = Instance {
        nodes: vec![
            node(1, 0, 0),
            node(2, 0, 1000),
            node(3, 1000, 1000),
            node(4, 1000, 0),
        ],
        items: vec![item(1, 4000, 2000, 1), item(2, 500, 3000, 2)],
        capacity_of_knapsack: 4000,
        min_speed: 500,
        max_speed: 1000,
        renting_ratio: 1000,
    };
    let tour = vec![0, 3, 2, 1];
    let plan = vec![1, 0];
    let before = Solution::evaluate(&inst, &tour, &plan);
    let text = before.answer();
    let (tour2, plan2) = parse_solution_bytes(&text, 4, 2).unwrap();
    assert_eq!(tour2, tour);
    assert_eq!(plan2, plan);
    let after = Solution::evaluate(&inst, &tour2, &plan2);
    assert_eq!(after.ob, before.ob);
    assert_eq!(after, before);
}

#[test]
fn rotate_moves_the_depot_to_the_front() {
    assert_eq!(rotate_to_depot(&vec![2, 0, 1]), vec![0, 1, 2]);
    assert_eq!(rotate_to_depot(&vec![0, 1, 2]), vec![0, 1, 2]);
    // without the depot the tour only rotates trivially
    assert_eq!(rotate_to_depot(&vec![3, 1, 2]), vec![3, 1, 2]);
}
