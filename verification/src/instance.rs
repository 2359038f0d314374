//! Static problem definition: node coordinates, items, knapsack capacity,
//! speed range and renting ratio.
//!
//! Quantities are fixed-point integers scaled by `SCALE` (1000 raw units =
//! 1.0). Magnitudes are bounded by `MAX_VALUE` / `MAX_COORD` and counts by
//! `MAX_COUNT`, so that the evaluator's arithmetic provably fits in the
//! machine integers it uses.

use vstd::prelude::*;

verus! {

/// Fixed-point scale: raw values carry three decimal places.
pub const SCALE: i64 = 1000;

/// Largest admitted raw magnitude for profits, weights, speeds, the
/// capacity and the renting ratio.
pub const MAX_VALUE: i64 = 1_000_000_000;

/// Largest admitted raw magnitude of a node coordinate.
pub const MAX_COORD: i64 = 1_000_000_000;

/// Largest admitted number of nodes, and of items.
pub const MAX_COUNT: usize = 100_000;

/// A city: a stable 1-based identifier and fixed-point plane coordinates.
#[derive(Clone, Copy, Debug)]
pub struct Node {
    pub id: usize,
    pub x: i64,
    pub y: i64,
}

/// A collectable item: 1-based identifier, profit, weight, and the 0-based
/// index of the node where it lies.
#[derive(Clone, Copy, Debug)]
pub struct Item {
    pub id: usize,
    pub profit: i64,
    pub weight: i64,
    pub node: usize,
}

/// An immutable TTP problem instance.
#[derive(Clone, Debug)]
pub struct Instance {
    pub nodes: Vec<Node>,
    pub items: Vec<Item>,
    pub capacity_of_knapsack: i64,
    pub min_speed: i64,
    pub max_speed: i64,
    pub renting_ratio: i64,
}

impl Instance {
    /// Machine limits alone: bounded counts and magnitudes. These keep all
    /// of the evaluator's arithmetic within its integer types; they say
    /// nothing about whether the instance makes sense as a problem.
    pub open spec fn bounded(self) -> bool {
        &&& self.nodes@.len() <= MAX_COUNT
        &&& self.items@.len() <= MAX_COUNT
        &&& forall|k: int|
            0 <= k < self.nodes@.len() ==> {
                &&& -MAX_COORD <= (#[trigger] self.nodes@[k]).x <= MAX_COORD
                &&& -MAX_COORD <= self.nodes@[k].y <= MAX_COORD
            }
        &&& forall|k: int|
            0 <= k < self.items@.len() ==> {
                &&& 0 <= (#[trigger] self.items@[k]).profit <= MAX_VALUE
                &&& 0 <= self.items@[k].weight <= MAX_VALUE
            }
        &&& -MAX_VALUE <= self.min_speed <= MAX_VALUE
        &&& -MAX_VALUE <= self.max_speed <= MAX_VALUE
        &&& -MAX_VALUE <= self.renting_ratio <= MAX_VALUE
        &&& -MAX_VALUE <= self.capacity_of_knapsack <= MAX_VALUE
    }

    /// Semantic validity: at least one node, ids equal to position plus
    /// one, item home nodes in range, speeds positive with
    /// `min_speed <= max_speed`, a non-negative renting ratio, and a
    /// positive capacity whenever there are items.
    pub open spec fn valid(self) -> bool {
        &&& 1 <= self.nodes@.len()
        &&& forall|k: int|
            0 <= k < self.nodes@.len() ==> (#[trigger] self.nodes@[k]).id == k + 1
        &&& forall|k: int|
            0 <= k < self.items@.len() ==> {
                &&& (#[trigger] self.items@[k]).id == k + 1
                &&& self.items@[k].node < self.nodes@.len()
            }
        &&& 1 <= self.min_speed <= self.max_speed
        &&& 0 <= self.renting_ratio
        &&& 0 <= self.capacity_of_knapsack
        &&& self.items@.len() > 0 ==> self.capacity_of_knapsack >= 1
    }

    /// Well-formedness: bounded and valid.
    pub open spec fn wf(self) -> bool {
        self.bounded() && self.valid()
    }

    /// Runtime check of `valid`, for inputs whose provenance is unknown.
    pub fn check_valid(&self) -> (ok: bool)
        ensures
            ok == self.valid(),
    {
        let n = self.nodes.len();
        let m = self.items.len();
        if n < 1 {
            return false;
        }
        if !(1 <= self.min_speed && self.min_speed <= self.max_speed) {
            return false;
        }
        if self.renting_ratio < 0 || self.capacity_of_knapsack < 0 {
            return false;
        }
        if m > 0 && self.capacity_of_knapsack < 1 {
            return false;
        }
        for k in 0..n
            invariant
                n == self.nodes@.len(),
                forall|i: int| 0 <= i < k ==> (#[trigger] self.nodes@[i]).id == i + 1,
        {
            if self.nodes[k].id != k + 1 {
                return false;
            }
        }
        for k in 0..m
            invariant
                m == self.items@.len(),
                n == self.nodes@.len(),
                forall|i: int|
                    0 <= i < k ==> {
                        &&& (#[trigger] self.items@[i]).id == i + 1
                        &&& self.items@[i].node < n
                    },
        {
            if self.items[k].id != k + 1 || self.items[k].node >= n {
                return false;
            }
        }
        true
    }

    /// Number of nodes of the instance.
    pub fn dimension(&self) -> (n: usize)
        ensures
            n == self.nodes@.len(),
    {
        self.nodes.len()
    }

    /// Number of items of the instance.
    pub fn num_items(&self) -> (n: usize)
        ensures
            n == self.items@.len(),
    {
        self.items.len()
    }
}

} // verus!
