//! Tabu search over closed tours: a bounded number of iterations, each
//! moving to the best non-tabu position-swap neighbor, remembering the
//! shortest tour seen and a tenure-bounded list of visited tours.

use vstd::prelude::*;
use crate::path::{
    clone_nodes, lemma_swap_nodes_multiset, path_length, swapped_nodes_copy, Path,
};

verus! {

/// Element-wise equality of two identifier vectors.
fn ids_eq(a: &Vec<usize>, b: &Vec<usize>) -> (r: bool)
    ensures
        r == (a@ == b@),
{
    if a.len() != b.len() {
        return false;
    }
    let n = a.len();
    for i in 0..n
        invariant
            n == a@.len() == b@.len(),
            forall|k: int| 0 <= k < i ==> a@[k] == b@[k],
    {
        if a[i] != b[i] {
            return false;
        }
    }
    proof {
        assert(a@ =~= b@);
    }
    true
}

/// The node identifiers of a path in visiting order: the signature under
/// which a visited tour is remembered.
fn signature(p: &Path) -> (r: Vec<usize>)
    ensures
        r@.len() == p.nodes@.len(),
        forall|k: int| 0 <= k < r@.len() ==> (#[trigger] r@[k]) == p.nodes@[k].id,
{
    let n = p.nodes.len();
    let mut r: Vec<usize> = Vec::new();
    for i in 0..n
        invariant
            n == p.nodes@.len(),
            r@.len() == i,
            forall|k: int| 0 <= k < i ==> (#[trigger] r@[k]) == p.nodes@[k].id,
    {
        r.push(p.nodes[i].id);
    }
    r
}

/// Whether the tabu list holds this signature.
fn is_tabu(list: &Vec<Vec<usize>>, sig: &Vec<usize>) -> (r: bool)
    ensures
        r == exists|k: int| 0 <= k < list@.len() && (#[trigger] list@[k])@ == sig@,
{
    let n = list.len();
    for k in 0..n
        invariant
            n == list@.len(),
            forall|i: int| 0 <= i < k ==> (#[trigger] list@[i])@ != sig@,
    {
        if ids_eq(&list[k], sig) {
            assert((#[trigger] list@[k as int])@ == sig@);
            return true;
        }
    }
    false
}

/// Tabu search for short closed tours.
pub struct TabuSearchTSB;

impl TabuSearchTSB {
    /// All position-swap neighbors of a tour with the first node held
    /// fixed: each visits the same nodes.
    fn generate_neighbors(path: &Path) -> (r: Vec<Path>)
        requires
            path.wf(),
        ensures
            forall|k: int|
                0 <= k < r@.len() ==> (#[trigger] r@[k]).wf() && r@[k].nodes@.to_multiset()
                    == path.nodes@.to_multiset(),
    {
        let n = path.nodes.len();
        let mut neighbors: Vec<Path> = Vec::new();
        for i in 1..n
            invariant
                n == path.nodes@.len(),
                path.wf(),
                forall|k: int|
                    0 <= k < neighbors@.len() ==> (#[trigger] neighbors@[k]).wf()
                        && neighbors@[k].nodes@.to_multiset() == path.nodes@.to_multiset(),
        {
            for j in i + 1..n
                invariant
                    n == path.nodes@.len(),
                    0 < i < n,
                    path.wf(),
                    forall|k: int|
                        0 <= k < neighbors@.len() ==> (#[trigger] neighbors@[k]).wf()
                            && neighbors@[k].nodes@.to_multiset() == path.nodes@.to_multiset(),
            {
                let new_nodes = swapped_nodes_copy(&path.nodes, i, j);
                proof {
                    lemma_swap_nodes_multiset(path.nodes@, i as int, j as int);
                }
                neighbors.push(Path { nodes: new_nodes });
            }
        }
        neighbors
    }

    /// Run a fixed number of iterations, each moving to the shortest
    /// non-tabu neighbor and remembering every visited tour for a bounded
    /// tenure (evicting the oldest entry first, in insertion order). The
    /// result visits the same nodes as the input and is never longer.
    #[verifier::loop_isolation(false)]
    pub fn solve(path: &Path) -> (r: Path)
        requires
            path.wf(),
        ensures
            r.wf(),
            r.nodes@.to_multiset() == path.nodes@.to_multiset(),
            path_length(r.nodes@) <= path_length(path.nodes@),
    {
        let mut best_solution = Path { nodes: clone_nodes(&path.nodes) };
        let mut current_solution = Path { nodes: clone_nodes(&path.nodes) };
        let mut tabu_list: Vec<Vec<usize>> = Vec::new();

        let max_iterations: usize = 100;
        let tabu_tenure: usize = 30;
        let mut iterations: usize = 0;

        while iterations < max_iterations
            invariant
                best_solution.wf(),
                best_solution.nodes@.to_multiset() == path.nodes@.to_multiset(),
                path_length(best_solution.nodes@) <= path_length(path.nodes@),
                current_solution.wf(),
                current_solution.nodes@.to_multiset() == path.nodes@.to_multiset(),
            decreases max_iterations - iterations,
        {
            let neighbors = Self::generate_neighbors(&current_solution);
            let mut best_neighbor: Option<Path> = None;
            let mut best_neighbor_length: i64 = i64::MAX;

            let count = neighbors.len();
            for k in 0..count
                invariant
                    count == neighbors@.len(),
                    forall|q: int|
                        0 <= q < neighbors@.len() ==> (#[trigger] neighbors@[q]).wf()
                            && neighbors@[q].nodes@.to_multiset()
                            == current_solution.nodes@.to_multiset(),
                    best_neighbor matches Some(p) ==> p.wf() && p.nodes@.to_multiset()
                        == current_solution.nodes@.to_multiset() && best_neighbor_length
                        == path_length(p.nodes@),
            {
                let neighbor = &neighbors[k];
                let neighbor_length = neighbor.length();
                let sig = signature(neighbor);
                if neighbor_length < best_neighbor_length && !is_tabu(&tabu_list, &sig) {
                    best_neighbor = Some(Path { nodes: clone_nodes(&neighbor.nodes) });
                    best_neighbor_length = neighbor_length;
                }
            }

            if let Some(neighbor) = best_neighbor {
                current_solution = neighbor;
                if current_solution.length() < best_solution.length() {
                    best_solution = Path { nodes: clone_nodes(&current_solution.nodes) };
                }
                // tenure eviction is oldest-first, in insertion order; the
                // eviction order a tabu tenure should use here is an open
                // design question, settled as first-in-first-out
                tabu_list.push(signature(&current_solution));
                if tabu_list.len() > tabu_tenure {
                    tabu_list.remove(0);
                }
            }
            iterations = iterations + 1;
        }

        best_solution
    }
}

} // verus!
