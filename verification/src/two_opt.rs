//! One-pass 2-opt improvement of a closed tour: every segment reversal is
//! tried once, and each reversal that strictly shortens the path is kept.

use vstd::prelude::*;
use crate::path::{
    clone_nodes, lemma_reverse_nodes_multiset, path_length, reversed_nodes_copy, Path,
};

verus! {

/// Single-pass segment-reversal shortening of a closed tour.
pub struct TwoOpt;

impl TwoOpt {
    /// Try every reversal `nodes[i ..= j]` once, in row-major `(i, j)`
    /// order, keeping a candidate exactly when it is strictly shorter.
    /// The result visits the same nodes and is never longer than the
    /// input.
    #[verifier::loop_isolation(false)]
    pub fn solve(path: &Path) -> (r: Path)
        requires
            path.wf(),
        ensures
            r.wf(),
            r.nodes@.to_multiset() == path.nodes@.to_multiset(),
            path_length(r.nodes@) <= path_length(path.nodes@),
    {
        let mut best_path = Path { nodes: clone_nodes(&path.nodes) };
        let n = best_path.nodes.len();
        for i in 0..n - 1
            invariant
                n == best_path.nodes@.len(),
                best_path.wf(),
                best_path.nodes@.to_multiset() == path.nodes@.to_multiset(),
                path_length(best_path.nodes@) <= path_length(path.nodes@),
        {
            for j in i + 1..n
                invariant
                    n == best_path.nodes@.len(),
                    i < n,
                    best_path.wf(),
                    best_path.nodes@.to_multiset() == path.nodes@.to_multiset(),
                    path_length(best_path.nodes@) <= path_length(path.nodes@),
            {
                let new_nodes = reversed_nodes_copy(&best_path.nodes, i, j);
                proof {
                    lemma_reverse_nodes_multiset(best_path.nodes@, i as int, j as int);
                }
                let new_path = Path { nodes: new_nodes };
                if new_path.length() < best_path.length() {
                    best_path = new_path;
                }
            }
        }
        best_path
    }
}

} // verus!
