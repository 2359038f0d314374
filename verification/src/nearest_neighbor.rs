//! Nearest-neighbor tour construction: starting from the first node, walk
//! to the closest not-yet-visited node until all are placed.

use vstd::prelude::*;
use vstd::multiset::Multiset;
use crate::instance::{Node, MAX_COORD, MAX_COUNT};
use crate::math::sq;
use crate::path::{clone_nodes, coords_ok, nodes_wf, Path};

verus! {

/// Squared Euclidean distance between two nodes (exact; comparisons do
/// not need the root).
fn sq_dist(a: &Node, b: &Node) -> (d: i128)
    requires
        -MAX_COORD <= a.x <= MAX_COORD,
        -MAX_COORD <= a.y <= MAX_COORD,
        -MAX_COORD <= b.x <= MAX_COORD,
        -MAX_COORD <= b.y <= MAX_COORD,
    ensures
        d == sq(a.x - b.x) + sq(a.y - b.y),
{
    let dx: i128 = a.x as i128 - b.x as i128;
    let dy: i128 = a.y as i128 - b.y as i128;
    assert(0 <= dx * dx <= 4_000_000_000_000_000_000 && 0 <= dy * dy
        <= 4_000_000_000_000_000_000) by (nonlinear_arith)
        requires
            -2 * MAX_COORD <= dx <= 2 * MAX_COORD,
            -2 * MAX_COORD <= dy <= 2 * MAX_COORD,
    ;
    dx * dx + dy * dy
}

/// Greedy nearest-neighbor tour construction.
pub struct NearestNeighborTSP;

impl NearestNeighborTSP {
    /// Visit the first node, then repeatedly the nearest unvisited one
    /// (earliest wins a tie). The result visits exactly the input's
    /// nodes, starting at the input's first node.
    #[verifier::loop_isolation(false)]
    pub fn solve(path: &Path) -> (r: Path)
        requires
            path.nodes@.len() <= MAX_COUNT,
            coords_ok(path.nodes@),
        ensures
            r.nodes@.to_multiset() == path.nodes@.to_multiset(),
            r.nodes@.len() == path.nodes@.len(),
            path.nodes@.len() > 0 ==> r.nodes@[0] == path.nodes@[0],
            path.wf() ==> r.wf(),
    {
        broadcast use vstd::multiset::group_multiset_axioms;
        broadcast use vstd::seq_lib::group_to_multiset_ensures;

        let n = path.nodes.len();
        if n == 0 {
            let route: Vec<Node> = Vec::new();
            proof {
                assert(route@.to_multiset() =~= path.nodes@.to_multiset());
            }
            return Path::new(route);
        }
        let mut remaining = clone_nodes(&path.nodes);
        let mut route: Vec<Node> = Vec::new();
        let first = remaining.remove(0);
        route.push(first);
        proof {
            vstd::seq_lib::to_multiset_remove(path.nodes@, 0);
            assert(path.nodes@.contains(first)) by {
                assert(path.nodes@[0] == first);
            }
            assert(route@ == Seq::<Node>::empty().push(first));
            assert(route@.to_multiset().add(remaining@.to_multiset()) =~= path.nodes@.to_multiset());
            assert(coords_ok(remaining@)) by {
                assert forall|k: int|
                    0 <= k < remaining@.len() implies -MAX_COORD <= (#[trigger] remaining@[k]).x
                    <= MAX_COORD && -MAX_COORD <= remaining@[k].y <= MAX_COORD by {
                    assert(remaining@[k] == path.nodes@[k + 1]);
                }
            }
        }
        let mut cur = first;
        while remaining.len() > 0
            invariant
                route@.len() + remaining@.len() == n,
                1 <= route@.len(),
                route@.to_multiset().add(remaining@.to_multiset()) == path.nodes@.to_multiset(),
                route@[0] == path.nodes@[0],
                coords_ok(route@),
                coords_ok(remaining@),
                -MAX_COORD <= cur.x <= MAX_COORD,
                -MAX_COORD <= cur.y <= MAX_COORD,
            decreases remaining@.len(),
        {
            let m = remaining.len();
            let mut best_k: usize = 0;
            let mut best_d: i128 = sq_dist(&cur, &remaining[0]);
            for k in 1..m
                invariant
                    m == remaining@.len(),
                    best_k < m,
            {
                let d = sq_dist(&cur, &remaining[k]);
                if d < best_d {
                    best_k = k;
                    best_d = d;
                }
            }
            let ghost rem0 = remaining@;
            let ghost route0 = route@;
            let chosen = remaining.remove(best_k);
            route.push(chosen);
            cur = chosen;
            proof {
                vstd::seq_lib::to_multiset_remove(rem0, best_k as int);
                assert(rem0.contains(chosen)) by {
                    assert(rem0[best_k as int] == chosen);
                }
                assert(route@ == route0.push(chosen));
                assert(route@.to_multiset().add(remaining@.to_multiset())
                    =~= path.nodes@.to_multiset());
                assert(coords_ok(remaining@)) by {
                    assert forall|k: int|
                        0 <= k < remaining@.len() implies -MAX_COORD <= (
                        #[trigger] remaining@[k]).x <= MAX_COORD && -MAX_COORD <= remaining@[k].y
                        <= MAX_COORD by {
                        if k < best_k {
                            assert(remaining@[k] == rem0[k]);
                        } else {
                            assert(remaining@[k] == rem0[k + 1]);
                        }
                    }
                }
            }
        }
        proof {
            assert(remaining@.to_multiset() =~= Multiset::<Node>::empty());
            assert(route@.to_multiset() =~= path.nodes@.to_multiset());
            vstd::seq_lib::to_multiset_len(route@);
            vstd::seq_lib::to_multiset_len(path.nodes@);
        }
        Path::new(route)
    }
}

} // verus!
