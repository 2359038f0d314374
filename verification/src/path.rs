//! A path over plane nodes and its fixed-point length: the tool the TSP
//! construction heuristics work on.

use vstd::prelude::*;
use crate::instance::{Node, MAX_COORD, MAX_COUNT};
use crate::math::{distance, spec_dist, lemma_dist_bounds, MAX_DIST};

verus! {

/// An ordered list of nodes, treated as a closed tour: the last node
/// connects back to the first.
#[derive(Clone, Debug)]
pub struct Path {
    pub nodes: Vec<Node>,
}

/// Every coordinate within the admitted range.
pub open spec fn coords_ok(nodes: Seq<Node>) -> bool {
    forall|k: int|
        0 <= k < nodes.len() ==> {
            &&& -MAX_COORD <= (#[trigger] nodes[k]).x <= MAX_COORD
            &&& -MAX_COORD <= nodes[k].y <= MAX_COORD
        }
}

/// Nodes a path can measure: at least one, boundedly many, coordinates in
/// range.
pub open spec fn nodes_wf(nodes: Seq<Node>) -> bool {
    &&& 1 <= nodes.len() <= MAX_COUNT
    &&& coords_ok(nodes)
}

/// Sum of the first `k` open-path edges: `nodes[i]` to `nodes[i + 1]`.
pub open spec fn open_length_upto(nodes: Seq<Node>, k: int) -> int
    decreases k,
{
    if k <= 0 {
        0
    } else {
        open_length_upto(nodes, k - 1) + spec_dist(nodes[k - 1], nodes[k])
    }
}

/// Closed-tour length: all open edges plus the edge back to the start.
pub open spec fn path_length(nodes: Seq<Node>) -> int {
    open_length_upto(nodes, nodes.len() - 1) + spec_dist(nodes[nodes.len() - 1], nodes[0])
}

/// Open-path prefix sums are non-negative and at most `k * MAX_DIST`.
pub proof fn lemma_open_length_bounds(nodes: Seq<Node>, k: int)
    requires
        nodes_wf(nodes),
        0 <= k < nodes.len(),
    ensures
        0 <= open_length_upto(nodes, k) <= k * MAX_DIST,
    decreases k,
{
    if k > 0 {
        lemma_open_length_bounds(nodes, k - 1);
        lemma_dist_bounds(nodes[k - 1], nodes[k]);
    }
}

/// `t` with the node segment `[i ..= j]` reversed.
pub open spec fn reverse_nodes(t: Seq<Node>, i: int, j: int) -> Seq<Node> {
    Seq::new(
        t.len(),
        |k: int|
            if i <= k <= j {
                t[i + j - k]
            } else {
                t[k]
            },
    )
}

/// `t` with the nodes at `i` and `j` exchanged.
pub open spec fn swap_nodes(t: Seq<Node>, i: int, j: int) -> Seq<Node> {
    t.update(i, t[j]).update(j, t[i])
}

/// Reversing a segment does not change which nodes a path holds, nor how
/// often.
pub proof fn lemma_reverse_nodes_multiset(t: Seq<Node>, i: int, j: int)
    requires
        0 <= i <= j < t.len(),
    ensures
        reverse_nodes(t, i, j).to_multiset() == t.to_multiset(),
        nodes_wf(t) ==> nodes_wf(reverse_nodes(t, i, j)),
{
    let r = reverse_nodes(t, i, j);
    let a = t.subrange(0, i);
    let b = t.subrange(i, j + 1);
    let c = t.subrange(j + 1, t.len() as int);
    assert(t =~= a + b + c);
    assert(r =~= a + b.reverse() + c);
    vstd::seq_lib::lemma_multiset_commutative(a + b, c);
    vstd::seq_lib::lemma_multiset_commutative(a, b);
    vstd::seq_lib::lemma_multiset_commutative(a + b.reverse(), c);
    vstd::seq_lib::lemma_multiset_commutative(a, b.reverse());
    b.lemma_reverse_to_multiset();
    assert(r.to_multiset() =~= t.to_multiset());
    if nodes_wf(t) {
        assert forall|k: int| 0 <= k < r.len() implies -MAX_COORD <= (#[trigger] r[k]).x
            <= MAX_COORD && -MAX_COORD <= r[k].y <= MAX_COORD by {
            if i <= k <= j {
                assert(r[k] == t[i + j - k]);
            }
        }
    }
}

/// Exchanging two nodes does not change which nodes a path holds, nor how
/// often.
pub proof fn lemma_swap_nodes_multiset(t: Seq<Node>, i: int, j: int)
    requires
        0 <= i < t.len(),
        0 <= j < t.len(),
    ensures
        swap_nodes(t, i, j).to_multiset() == t.to_multiset(),
        nodes_wf(t) ==> nodes_wf(swap_nodes(t, i, j)),
{
    broadcast use vstd::multiset::group_multiset_axioms;

    let r = swap_nodes(t, i, j);
    vstd::seq_lib::to_multiset_update(t, i, t[j]);
    vstd::seq_lib::to_multiset_update(t.update(i, t[j]), j, t[i]);
    vstd::seq_lib::to_multiset_contains(t, t[i]);
    assert(t.to_multiset().count(t[i]) > 0);
    if i != j {
        assert(t.update(i, t[j])[j] == t[j]);
        assert(r.to_multiset() =~= t.to_multiset());
    } else {
        assert(r =~= t);
    }
    if nodes_wf(t) {
        assert forall|k: int| 0 <= k < r.len() implies -MAX_COORD <= (#[trigger] r[k]).x
            <= MAX_COORD && -MAX_COORD <= r[k].y <= MAX_COORD by {
            assert(r[k] == t[k] || r[k] == t[i] || r[k] == t[j]);
        }
    }
}

/// An element-wise copy of a node vector.
pub(crate) fn clone_nodes(v: &Vec<Node>) -> (r: Vec<Node>)
    ensures
        r@ == v@,
{
    let mut r: Vec<Node> = Vec::new();
    let n = v.len();
    for i in 0..n
        invariant
            r@ == v@.subrange(0, i as int),
            n == v@.len(),
    {
        r.push(v[i]);
    }
    proof {
        assert(r@ =~= v@);
    }
    r
}

/// An element-wise copy of `t` with the node segment `[i ..= j]` reversed.
pub(crate) fn reversed_nodes_copy(t: &Vec<Node>, i: usize, j: usize) -> (r: Vec<Node>)
    requires
        i <= j < t@.len(),
    ensures
        r@ == reverse_nodes(t@, i as int, j as int),
{
    let mut r = clone_nodes(t);
    let mut a = i;
    let mut b = j;
    while a < b
        invariant
            i <= a,
            a <= b + 1,
            b <= j,
            a + b == i + j,
            j < t@.len(),
            r@.len() == t@.len(),
            forall|k: int|
                0 <= k < t@.len() ==> (#[trigger] r@[k]) == if i <= k < a || b < k <= j {
                    t@[i + j - k]
                } else {
                    t@[k]
                },
        decreases b + 1 - a,
    {
        let va = r[a];
        let vb = r[b];
        r[a] = vb;
        r[b] = va;
        a = a + 1;
        b = b - 1;
    }
    proof {
        assert forall|k: int| 0 <= k < t@.len() implies r@[k] == reverse_nodes(
            t@,
            i as int,
            j as int,
        )[k] by {
            if a == b && k == a as int {
                assert(i + j - k == k);
            }
        }
        assert(r@ =~= reverse_nodes(t@, i as int, j as int));
    }
    r
}

/// An element-wise copy of `t` with the nodes at `i` and `j` exchanged.
pub(crate) fn swapped_nodes_copy(t: &Vec<Node>, i: usize, j: usize) -> (r: Vec<Node>)
    requires
        i < t@.len(),
        j < t@.len(),
    ensures
        r@ == swap_nodes(t@, i as int, j as int),
{
    let mut r = clone_nodes(t);
    let vi = r[i];
    let vj = r[j];
    r[i] = vj;
    r[j] = vi;
    proof {
        assert(r@ =~= swap_nodes(t@, i as int, j as int));
    }
    r
}

impl Path {
    /// Nodes this path can measure.
    pub open spec fn wf(self) -> bool {
        nodes_wf(self.nodes@)
    }

    /// Wrap a node list as a path.
    pub fn new(nodes: Vec<Node>) -> (p: Path)
        ensures
            p.nodes@ == nodes@,
    {
        Path { nodes }
    }

    /// Whether some node of the path carries the identifier `node`.
    pub fn has_node(&self, node: usize) -> (b: bool)
        ensures
            b == exists|k: int| 0 <= k < self.nodes@.len() && (#[trigger] self.nodes@[k]).id
                == node,
    {
        let n = self.nodes.len();
        for k in 0..n
            invariant
                n == self.nodes@.len(),
                forall|i: int| 0 <= i < k ==> (#[trigger] self.nodes@[i]).id != node,
        {
            if self.nodes[k].id == node {
                assert((#[trigger] self.nodes@[k as int]).id == node);
                return true;
            }
        }
        false
    }

    /// Fixed-point length of the closed tour through the path's nodes in
    /// order.
    #[verifier::loop_isolation(false)]
    pub fn length(&self) -> (len: i64)
        requires
            self.wf(),
        ensures
            len == path_length(self.nodes@),
            0 <= len,
    {
        let n = self.nodes.len();
        let mut total: i64 = 0;
        for i in 0..n - 1
            invariant
                total == open_length_upto(self.nodes@, i as int),
        {
            proof {
                lemma_open_length_bounds(self.nodes@, i as int);
            }
            let d = distance(&self.nodes[i], &self.nodes[i + 1]);
            total = total + d;
        }
        proof {
            lemma_open_length_bounds(self.nodes@, n - 1);
        }
        let d = distance(&self.nodes[n - 1], &self.nodes[0]);
        total + d
    }
}

} // verus!
