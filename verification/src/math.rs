//! Integer square root and the fixed-point Euclidean distance between
//! nodes, together with the bounds the evaluator's overflow proofs need.

use vstd::prelude::*;
use crate::instance::{Node, MAX_COORD};

verus! {

/// Largest argument `isqrt` accepts; any sum of two squared coordinate
/// differences stays below it.
pub const ISQRT_MAX: u128 = 8_000_000_000_000_000_000;

/// Every distance is at most this (and `isqrt(ISQRT_MAX)` is too, since
/// 3_000_000_000 squared exceeds `ISQRT_MAX`).
pub const MAX_DIST: i64 = 3_000_000_000;

/// The floor of the square root of `n`.
pub open spec fn sqrt_floor(n: nat) -> nat
    decreases n,
{
    if n == 0 {
        0
    } else {
        let r = sqrt_floor((n - 1) as nat);
        if (r + 1) * (r + 1) <= n {
            r + 1
        } else {
            r
        }
    }
}

/// `sqrt_floor(n)` is the unique `r` with `r * r <= n < (r + 1) * (r + 1)`.
pub proof fn lemma_sqrt_floor_bounds(n: nat)
    ensures
        sqrt_floor(n) * sqrt_floor(n) <= n,
        n < (sqrt_floor(n) + 1) * (sqrt_floor(n) + 1),
    decreases n,
{
    let s = sqrt_floor(n);
    if n > 0 {
        lemma_sqrt_floor_bounds((n - 1) as nat);
        let r = sqrt_floor((n - 1) as nat);
        if (r + 1) * (r + 1) <= n {
            assert(s == r + 1);
            assert(s * s <= n && n < (s + 1) * (s + 1)) by (nonlinear_arith)
                requires
                    s == r + 1,
                    (r + 1) * (r + 1) <= n,
                    n - 1 < (r + 1) * (r + 1),
            ;
        } else {
            assert(s == r);
            assert(s * s <= n && n < (s + 1) * (s + 1)) by (nonlinear_arith)
                requires
                    s == r,
                    r * r <= n - 1,
                    n < (r + 1) * (r + 1),
                    n >= 1,
            ;
        }
    } else {
        assert(s == 0);
        assert(s * s <= n && n < (s + 1) * (s + 1)) by (nonlinear_arith)
            requires
                s == 0,
                n == 0,
        ;
    }
}

/// Any `r` with `r * r <= n < (r + 1) * (r + 1)` equals `sqrt_floor(n)`.
pub proof fn lemma_sqrt_floor_unique(n: nat, r: nat)
    requires
        r * r <= n,
        n < (r + 1) * (r + 1),
    ensures
        r == sqrt_floor(n),
{
    let s = sqrt_floor(n);
    lemma_sqrt_floor_bounds(n);
    if r < s {
        assert((r + 1) * (r + 1) <= s * s) by (nonlinear_arith)
            requires
                r + 1 <= s,
        ;
    }
    if s < r {
        assert((s + 1) * (s + 1) <= r * r) by (nonlinear_arith)
            requires
                s + 1 <= r,
        ;
    }
}

/// If `n` lies below `(b + 1)` squared then its root is at most `b`.
pub proof fn lemma_sqrt_floor_upper(n: nat, b: nat)
    requires
        n < (b + 1) * (b + 1),
    ensures
        sqrt_floor(n) <= b,
{
    lemma_sqrt_floor_bounds(n);
    let s = sqrt_floor(n);
    if b < s {
        assert((b + 1) * (b + 1) <= s * s) by (nonlinear_arith)
            requires
                b + 1 <= s,
        ;
    }
}

/// Floor of the square root, by binary search.
pub fn isqrt(x: u128) -> (r: u64)
    requires
        x <= ISQRT_MAX,
    ensures
        r as nat == sqrt_floor(x as nat),
        (r as u128) * (r as u128) <= x,
        x < ((r + 1) as u128) * ((r + 1) as u128),
        r <= MAX_DIST as u64,
{
    let mut lo: u64 = 0;
    let mut hi: u64 = 3_000_000_000;
    assert(x < (hi as u128) * (hi as u128)) by (nonlinear_arith)
        requires
            x <= ISQRT_MAX,
            hi == 3_000_000_000u64,
    ;
    while lo + 1 < hi
        invariant
            lo < hi <= 3_000_000_000,
            (lo as u128) * (lo as u128) <= x,
            x < (hi as u128) * (hi as u128),
        decreases hi - lo,
    {
        let mid: u64 = lo + (hi - lo) / 2;
        assert(lo < mid < hi);
        assert((mid as u128) * (mid as u128) <= 9_000_000_000_000_000_000u128) by (nonlinear_arith)
            requires
                mid <= 3_000_000_000u64,
        ;
        if (mid as u128) * (mid as u128) <= x {
            lo = mid;
        } else {
            hi = mid;
        }
    }
    proof {
        lemma_sqrt_floor_unique(x as nat, lo as nat);
    }
    lo
}

/// Fixed-point Euclidean distance: the floor of the square root of the sum
/// of the squared raw coordinate differences. Because raw values carry the
/// scale once, no rescaling is needed: the raw distance is the root of the
/// raw squares.
pub open spec fn spec_dist(a: Node, b: Node) -> int {
    sqrt_floor((sq(a.x - b.x) + sq(a.y - b.y)) as nat) as int
}

/// The square of an integer.
pub open spec fn sq(x: int) -> int {
    x * x
}

/// Distances between in-bound nodes stay below `MAX_DIST`.
pub proof fn lemma_dist_bounds(a: Node, b: Node)
    requires
        -MAX_COORD <= a.x <= MAX_COORD,
        -MAX_COORD <= a.y <= MAX_COORD,
        -MAX_COORD <= b.x <= MAX_COORD,
        -MAX_COORD <= b.y <= MAX_COORD,
    ensures
        0 <= spec_dist(a, b) < MAX_DIST,
{
    assert(0 <= sq(a.x - b.x) + sq(a.y - b.y) <= ISQRT_MAX) by (nonlinear_arith)
        requires
            -2 * MAX_COORD <= a.x - b.x <= 2 * MAX_COORD,
            -2 * MAX_COORD <= a.y - b.y <= 2 * MAX_COORD,
    ;
    let n = (sq(a.x - b.x) + sq(a.y - b.y)) as nat;
    assert(n < (2_999_999_999nat + 1) * (2_999_999_999nat + 1)) by (nonlinear_arith)
        requires
            n <= ISQRT_MAX,
    ;
    lemma_sqrt_floor_upper(n, 2_999_999_999nat);
}

/// Fixed-point Euclidean distance between two nodes.
pub fn distance(a: &Node, b: &Node) -> (d: i64)
    requires
        -MAX_COORD <= a.x <= MAX_COORD,
        -MAX_COORD <= a.y <= MAX_COORD,
        -MAX_COORD <= b.x <= MAX_COORD,
        -MAX_COORD <= b.y <= MAX_COORD,
    ensures
        d == spec_dist(*a, *b),
        0 <= d < MAX_DIST,
{
    let dx: i128 = a.x as i128 - b.x as i128;
    let dy: i128 = a.y as i128 - b.y as i128;
    assert(0 <= dx * dx <= 4_000_000_000_000_000_000 && 0 <= dy * dy
        <= 4_000_000_000_000_000_000) by (nonlinear_arith)
        requires
            -2 * MAX_COORD <= dx <= 2 * MAX_COORD,
            -2 * MAX_COORD <= dy <= 2 * MAX_COORD,
    ;
    let s: u128 = (dx * dx) as u128 + (dy * dy) as u128;
    let r = isqrt(s);
    proof {
        lemma_dist_bounds(*a, *b);
    }
    r as i64
}

} // verus!
