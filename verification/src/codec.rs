//! The two-line solution file format, and its round trip.
//!
//! Line one is a bracketed, comma-separated list of 1-based node
//! identifiers in visiting order; line two the same for the identifiers
//! of the picked items, ascending (an empty pick renders as `[]`). Both
//! lines end in a newline. Parsing is the inverse transform: 1-based
//! identifiers back to a 0-based tour, and the sparse pick list back to a
//! dense binary plan.

use vstd::prelude::*;
use crate::instance::Instance;
use crate::objective::{plan_ok, tour_ok};

verus! {

/// An ASCII decimal digit.
pub open spec fn is_digit(c: u8) -> bool {
    48 <= c <= 57
}

/// Largest identifier value the parser accepts; it fits `usize` on every
/// supported machine, and every identifier the renderer emits lies far
/// below it.
pub const MAX_PARSE_VAL: u64 = 4_294_967_295;

/// The decimal rendering of `n`, most significant digit first.
pub open spec fn dec_rep(n: nat) -> Seq<u8>
    decreases n,
{
    if n < 10 {
        seq![(48 + n) as u8]
    } else {
        dec_rep(n / 10).push((48 + n % 10) as u8)
    }
}

/// The value of a digit string, folded from the back.
pub open spec fn num_val(s: Seq<u8>) -> nat
    decreases s.len(),
{
    if s.len() == 0 {
        0
    } else {
        (num_val(s.drop_last()) * 10 + (s.last() - 48)) as nat
    }
}

/// Every byte a decimal digit.
pub open spec fn all_digits(s: Seq<u8>) -> bool {
    forall|k: int| 0 <= k < s.len() ==> is_digit(#[trigger] s[k])
}

/// The first `k` identifiers, rendered and separated by `", "`.
pub open spec fn list_prefix(ids: Seq<usize>, k: int) -> Seq<u8>
    decreases k,
{
    if k <= 0 {
        seq![]
    } else if k == 1 {
        dec_rep(ids[0] as nat)
    } else {
        list_prefix(ids, k - 1) + seq![44u8, 32u8] + dec_rep(ids[k - 1] as nat)
    }
}

/// A bracketed, comma-separated identifier list.
pub open spec fn render_list(ids: Seq<usize>) -> Seq<u8> {
    seq![91u8] + list_prefix(ids, ids.len() as int) + seq![93u8]
}

/// The tour's entries as 1-based identifiers.
pub open spec fn tour_ids(tour: Seq<usize>) -> Seq<usize> {
    Seq::new(tour.len(), |i: int| (tour[i] + 1) as usize)
}

/// The 1-based identifiers of the items picked among the first `k`,
/// ascending.
pub open spec fn picked_ids_upto(plan: Seq<usize>, k: int) -> Seq<usize>
    decreases k,
{
    if k <= 0 {
        seq![]
    } else if plan[k - 1] == 1 {
        picked_ids_upto(plan, k - 1).push(k as usize)
    } else {
        picked_ids_upto(plan, k - 1)
    }
}

/// The 1-based identifiers of all picked items, ascending.
pub open spec fn picked_ids(plan: Seq<usize>) -> Seq<usize> {
    picked_ids_upto(plan, plan.len() as int)
}

/// The two-line solution text of a (tour, plan) pair.
pub open spec fn render_solution(tour: Seq<usize>, plan: Seq<usize>) -> Seq<u8> {
    render_list(tour_ids(tour)) + seq![10u8] + render_list(picked_ids(plan)) + seq![10u8]
}

/// Index of the last comma of `s`, or `-1`.
pub open spec fn last_comma(s: Seq<u8>) -> int
    decreases s.len(),
{
    if s.len() == 0 {
        -1
    } else if s.last() == 44 {
        s.len() - 1
    } else {
        last_comma(s.drop_last())
    }
}

/// Index of the first newline of `s`, or `-1`.
pub open spec fn first_newline(s: Seq<u8>) -> int
    decreases s.len(),
{
    if s.len() == 0 {
        -1
    } else if s.first() == 10 {
        0
    } else if first_newline(s.drop_first()) < 0 {
        -1
    } else {
        1 + first_newline(s.drop_first())
    }
}

/// The identifier list a comma-separated byte run stands for, or `None`
/// where the run is not in the canonical shape.
pub open spec fn parse_items(s: Seq<u8>) -> Option<Seq<usize>>
    decreases s.len(),
{
    let j = last_comma(s);
    if j < 0 {
        if s.len() >= 1 && all_digits(s) && num_val(s) <= MAX_PARSE_VAL {
            Some(seq![num_val(s) as usize])
        } else {
            None
        }
    } else {
        let tail = s.subrange(j + 2, s.len() as int);
        if j + 2 <= s.len() && s[j + 1] == 32 && tail.len() >= 1 && all_digits(tail) && num_val(
            tail,
        ) <= MAX_PARSE_VAL {
            match parse_items(s.subrange(0, j)) {
                Some(ids) => Some(ids.push(num_val(tail) as usize)),
                None => None,
            }
        } else {
            None
        }
    }
}

/// The identifier list a bracketed line stands for, or `None`.
pub open spec fn parse_list(s: Seq<u8>) -> Option<Seq<usize>> {
    if s.len() >= 2 && s.first() == 91 && s.last() == 93 {
        if s.len() == 2 {
            Some(seq![])
        } else {
            parse_items(s.subrange(1, s.len() - 1))
        }
    } else {
        None
    }
}

/// The dense binary plan behind an ascending 1-based pick list.
pub open spec fn mask_of(ids: Seq<usize>, m: nat) -> Seq<usize> {
    Seq::new(
        m,
        |j: int|
            if ids.contains((j + 1) as usize) {
                1usize
            } else {
                0usize
            },
    )
}

/// The (0-based tour, dense plan) pair a two-line solution text stands
/// for against an instance with `n` nodes and `m` items, or `None` where
/// the text is not canonical or an identifier is out of range.
pub open spec fn parse_solution(s: Seq<u8>, n: nat, m: nat) -> Option<(Seq<usize>, Seq<usize>)> {
    let nl = first_newline(s);
    if nl < 0 {
        None
    } else {
        let line1 = s.subrange(0, nl);
        let rest = s.subrange(nl + 1, s.len() as int);
        if rest.len() >= 1 && first_newline(rest) == rest.len() - 1 {
            let line2 = rest.subrange(0, rest.len() - 1);
            match (parse_list(line1), parse_list(line2)) {
                (Some(ids1), Some(ids2)) => {
                    if ids1.len() == n && (forall|k: int|
                        0 <= k < ids1.len() ==> 1 <= (#[trigger] ids1[k]) <= n) && (forall|k: int|
                        0 <= k < ids2.len() ==> 1 <= (#[trigger] ids2[k]) <= m) {
                        Some((Seq::new(ids1.len(), |i: int| (ids1[i] - 1) as usize), mask_of(ids2, m)))
                    } else {
                        None
                    }
                },
                _ => None,
            }
        } else {
            None
        }
    }
}

/// A decimal rendering is a non-empty digit string whose value is the
/// rendered number.
proof fn lemma_dec_rep(n: nat)
    ensures
        dec_rep(n).len() >= 1,
        all_digits(dec_rep(n)),
        num_val(dec_rep(n)) == n,
    decreases n,
{
    if n < 10 {
        let s = dec_rep(n);
        assert(s == seq![(48 + n) as u8]);
        assert(s.drop_last() =~= Seq::<u8>::empty());
        assert(num_val(s) == num_val(s.drop_last()) * 10 + (s.last() - 48));
    } else {
        lemma_dec_rep(n / 10);
        let d = dec_rep(n / 10);
        let s = d.push((48 + n % 10) as u8);
        assert(s.drop_last() =~= d);
        assert(s.last() == (48 + n % 10) as u8);
        vstd::arithmetic::div_mod::lemma_fundamental_div_mod(n as int, 10);
        assert(num_val(s) == (n / 10) * 10 + n % 10);
        assert forall|k: int| 0 <= k < s.len() implies is_digit(#[trigger] s[k]) by {
            if k < d.len() {
                assert(s[k] == d[k]);
            }
        }
    }
}

/// Appending comma-free bytes does not move the last comma.
proof fn lemma_last_comma_append(a: Seq<u8>, t: Seq<u8>)
    requires
        forall|k: int| 0 <= k < t.len() ==> (#[trigger] t[k]) != 44,
    ensures
        last_comma(a + t) == last_comma(a),
    decreases t.len(),
{
    if t.len() == 0 {
        assert(a + t =~= a);
    } else {
        assert((a + t).last() == t.last());
        assert((a + t).drop_last() =~= a + t.drop_last());
        lemma_last_comma_append(a, t.drop_last());
    }
}

/// A comma-free string has no last comma.
proof fn lemma_last_comma_none(s: Seq<u8>)
    requires
        forall|k: int| 0 <= k < s.len() ==> (#[trigger] s[k]) != 44,
    ensures
        last_comma(s) == -1,
{
    assert(Seq::<u8>::empty() + s =~= s);
    lemma_last_comma_append(Seq::<u8>::empty(), s);
}

/// The first newline of a concatenation whose head is newline-free lies
/// in the tail.
proof fn lemma_first_newline_append(a: Seq<u8>, b: Seq<u8>)
    requires
        forall|k: int| 0 <= k < a.len() ==> (#[trigger] a[k]) != 10,
    ensures
        first_newline(a + b) == if first_newline(b) < 0 {
            -1int
        } else {
            a.len() + first_newline(b)
        },
    decreases a.len(),
{
    if a.len() == 0 {
        assert(a + b =~= b);
    } else {
        assert((a + b).first() == a.first());
        assert((a + b).drop_first() =~= a.drop_first() + b);
        lemma_first_newline_append(a.drop_first(), b);
    }
}

/// Every byte of a rendered identifier-list prefix is a digit, a comma or
/// a space.
proof fn lemma_list_prefix_chars(ids: Seq<usize>, k: int)
    requires
        0 <= k <= ids.len(),
    ensures
        forall|q: int|
            0 <= q < list_prefix(ids, k).len() ==> (is_digit(#[trigger] list_prefix(ids, k)[q])
                || list_prefix(ids, k)[q] == 44 || list_prefix(ids, k)[q] == 32),
        k >= 1 ==> list_prefix(ids, k).len() >= 1,
    decreases k,
{
    if k == 1 {
        lemma_dec_rep(ids[0] as nat);
    } else if k > 1 {
        lemma_list_prefix_chars(ids, k - 1);
        lemma_dec_rep(ids[k - 1] as nat);
        let a = list_prefix(ids, k - 1);
        let d = dec_rep(ids[k - 1] as nat);
        let s = list_prefix(ids, k);
        assert(s == a + seq![44u8, 32u8] + d);
        assert forall|q: int| 0 <= q < s.len() implies (is_digit(#[trigger] s[q]) || s[q] == 44
            || s[q] == 32) by {
            if q < a.len() {
                assert(s[q] == a[q]);
            } else if q < a.len() + 2 {
                assert(s[q] == seq![44u8, 32u8][q - a.len()]);
            } else {
                assert(s[q] == d[q - a.len() - 2]);
            }
        }
    }
}

/// Every byte of a rendered list is a digit, bracket, comma or space —
/// never a newline.
proof fn lemma_render_list_chars(ids: Seq<usize>)
    ensures
        forall|q: int| 0 <= q < render_list(ids).len() ==> (#[trigger] render_list(ids)[q]) != 10,
        render_list(ids).first() == 91,
        render_list(ids).last() == 93,
        render_list(ids).len() >= 2,
{
    let s = render_list(ids);
    let body = list_prefix(ids, ids.len() as int);
    lemma_list_prefix_chars(ids, ids.len() as int);
    assert(s == seq![91u8] + body + seq![93u8]);
    assert forall|q: int| 0 <= q < s.len() implies (#[trigger] s[q]) != 10 by {
        if q == 0 {
            assert(s[q] == 91);
        } else if q < 1 + body.len() {
            assert(s[q] == body[q - 1]);
        } else {
            assert(s[q] == 93);
        }
    }
    assert(s.last() == 93);
}

/// Parsing a rendered identifier-list prefix restores its identifiers.
proof fn lemma_parse_items_prefix(ids: Seq<usize>, k: int)
    requires
        1 <= k <= ids.len(),
        forall|a: int| 0 <= a < ids.len() ==> (#[trigger] ids[a]) <= MAX_PARSE_VAL,
    ensures
        parse_items(list_prefix(ids, k)) == Some(ids.subrange(0, k)),
    decreases k,
{
    let s = list_prefix(ids, k);
    if k == 1 {
        lemma_dec_rep(ids[0] as nat);
        lemma_last_comma_none(s);
        assert(num_val(s) == ids[0] as nat);
        assert(num_val(s) <= MAX_PARSE_VAL);
        assert(seq![(num_val(s) as usize)] =~= ids.subrange(0, 1));
    } else {
        let a = list_prefix(ids, k - 1);
        let d = dec_rep(ids[k - 1] as nat);
        lemma_dec_rep(ids[k - 1] as nat);
        lemma_list_prefix_chars(ids, k - 1);
        assert(s == a + seq![44u8, 32u8] + d);
        assert(s =~= (a + seq![44u8]) + (seq![32u8] + d));
        assert forall|q: int| 0 <= q < (seq![32u8] + d).len() implies (#[trigger] (seq![32u8]
            + d)[q]) != 44 by {
            if q > 0 {
                assert((seq![32u8] + d)[q] == d[q - 1]);
            }
        }
        lemma_last_comma_append(a + seq![44u8], seq![32u8] + d);
        assert((a + seq![44u8]).last() == 44);
        assert(last_comma(a + seq![44u8]) == a.len());
        let j = last_comma(s);
        assert(j == a.len());
        assert(s[j + 1] == 32);
        assert(s.subrange(j + 2, s.len() as int) =~= d);
        assert(s.subrange(0, j) =~= a);
        assert(num_val(d) == ids[k - 1] as nat);
        lemma_parse_items_prefix(ids, k - 1);
        assert(ids.subrange(0, k - 1).push(ids[k - 1]) =~= ids.subrange(0, k));
    }
}

/// Parsing a rendered identifier list restores its identifiers.
proof fn lemma_parse_render_list(ids: Seq<usize>)
    requires
        forall|a: int| 0 <= a < ids.len() ==> (#[trigger] ids[a]) <= MAX_PARSE_VAL,
    ensures
        parse_list(render_list(ids)) == Some(ids),
{
    let s = render_list(ids);
    let body = list_prefix(ids, ids.len() as int);
    lemma_render_list_chars(ids);
    lemma_list_prefix_chars(ids, ids.len() as int);
    assert(s == seq![91u8] + body + seq![93u8]);
    if ids.len() == 0 {
        assert(s.len() == 2);
        assert(Some(Seq::<usize>::empty()) == Some(ids)) by {
            assert(Seq::<usize>::empty() =~= ids);
        }
    } else {
        assert(s.len() >= 3);
        assert(s.subrange(1, s.len() - 1) =~= body);
        lemma_parse_items_prefix(ids, ids.len() as int);
        assert(ids.subrange(0, ids.len() as int) =~= ids);
    }
}

/// The pick list of the first `k` items: ascending 1-based identifiers of
/// exactly the picked items.
proof fn lemma_picked_ids_upto(plan: Seq<usize>, k: int)
    requires
        0 <= k <= plan.len(),
        plan.len() <= usize::MAX,
    ensures
        forall|a: int|
            0 <= a < picked_ids_upto(plan, k).len() ==> 1 <= (#[trigger] picked_ids_upto(
                plan,
                k,
            )[a]) <= k,
        forall|j: int|
            0 <= j < k ==> (picked_ids_upto(plan, k).contains(((j + 1) as usize)) <==> plan[j]
                == 1),
    decreases k,
{
    if k > 0 {
        lemma_picked_ids_upto(plan, k - 1);
        let prev = picked_ids_upto(plan, k - 1);
        let cur = picked_ids_upto(plan, k);
        assert forall|a: int| 0 <= a < cur.len() implies 1 <= (#[trigger] cur[a]) <= k by {
            if a < prev.len() {
                assert(cur[a] == prev[a]);
            }
        }
        assert forall|j: int| 0 <= j < k implies (cur.contains(((j + 1) as usize)) <==> plan[j]
            == 1) by {
            if plan[k - 1] == 1 {
                assert(cur == prev.push(k as usize));
                if j == k - 1 {
                    assert(cur[cur.len() - 1] == (j + 1) as usize);
                } else {
                    if plan[j] == 1 {
                        let w = choose|w: int| 0 <= w < prev.len() && prev[w] == (j + 1) as usize;
                        assert(cur[w] == (j + 1) as usize);
                    } else {
                        if cur.contains(((j + 1) as usize)) {
                            let w = choose|w: int|
                                0 <= w < cur.len() && cur[w] == (j + 1) as usize;
                            assert(w < prev.len());
                            assert(prev[w] == (j + 1) as usize);
                        }
                    }
                }
            } else {
                assert(cur == prev);
                if j == k - 1 {
                    if cur.contains(((j + 1) as usize)) {
                        let w = choose|w: int| 0 <= w < cur.len() && cur[w] == (j + 1) as usize;
                        assert(1 <= prev[w] <= k - 1);
                    }
                }
            }
        }
    }
}

/// A two-line text splits at its newlines: the first newline ends line
/// one, and the remainder is line two plus one final newline.
proof fn lemma_render_splits(ids1: Seq<usize>, ids2: Seq<usize>, s: Seq<u8>)
    requires
        s == render_list(ids1) + seq![10u8] + render_list(ids2) + seq![10u8],
    ensures
        first_newline(s) == render_list(ids1).len(),
        s.subrange(0, first_newline(s)) == render_list(ids1),
        s.subrange(first_newline(s) + 1, s.len() as int) == render_list(ids2) + seq![10u8],
        first_newline(render_list(ids2) + seq![10u8]) == render_list(ids2).len(),
        (render_list(ids2) + seq![10u8]).subrange(0, render_list(ids2).len() as int)
            == render_list(ids2),
{
    let line1 = render_list(ids1);
    let line2 = render_list(ids2);
    lemma_render_list_chars(ids1);
    lemma_render_list_chars(ids2);

    assert(s =~= line1 + (seq![10u8] + line2 + seq![10u8]));
    lemma_first_newline_append(line1, seq![10u8] + line2 + seq![10u8]);
    assert((seq![10u8] + line2 + seq![10u8]).first() == 10);
    assert(first_newline(seq![10u8] + line2 + seq![10u8]) == 0);
    let nl = first_newline(s);
    assert(nl == line1.len());
    assert(s.subrange(0, nl) =~= line1);
    let rest = s.subrange(nl + 1, s.len() as int);
    assert(rest =~= line2 + seq![10u8]);

    lemma_first_newline_append(line2, seq![10u8]);
    assert(first_newline(seq![10u8]) == 0);
    assert(first_newline(rest) == rest.len() - 1);
    assert(rest.subrange(0, rest.len() - 1) =~= line2);
}

/// Parsing the rendering of a valid (tour, plan) pair restores it
/// exactly: the file format round-trips through the 0-based/1-based index
/// shift and the sparse/dense plan change.
#[verifier::rlimit(60)]
pub proof fn lemma_parse_render_round_trip(inst: Instance, tour: Seq<usize>, plan: Seq<usize>)
    requires
        inst.bounded(),
        tour_ok(inst, tour),
        plan_ok(inst, plan),
    ensures
        parse_solution(
            render_solution(tour, plan),
            inst.nodes@.len(),
            inst.items@.len(),
        ) == Some((tour, plan)),
{
    let n = inst.nodes@.len();
    let m = inst.items@.len();
    let ids1 = tour_ids(tour);
    let ids2 = picked_ids(plan);
    let line1 = render_list(ids1);
    let line2 = render_list(ids2);
    let s = render_solution(tour, plan);
    lemma_render_splits(ids1, ids2, s);
    let nl = first_newline(s);
    let rest = s.subrange(nl + 1, s.len() as int);

    lemma_picked_ids_upto(plan, plan.len() as int);
    assert forall|a: int| 0 <= a < ids1.len() implies (#[trigger] ids1[a]) <= MAX_PARSE_VAL by {
        assert(ids1[a] == tour[a] + 1);
    }
    lemma_parse_render_list(ids1);
    lemma_parse_render_list(ids2);

    assert(ids1.len() == n);
    assert(forall|k: int| 0 <= k < ids1.len() ==> 1 <= (#[trigger] ids1[k]) <= n);
    assert(forall|k: int| 0 <= k < ids2.len() ==> 1 <= (#[trigger] ids2[k]) <= m);

    assert(Seq::new(ids1.len(), |i: int| (ids1[i] - 1) as usize) =~= tour);
    assert(mask_of(ids2, m) =~= plan);
}

/// Append the decimal rendering of `n`.
fn push_dec(buf: &mut Vec<u8>, n: usize)
    ensures
        final(buf)@ == old(buf)@ + dec_rep(n as nat),
    decreases n,
{
    if n >= 10 {
        push_dec(buf, n / 10);
    }
    let ghost mid = buf@;
    buf.push((48 + n % 10) as u8);
    proof {
        if n < 10 {
            assert(buf@ =~= old(buf)@ + dec_rep(n as nat));
        } else {
            assert(mid == old(buf)@ + dec_rep((n / 10) as nat));
            assert(dec_rep(n as nat) == dec_rep((n / 10) as nat).push((48 + n % 10) as u8));
            assert(buf@ =~= old(buf)@ + dec_rep(n as nat));
        }
    }
}

/// Append a bracketed, comma-separated identifier list.
#[verifier::loop_isolation(false)]
fn push_list(buf: &mut Vec<u8>, ids: &Vec<usize>)
    ensures
        final(buf)@ == old(buf)@ + render_list(ids@),
{
    buf.push(91);
    let k = ids.len();
    for t in 0..k
        invariant
            k == ids@.len(),
            buf@ == old(buf)@ + seq![91u8] + list_prefix(ids@, t as int),
    {
        let ghost mid = buf@;
        if t > 0 {
            buf.push(44);
            buf.push(32);
        }
        push_dec(buf, ids[t]);
        proof {
            if t == 0 {
                assert(list_prefix(ids@, 1) == dec_rep(ids@[0] as nat));
                assert(buf@ =~= old(buf)@ + seq![91u8] + list_prefix(ids@, t + 1));
            } else {
                assert(list_prefix(ids@, t + 1) == list_prefix(ids@, t as int) + seq![44u8, 32u8]
                    + dec_rep(ids@[t as int] as nat));
                assert(buf@ =~= old(buf)@ + seq![91u8] + list_prefix(ids@, t + 1));
            }
        }
    }
    buf.push(93);
    proof {
        assert(buf@ =~= old(buf)@ + render_list(ids@));
    }
}

/// The two-line solution text of a (tour, plan) pair, as ASCII bytes.
#[verifier::loop_isolation(false)]
pub fn render_solution_bytes(tour: &Vec<usize>, packing_plan: &Vec<usize>) -> (r: Vec<u8>)
    requires
        forall|k: int| 0 <= k < tour@.len() ==> (#[trigger] tour@[k]) < usize::MAX,
    ensures
        r@ == render_solution(tour@, packing_plan@),
{
    let n = tour.len();
    let mut ids1: Vec<usize> = Vec::new();
    for i in 0..n
        invariant
            n == tour@.len(),
            ids1@.len() == i,
            forall|q: int| 0 <= q < i ==> (#[trigger] ids1@[q]) == tour@[q] + 1,
    {
        ids1.push(tour[i] + 1);
    }
    proof {
        assert(ids1@ =~= tour_ids(tour@));
    }
    let m = packing_plan.len();
    let mut ids2: Vec<usize> = Vec::new();
    for j in 0..m
        invariant
            m == packing_plan@.len(),
            ids2@ == picked_ids_upto(packing_plan@, j as int),
    {
        if packing_plan[j] == 1 {
            ids2.push(j + 1);
        }
    }
    let mut buf: Vec<u8> = Vec::new();
    push_list(&mut buf, &ids1);
    buf.push(10);
    push_list(&mut buf, &ids2);
    buf.push(10);
    proof {
        assert(buf@ =~= render_solution(tour@, packing_plan@));
    }
    buf
}

/// The first newline is where the first `10` byte stands.
proof fn lemma_first_newline_at(s: Seq<u8>, i: int)
    requires
        0 <= i < s.len(),
        s[i] == 10,
        forall|k: int| 0 <= k < i ==> (#[trigger] s[k]) != 10,
    ensures
        first_newline(s) == i,
    decreases i,
{
    if i > 0 {
        assert(s.drop_first()[i - 1] == 10);
        lemma_first_newline_at(s.drop_first(), i - 1);
    }
}

/// A newline-free string has no first newline.
proof fn lemma_first_newline_missing(s: Seq<u8>)
    requires
        forall|k: int| 0 <= k < s.len() ==> (#[trigger] s[k]) != 10,
    ensures
        first_newline(s) == -1,
    decreases s.len(),
{
    if s.len() > 0 {
        lemma_first_newline_missing(s.drop_first());
    }
}

/// The last comma is where the last `44` byte stands.
proof fn lemma_last_comma_at(s: Seq<u8>, i: int)
    requires
        0 <= i < s.len(),
        s[i] == 44,
        forall|k: int| i < k < s.len() ==> (#[trigger] s[k]) != 44,
    ensures
        last_comma(s) == i,
    decreases s.len(),
{
    if i < s.len() - 1 {
        assert(s.drop_last()[i] == 44);
        lemma_last_comma_at(s.drop_last(), i);
    }
}

/// A digit string's value only grows as digits are appended.
proof fn lemma_num_val_prefix_le(s: Seq<u8>, k: int)
    requires
        0 <= k <= s.len(),
        all_digits(s),
    ensures
        num_val(s.subrange(0, k)) <= num_val(s),
    decreases s.len() - k,
{
    if k == s.len() {
        assert(s.subrange(0, k) =~= s);
    }
    if k < s.len() {
        lemma_num_val_prefix_le(s, k + 1);
        let a = s.subrange(0, k);
        let b = s.subrange(0, k + 1);
        assert(b.drop_last() =~= a);
        assert(num_val(b) == num_val(a) * 10 + (b.last() - 48));
        assert(num_val(a) * 10 >= num_val(a)) by (nonlinear_arith)
            requires
                num_val(a) >= 0,
        ;
    }
}

/// The value of the digits `s[from .. to)`, or `None` where it exceeds
/// `MAX_PARSE_VAL`.
#[verifier::loop_isolation(false)]
fn digits_val(s: &Vec<u8>, from: usize, to: usize) -> (r: Option<usize>)
    requires
        from < to <= s@.len(),
        all_digits(s@.subrange(from as int, to as int)),
    ensures
        match r {
            Some(v) => v as nat == num_val(s@.subrange(from as int, to as int)) && v
                <= MAX_PARSE_VAL as usize,
            None => num_val(s@.subrange(from as int, to as int)) > MAX_PARSE_VAL,
        },
{
    let ghost seg = s@.subrange(from as int, to as int);
    let mut acc: u64 = 0;
    let mut k = from;
    while k < to
        invariant
            from <= k <= to,
            acc as nat == num_val(s@.subrange(from as int, k as int)),
            acc <= MAX_PARSE_VAL,
        decreases to - k,
    {
        let d = s[k];
        assert(seg[k - from] == d);
        assert(is_digit(d));
        let ghost pre = s@.subrange(from as int, k as int);
        let ghost cur = s@.subrange(from as int, k + 1);
        assert(cur.drop_last() =~= pre);
        assert(cur.last() == d);
        let next: u64 = acc * 10 + ((d - 48) as u64);
        assert(next == num_val(cur));
        if next > MAX_PARSE_VAL {
            proof {
                assert(cur =~= seg.subrange(0, k + 1 - from));
                lemma_num_val_prefix_le(seg, k + 1 - from);
            }
            return None;
        }
        acc = next;
        k = k + 1;
    }
    assert(s@.subrange(from as int, to as int) == s@.subrange(from as int, k as int));
    Some(acc as usize)
}

/// The identifiers of the comma-separated run `s[from .. to)`, mirroring
/// `parse_items`.
#[verifier::loop_isolation(false)]
fn parse_items_bytes(s: &Vec<u8>, from: usize, to: usize) -> (r: Option<Vec<usize>>)
    requires
        from <= to <= s@.len(),
    ensures
        match r {
            Some(ids) => parse_items(s@.subrange(from as int, to as int)) == Some(ids@),
            None => parse_items(s@.subrange(from as int, to as int)) is None,
        },
    decreases to,
{
    let ghost seg = s@.subrange(from as int, to as int);
    // find the last comma of the segment
    let mut comma: Option<usize> = None;
    let mut k = from;
    while k < to
        invariant
            from <= k <= to,
            match comma {
                Some(c) => from <= c < k && s@[c as int] == 44 && forall|q: int|
                    c < q < k ==> (#[trigger] s@[q]) != 44,
                None => forall|q: int| from <= q < k ==> (#[trigger] s@[q]) != 44,
            },
        decreases to - k,
    {
        if s[k] == 44 {
            comma = Some(k);
        }
        k = k + 1;
    }
    match comma {
        None => {
            proof {
                assert forall|q: int| 0 <= q < seg.len() implies (#[trigger] seg[q]) != 44 by {
                    assert(seg[q] == s@[from + q]);
                }
                lemma_last_comma_none(seg);
            }
            if to == from {
                return None;
            }
            // the whole run must be digits
            let mut q = from;
            while q < to
                invariant
                    from <= q <= to,
                    forall|w: int| from <= w < q ==> is_digit(#[trigger] s@[w]),
                decreases to - q,
            {
                if s[q] < 48 || s[q] > 57 {
                    proof {
                        assert(seg[q - from] == s@[q as int]);
                        assert(!all_digits(seg));
                    }
                    return None;
                }
                q = q + 1;
            }
            proof {
                assert forall|w: int| 0 <= w < seg.len() implies is_digit(#[trigger] seg[w]) by {
                    assert(seg[w] == s@[from + w]);
                }
            }
            match digits_val(s, from, to) {
                Some(v) => {
                    let mut ids: Vec<usize> = Vec::new();
                    ids.push(v);
                    proof {
                        assert(ids@ =~= seq![(num_val(seg) as usize)]);
                    }
                    Some(ids)
                },
                None => None,
            }
        },
        Some(c) => {
            proof {
                assert(seg[c - from] == 44);
                assert forall|q: int| c - from < q < seg.len() implies (#[trigger] seg[q])
                    != 44 by {
                    assert(seg[q] == s@[from + q]);
                }
                lemma_last_comma_at(seg, c - from);
            }
            let ghost j = c - from;
            if to - c < 2 {
                return None;
            }
            if s[c + 1] != 32 {
                proof {
                    assert(seg[j + 1] == s@[c + 1]);
                }
                return None;
            }
            assert(seg[j + 1] == 32) by {
                assert(seg[j + 1] == s@[c + 1]);
            }
            let ghost tail = seg.subrange(j + 2, seg.len() as int);
            proof {
                assert(tail =~= s@.subrange(c + 2, to as int));
            }
            if to - c == 2 {
                return None;
            }
            // the tail must be digits
            let mut q = c + 2;
            while q < to
                invariant
                    c + 2 <= q <= to,
                    forall|w: int| c + 2 <= w < q ==> is_digit(#[trigger] s@[w]),
                decreases to - q,
            {
                if s[q] < 48 || s[q] > 57 {
                    proof {
                        assert(tail[q - c - 2] == s@[q as int]);
                        assert(!all_digits(tail));
                    }
                    return None;
                }
                q = q + 1;
            }
            proof {
                assert forall|w: int| 0 <= w < tail.len() implies is_digit(#[trigger] tail[w]) by {
                    assert(tail[w] == s@[c + 2 + w]);
                }
            }
            match digits_val(s, c + 2, to) {
                Some(v) => {
                    proof {
                        assert(seg.subrange(0, j) =~= s@.subrange(from as int, c as int));
                    }
                    match parse_items_bytes(s, from, c) {
                        Some(mut ids) => {
                            let ghost ids0 = ids@;
                            ids.push(v);
                            proof {
                                assert(ids@ == ids0.push(v));
                            }
                            Some(ids)
                        },
                        None => None,
                    }
                },
                None => None,
            }
        },
    }
}

/// The identifiers of one bracketed line, mirroring `parse_list`.
fn parse_list_bytes(s: &Vec<u8>) -> (r: Option<Vec<usize>>)
    ensures
        match r {
            Some(ids) => parse_list(s@) == Some(ids@),
            None => parse_list(s@) is None,
        },
{
    let n = s.len();
    if n < 2 {
        return None;
    }
    if s[0] != 91 || s[n - 1] != 93 {
        return None;
    }
    if n == 2 {
        let ids: Vec<usize> = Vec::new();
        proof {
            assert(ids@ =~= Seq::<usize>::empty());
        }
        return Some(ids);
    }
    proof {
        assert(s@.subrange(1, n - 1) == s@.subrange(1int, s@.len() - 1));
    }
    parse_items_bytes(s, 1, n - 1)
}

/// An element-wise copy of `v[from .. to)`.
fn sub_bytes(v: &Vec<u8>, from: usize, to: usize) -> (r: Vec<u8>)
    requires
        from <= to <= v@.len(),
    ensures
        r@ == v@.subrange(from as int, to as int),
{
    let mut r: Vec<u8> = Vec::new();
    let mut i = from;
    while i < to
        invariant
            from <= i <= to <= v@.len(),
            r@ == v@.subrange(from as int, i as int),
        decreases to - i,
    {
        let ghost pre = r@;
        r.push(v[i]);
        proof {
            assert(r@ =~= v@.subrange(from as int, i + 1));
        }
        i = i + 1;
    }
    r
}

/// Parse a two-line solution text against the node and item counts of an
/// instance, mirroring `parse_solution`: the 0-based tour and the dense
/// binary plan it stands for, or `None` where the text is not canonical
/// or an identifier is out of range.
#[verifier::loop_isolation(false)]
pub fn parse_solution_bytes(text: &Vec<u8>, num_nodes: usize, num_items: usize) -> (r: Option<
    (Vec<usize>, Vec<usize>),
>)
    ensures
        match r {
            Some(tp) => {
                &&& parse_solution(text@, num_nodes as nat, num_items as nat) == Some(
                    (tp.0@, tp.1@),
                )
                &&& tp.0@.len() == num_nodes
                &&& forall|k: int| 0 <= k < tp.0@.len() ==> (#[trigger] tp.0@[k]) < num_nodes
                &&& tp.1@.len() == num_items
                &&& forall|k: int|
                    0 <= k < tp.1@.len() ==> (#[trigger] tp.1@[k]) == 0 || tp.1@[k] == 1
            },
            None => parse_solution(text@, num_nodes as nat, num_items as nat) is None,
        },
{
    let len = text.len();
    let mut nl: usize = 0;
    while nl < len && text[nl] != 10
        invariant
            nl <= len,
            forall|k: int| 0 <= k < nl ==> (#[trigger] text@[k]) != 10,
        decreases len - nl,
    {
        nl = nl + 1;
    }
    if nl == len {
        proof {
            lemma_first_newline_missing(text@);
        }
        return None;
    }
    proof {
        lemma_first_newline_at(text@, nl as int);
    }
    let line1 = sub_bytes(text, 0, nl);
    let rest = sub_bytes(text, nl + 1, len);
    let rl = rest.len();
    if rl == 0 {
        return None;
    }
    let mut q: usize = 0;
    while q < rl - 1 && rest[q] != 10
        invariant
            q <= rl - 1,
            rl == rest@.len(),
            forall|k: int| 0 <= k < q ==> (#[trigger] rest@[k]) != 10,
        decreases rl - q,
    {
        q = q + 1;
    }
    if q < rl - 1 {
        proof {
            lemma_first_newline_at(rest@, q as int);
        }
        return None;
    }
    if rest[rl - 1] != 10 {
        proof {
            lemma_first_newline_missing(rest@);
        }
        return None;
    }
    proof {
        lemma_first_newline_at(rest@, rl - 1);
    }
    let line2 = sub_bytes(&rest, 0, rl - 1);
    proof {
        assert(line2@ =~= text@.subrange(nl + 1, len as int).subrange(
            0,
            text@.subrange(nl + 1, len as int).len() - 1,
        ));
    }
    let ids1 = match parse_list_bytes(&line1) {
        Some(x) => x,
        None => {
            return None;
        },
    };
    let ids2 = match parse_list_bytes(&line2) {
        Some(x) => x,
        None => {
            return None;
        },
    };
    if ids1.len() != num_nodes {
        return None;
    }
    let n1 = ids1.len();
    let mut tour: Vec<usize> = Vec::new();
    for k in 0..n1
        invariant
            n1 == ids1@.len(),
            tour@.len() == k,
            forall|w: int| 0 <= w < k ==> 1 <= (#[trigger] ids1@[w]) <= num_nodes,
            forall|w: int| 0 <= w < k ==> (#[trigger] tour@[w]) == ids1@[w] - 1,
    {
        let id = ids1[k];
        if id < 1 || id > num_nodes {
            assert(!(1 <= ids1@[k as int] <= num_nodes));
            return None;
        }
        tour.push(id - 1);
    }
    let n2 = ids2.len();
    let mut plan: Vec<usize> = Vec::new();
    for j in 0..num_items
        invariant
            plan@.len() == j,
            forall|w: int| 0 <= w < j ==> (#[trigger] plan@[w]) == 0,
    {
        plan.push(0);
    }
    proof {
        assert forall|j: int| 0 <= j < num_items implies plan@[j] == (if ids2@.subrange(
            0,
            0,
        ).contains(((j + 1) as usize)) {
            1usize
        } else {
            0usize
        }) by {
            assert(ids2@.subrange(0, 0).len() == 0);
        }
    }
    for k in 0..n2
        invariant
            n2 == ids2@.len(),
            plan@.len() == num_items,
            forall|w: int| 0 <= w < k ==> 1 <= (#[trigger] ids2@[w]) <= num_items,
            forall|j: int|
                0 <= j < num_items ==> (#[trigger] plan@[j]) == (if ids2@.subrange(0, k as int).contains(
                    ((j + 1) as usize),
                ) {
                    1usize
                } else {
                    0usize
                }),
    {
        let id = ids2[k];
        if id < 1 || id > num_items {
            assert(!(1 <= ids2@[k as int] <= num_items));
            return None;
        }
        let ghost before = plan@;
        plan[id - 1] = 1;
        proof {
            assert forall|j: int| 0 <= j < num_items implies (#[trigger] plan@[j]) == (
            if ids2@.subrange(0, k + 1).contains(((j + 1) as usize)) {
                1usize
            } else {
                0usize
            }) by {
                let prev = ids2@.subrange(0, k as int);
                let cur = ids2@.subrange(0, k + 1);
                assert(cur =~= prev.push(ids2@[k as int]));
                if j + 1 == id {
                    assert(cur[k as int] == (j + 1) as usize);
                    assert(cur.contains(((j + 1) as usize)));
                } else {
                    assert(plan@[j] == before[j]);
                    if cur.contains(((j + 1) as usize)) {
                        let w = choose|w: int| 0 <= w < cur.len() && cur[w] == (j + 1) as usize;
                        assert(w < prev.len());
                        assert(prev[w] == (j + 1) as usize);
                    }
                    if prev.contains(((j + 1) as usize)) {
                        let w = choose|w: int| 0 <= w < prev.len() && prev[w] == (j + 1) as usize;
                        assert(cur[w] == (j + 1) as usize);
                    }
                }
            }
        }
    }
    proof {
        assert(tour@ =~= Seq::new(ids1@.len(), |i: int| (ids1@[i] - 1) as usize));
        assert(ids2@.subrange(0, n2 as int) =~= ids2@);
        assert(plan@ =~= mask_of(ids2@, num_items as nat));
    }
    Some((tour, plan))
}

/// The tour rotated left so that node index 0 leads, where it occurs at
/// all: the anchoring the optimizer expects of a tour read from a
/// solution file.
#[verifier::loop_isolation(false)]
pub fn rotate_to_depot(tour: &Vec<usize>) -> (r: Vec<usize>)
    ensures
        exists|p: int|
            0 <= p <= tour@.len() && r@ == #[trigger] tour@.subrange(p, tour@.len() as int)
                + tour@.subrange(0, p),
        tour@.contains(0usize) ==> r@.len() > 0 && r@[0] == 0,
{
    let n = tour.len();
    let mut pos: usize = 0;
    while pos < n && tour[pos] != 0
        invariant
            pos <= n,
            n == tour@.len(),
            forall|k: int| 0 <= k < pos ==> (#[trigger] tour@[k]) != 0,
        decreases n - pos,
    {
        pos = pos + 1;
    }
    let mut r: Vec<usize> = Vec::new();
    let mut i = pos;
    while i < n
        invariant
            pos <= i <= n,
            n == tour@.len(),
            r@ == tour@.subrange(pos as int, i as int),
        decreases n - i,
    {
        r.push(tour[i]);
        proof {
            assert(r@ =~= tour@.subrange(pos as int, i + 1));
        }
        i = i + 1;
    }
    let mut i2: usize = 0;
    while i2 < pos
        invariant
            i2 <= pos <= n,
            n == tour@.len(),
            r@ == tour@.subrange(pos as int, n as int) + tour@.subrange(0, i2 as int),
        decreases pos - i2,
    {
        r.push(tour[i2]);
        proof {
            assert(r@ =~= tour@.subrange(pos as int, n as int) + tour@.subrange(0, i2 + 1));
        }
        i2 = i2 + 1;
    }
    proof {
        assert(0 <= pos as int <= tour@.len() && r@ == tour@.subrange(
            pos as int,
            tour@.len() as int,
        ) + tour@.subrange(0, pos as int));
        if tour@.contains(0usize) {
            let w = choose|w: int| 0 <= w < tour@.len() && tour@[w] == 0usize;
            assert(pos < n);
            assert(r@[0] == tour@[pos as int]);
        }
    }
    r
}

} // verus!
