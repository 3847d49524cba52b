//! The mathematical model: the sequential Fletcher recurrence, its closed
//! form, and the per-lane sums that the lane-parallel path maintains.

use vstd::prelude::*;
use vstd::arithmetic::div_mod::*;
use crate::block::BlockWord;

verus! {

/// One step of the recurrence modulo `m`: `a += e`, then `b += a`.
pub open spec fn fletcher_step(m: int, st: (int, int), e: int) -> (int, int) {
    let a = (st.0 + e) % m;
    (a, (st.1 + a) % m)
}

/// The sequential recurrence from state `st` over the words of `s`, in order.
pub open spec fn fletcher_fold<B: BlockWord>(st: (int, int), s: Seq<B>) -> (int, int)
    decreases s.len(),
{
    if s.len() == 0 {
        st
    } else {
        fletcher_step(B::modulus(), fletcher_fold(st, s.drop_last()), s.last().val())
    }
}

/// Whether both halves of a state are words modulo `2^bits` of `B`.
pub open spec fn state_in_range<B: BlockWord>(st: (int, int)) -> bool {
    0 <= st.0 < B::modulus() && 0 <= st.1 < B::modulus()
}

/// Sum of the values of `s`.
pub open spec fn total<B: BlockWord>(s: Seq<B>) -> int
    decreases s.len(),
{
    if s.len() == 0 {
        0
    } else {
        total(s.drop_last()) + s.last().val()
    }
}

/// `sum over k of (len - k) * s[k]`: each word counted once for itself and
/// once for every word after it.
pub open spec fn weighted_total<B: BlockWord>(s: Seq<B>) -> int
    decreases s.len(),
{
    if s.len() == 0 {
        0
    } else {
        weighted_total(s.drop_last()) + total(s)
    }
}

/// Sum of `s[n + i]` for `i < j`.
pub open spec fn group_total<B: BlockWord>(s: Seq<B>, n: int, j: nat) -> int
    decreases j,
{
    if j == 0 {
        0
    } else {
        group_total(s, n, (j - 1) as nat) + s[n + j - 1].val()
    }
}

/// Sum of `i * s[n + i]` for `i < j`.
pub open spec fn group_weighted<B: BlockWord>(s: Seq<B>, n: int, j: nat) -> int
    decreases j,
{
    if j == 0 {
        0
    } else {
        group_weighted(s, n, (j - 1) as nat) + (j - 1) * s[n + j - 1].val()
    }
}

/// Running `a` of lane `i` after `g` groups of `lanes` words: the sum of
/// the words at positions `h * lanes + i`, `h < g`.
pub open spec fn lane_a<B: BlockWord>(s: Seq<B>, lanes: nat, i: int, g: nat) -> int
    decreases g,
{
    if g == 0 {
        0
    } else {
        lane_a(s, lanes, i, (g - 1) as nat) + s[(g - 1) * lanes + i].val()
    }
}

/// Running `b` of lane `i` after `g` groups: after each group it gains the
/// lane's running `a`.
pub open spec fn lane_b<B: BlockWord>(s: Seq<B>, lanes: nat, i: int, g: nat) -> int
    decreases g,
{
    if g == 0 {
        0
    } else {
        lane_b(s, lanes, i, (g - 1) as nat) + lane_a(s, lanes, i, g)
    }
}

/// Sum of `lane_a` over lanes `i < j`.
pub open spec fn lanes_a_total<B: BlockWord>(s: Seq<B>, lanes: nat, g: nat, j: nat) -> int
    decreases j,
{
    if j == 0 {
        0
    } else {
        lanes_a_total(s, lanes, g, (j - 1) as nat) + lane_a(s, lanes, j - 1, g)
    }
}

/// Sum of `lane_b` over lanes `i < j`.
pub open spec fn lanes_b_total<B: BlockWord>(s: Seq<B>, lanes: nat, g: nat, j: nat) -> int
    decreases j,
{
    if j == 0 {
        0
    } else {
        lanes_b_total(s, lanes, g, (j - 1) as nat) + lane_b(s, lanes, j - 1, g)
    }
}

/// Sum of `i * lane_a` over lanes `i < j`.
pub open spec fn lanes_weighted<B: BlockWord>(s: Seq<B>, lanes: nat, g: nat, j: nat) -> int
    decreases j,
{
    if j == 0 {
        0
    } else {
        lanes_weighted(s, lanes, g, (j - 1) as nat) + (j - 1) * lane_a(s, lanes, j - 1, g)
    }
}

/// The recurrence in closed form: `a` gains the sum of the words, `b` gains
/// `len * a` plus the weighted sum.
pub proof fn lemma_fold_closed_form<B: BlockWord>(st: (int, int), s: Seq<B>)
    requires
        state_in_range::<B>(st),
    ensures
        fletcher_fold(st, s) == (
            (st.0 + total(s)) % B::modulus(),
            (st.1 + s.len() * st.0 + weighted_total(s)) % B::modulus(),
        ),
    decreases s.len(),
{
    let m = B::modulus();
    if s.len() == 0 {
        lemma_small_mod(st.0 as nat, m as nat);
        lemma_small_mod(st.1 as nat, m as nat);
    } else {
        let p = s.drop_last();
        let e = s.last().val();
        let n = p.len() as int;
        let t = total(p);
        let w = weighted_total(p);
        lemma_fold_closed_form(st, p);
        lemma_add_mod_noop_right(e, st.0 + t, m);
        let a2 = (st.0 + t + e) % m;
        lemma_add_mod_noop_right(a2, st.1 + n * st.0 + w, m);
        lemma_add_mod_noop_right(st.1 + n * st.0 + w, st.0 + t + e, m);
        assert((n + 1) * st.0 == n * st.0 + st.0) by (nonlinear_arith);
    }
}

/// Extending a prefix by `j` words: how its sum and weighted sum grow.
pub proof fn lemma_extend_prefix<B: BlockWord>(s: Seq<B>, n: int, j: nat)
    requires
        0 <= n,
        n + j <= s.len(),
    ensures
        total(s.take(n + j)) == total(s.take(n)) + group_total(s, n, j),
        weighted_total(s.take(n + j)) == weighted_total(s.take(n)) + j * total(s.take(n + j))
            - group_weighted(s, n, j),
    decreases j,
{
    if j > 0 {
        let k = (j - 1) as nat;
        lemma_extend_prefix(s, n, k);
        let q = s.take(n + j);
        assert(q.drop_last() =~= s.take(n + k));
        let t = total(s.take(n + k));
        let e = s[n + k].val();
        assert(j * (t + e) == k * t + k * e + t + e) by (nonlinear_arith)
            requires j == k + 1;
    }
}

/// With no group consumed, every lane total is zero.
pub proof fn lemma_lanes_empty<B: BlockWord>(s: Seq<B>, lanes: nat, j: nat)
    ensures
        lanes_a_total(s, lanes, 0, j) == 0,
        lanes_b_total(s, lanes, 0, j) == 0,
        lanes_weighted(s, lanes, 0, j) == 0,
    decreases j,
{
    if j > 0 {
        lemma_lanes_empty(s, lanes, (j - 1) as nat);
    }
}

/// How the lane totals over lanes `i < j` change when group `g` is consumed.
pub proof fn lemma_lanes_next_group<B: BlockWord>(s: Seq<B>, lanes: nat, g: nat, j: nat)
    requires
        j <= lanes,
    ensures
        lanes_a_total(s, lanes, g + 1, j) == lanes_a_total(s, lanes, g, j) + group_total(
            s,
            (g * lanes) as int,
            j,
        ),
        lanes_b_total(s, lanes, g + 1, j) == lanes_b_total(s, lanes, g, j) + lanes_a_total(
            s,
            lanes,
            g + 1,
            j,
        ),
        lanes_weighted(s, lanes, g + 1, j) == lanes_weighted(s, lanes, g, j) + group_weighted(
            s,
            (g * lanes) as int,
            j,
        ),
    decreases j,
{
    if j > 0 {
        let k = (j - 1) as nat;
        lemma_lanes_next_group(s, lanes, g, k);
        let x = lane_a(s, lanes, k as int, g);
        let e = s[(g * lanes + k) as int].val();
        assert(lane_a(s, lanes, k as int, g + 1) == x + e);
        assert(k * (x + e) == k * x + k * e) by (nonlinear_arith);
    }
}

/// The lane totals after `g` groups give the sequential sums of the first
/// `g * lanes` words: the sum of the lanes' `a` is the plain sum, and
/// `lanes * (sum of the lanes' b) - sum of i * (lane i's a)` is the weighted sum.
pub proof fn lemma_lanes_match<B: BlockWord>(s: Seq<B>, lanes: nat, g: nat)
    requires
        g * lanes <= s.len(),
    ensures
        lanes_a_total(s, lanes, g, lanes) == total(s.take((g * lanes) as int)),
        lanes * lanes_b_total(s, lanes, g, lanes) - lanes_weighted(s, lanes, g, lanes)
            == weighted_total(s.take((g * lanes) as int)),
    decreases g,
{
    if g == 0 {
        lemma_lanes_empty(s, lanes, lanes);
        assert(g * lanes == 0) by (nonlinear_arith)
            requires g == 0;
        let e = s.take((g * lanes) as int);
        assert(e =~= Seq::<B>::empty());
        assert(total(e) == 0);
        assert(weighted_total(e) == 0);
    } else {
        let h = (g - 1) as nat;
        let n: int = (h * lanes) as int;
        assert(g * lanes == n + lanes) by (nonlinear_arith)
            requires g == h + 1, n == h * lanes;
        assert(n >= 0) by (nonlinear_arith)
            requires n == h * lanes;
        lemma_lanes_match(s, lanes, h);
        lemma_lanes_next_group(s, lanes, h, lanes);
        lemma_extend_prefix(s, n, lanes);
        assert(s.take((g * lanes) as int) == s.take(n + lanes));
        let bt = lanes_b_total(s, lanes, h, lanes);
        let at = lanes_a_total(s, lanes, g, lanes);
        assert(lanes * (bt + at) == lanes * bt + lanes * at) by (nonlinear_arith);
        assert(lanes_a_total(s, lanes, g, lanes) == total(s.take(n + lanes)));
    }
}

/// The lane sums of the first `g` groups read only the first `g * lanes` words.
pub proof fn lemma_lanes_prefix<B: BlockWord>(s: Seq<B>, t: Seq<B>, lanes: nat, i: int, g: nat)
    requires
        0 <= i < lanes,
        g * lanes <= s.len(),
        g * lanes <= t.len(),
        forall|k: int| 0 <= k < g * lanes ==> s[k] == t[k],
    ensures
        lane_a(s, lanes, i, g) == lane_a(t, lanes, i, g),
        lane_b(s, lanes, i, g) == lane_b(t, lanes, i, g),
    decreases g,
{
    if g > 0 {
        let h = (g - 1) as nat;
        assert(h * lanes + i < g * lanes) by (nonlinear_arith)
            requires g == h + 1, i < lanes;
        assert(h * lanes <= g * lanes) by (nonlinear_arith)
            requires g == h + 1;
        assert(0 <= h * lanes + i) by (nonlinear_arith)
            requires 0 <= i;
        lemma_lanes_prefix(s, t, lanes, i, h);
    }
}

/// The state that the lane-parallel path computes from `st` over `s`, read as
/// `s.len() / lanes` groups: `a` gains the sum of the lanes' `a`; `b` gains
/// `len * a`, plus `lanes` times the sum of the lanes' `b`, minus
/// `i * (lane i's a)` for each lane `i`.
pub open spec fn lane_fold<B: BlockWord>(st: (int, int), s: Seq<B>, lanes: nat) -> (int, int) {
    let g = s.len() / lanes;
    let m = B::modulus();
    (
        (st.0 + lanes_a_total(s, lanes, g, lanes)) % m,
        (st.1 + s.len() * st.0 + lanes * lanes_b_total(s, lanes, g, lanes) - lanes_weighted(
            s,
            lanes,
            g,
            lanes,
        )) % m,
    )
}

/// Lane-parallel accumulation over a whole number of groups gives exactly
/// the state of the sequential recurrence, whatever the lane count.
pub proof fn lemma_lane_fold_is_sequential<B: BlockWord>(st: (int, int), s: Seq<B>, lanes: nat)
    requires
        state_in_range::<B>(st),
        lanes >= 1,
        s.len() % lanes == 0,
    ensures
        lane_fold(st, s, lanes) == fletcher_fold(st, s),
{
    let g = s.len() / lanes;
    lemma_fundamental_div_mod(s.len() as int, lanes as int);
    assert(g * lanes == s.len()) by (nonlinear_arith)
        requires s.len() == lanes * g;
    assert(s.take(s.len() as int) =~= s);
    lemma_lanes_match(s, lanes, g);
    lemma_fold_closed_form(st, s);
}

/// Updating with no words leaves the state as it is.
pub proof fn lemma_fold_empty<B: BlockWord>(st: (int, int))
    ensures
        fletcher_fold(st, Seq::<B>::empty()) == st,
{
}

/// Updating with `s1` and then with `s2` is updating with `s1 + s2` at once.
pub proof fn lemma_fold_append<B: BlockWord>(st: (int, int), s1: Seq<B>, s2: Seq<B>)
    ensures
        fletcher_fold(fletcher_fold(st, s1), s2) == fletcher_fold(st, s1 + s2),
    decreases s2.len(),
{
    if s2.len() == 0 {
        assert(s1 + s2 =~= s1);
    } else {
        lemma_fold_append(st, s1, s2.drop_last());
        assert((s1 + s2).drop_last() =~= s1 + s2.drop_last());
        assert((s1 + s2).last() == s2.last());
    }
}

} // verus!
