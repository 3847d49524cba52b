//! The lane-parallel accumulator: words are consumed in groups of `lanes`,
//! each lane keeping its own running `a` and `b`; folding the lanes back into
//! one state applies the position correction that makes the result equal to
//! the sequential recurrence.

use vstd::prelude::*;
use vstd::arithmetic::div_mod::*;
use crate::block::BlockWord;
use crate::model::{
    fletcher_fold, lane_a, lane_b, lane_fold, lanes_a_total, lanes_b_total, lanes_weighted,
    lemma_lane_fold_is_sequential, lemma_lanes_prefix,
};

verus! {

/// Per-lane running sums over whole groups of `lanes` consecutive words.
pub struct LaneAccumulator<B: BlockWord> {
    a_accum: Vec<B>,
    b_accum: Vec<B>,
    /// Number of groups consumed, modulo `2^bits`.
    groups: B,
    lanes: usize,
    count: Ghost<nat>,
    seen: Ghost<Seq<B>>,
}

impl<B: BlockWord> LaneAccumulator<B> {
    /// The words consumed so far, in order.
    pub closed spec fn consumed(&self) -> Seq<B> {
        self.seen@
    }

    /// The number of words in one group.
    pub closed spec fn lane_count(&self) -> nat {
        self.lanes as nat
    }

    /// Each lane's running `a` and `b` are those of the consumed words,
    /// reduced modulo `2^bits`, and the group count is kept alongside.
    pub closed spec fn wf(&self) -> bool {
        let m = B::modulus();
        let g = self.count@;
        let s = self.seen@;
        let l = self.lanes as nat;
        &&& 1 <= self.lanes <= 32
        &&& self.a_accum@.len() == l
        &&& self.b_accum@.len() == l
        &&& s.len() == g * l
        &&& self.groups.val() == (g as int) % m
        &&& forall|i: int|
            0 <= i < l ==> #[trigger] self.a_accum@[i].val() == lane_a(s, l, i, g) % m
        &&& forall|i: int|
            0 <= i < l ==> #[trigger] self.b_accum@[i].val() == lane_b(s, l, i, g) % m
    }

    /// An accumulator for groups of `lanes` words that has consumed nothing.
    pub fn new(lanes: usize) -> (r: Self)
        requires
            1 <= lanes <= 32,
        ensures
            r.wf(),
            r.consumed() == Seq::<B>::empty(),
            r.lane_count() == lanes,
    {
        let mut a_accum: Vec<B> = Vec::new();
        let mut b_accum: Vec<B> = Vec::new();
        let mut i: usize = 0;
        while i < lanes
            invariant
                i <= lanes,
                a_accum@.len() == i,
                b_accum@.len() == i,
                forall|k: int| 0 <= k < i ==> #[trigger] a_accum@[k].val() == 0,
                forall|k: int| 0 <= k < i ==> #[trigger] b_accum@[k].val() == 0,
            decreases lanes - i,
        {
            a_accum.push(B::zero());
            b_accum.push(B::zero());
            i = i + 1;
        }
        let r = LaneAccumulator {
            a_accum,
            b_accum,
            groups: B::zero(),
            lanes,
            count: Ghost(0),
            seen: Ghost(Seq::empty()),
        };
        proof {
            let m = B::modulus();
            r.groups.lemma_word();
            lemma_small_mod(0, m as nat);
            assert(0 * (lanes as nat) == 0) by (nonlinear_arith);
        }
        r
    }

    /// Consumes the group `data[start .. start + lanes]`: each lane adds its
    /// word to its running `a`, then its running `a` to its running `b`.
    pub fn add_group(&mut self, data: &[B], start: usize)
        requires
            old(self).wf(),
            start + old(self).lane_count() <= data@.len(),
        ensures
            final(self).wf(),
            final(self).lane_count() == old(self).lane_count(),
            final(self).consumed() == old(self).consumed() + data@.subrange(
                start as int,
                start + old(self).lane_count(),
            ),
    {
        let ghost m = B::modulus();
        let ghost g = self.count@;
        let ghost l = self.lanes as nat;
        let ghost old_seen = self.seen@;
        let ghost new_seen = old_seen + data@.subrange(start as int, start + l);
        let ghost old_a = self.a_accum@;
        let ghost old_b = self.b_accum@;
        proof {
            assert(new_seen.len() == (g + 1) * l) by (nonlinear_arith)
                requires new_seen.len() == old_seen.len() + l, old_seen.len() == g * l;
        }
        let lanes = self.lanes;
        let mut i: usize = 0;
        while i < lanes
            invariant
                lanes == self.lanes,
                l == lanes as nat,
                i <= lanes,
                self.groups.val() == (g as int) % m,
                1 <= lanes <= 32,
                start + lanes <= data.len(),
                m == B::modulus(),
                old_seen.len() == g * l,
                new_seen == old_seen + data@.subrange(start as int, start + l),
                new_seen.len() == (g + 1) * l,
                self.a_accum@.len() == l,
                self.b_accum@.len() == l,
                old_a.len() == l,
                old_b.len() == l,
                forall|k: int| 0 <= k < l ==> #[trigger] old_a[k].val() == lane_a(old_seen, l, k, g) % m,
                forall|k: int| 0 <= k < l ==> #[trigger] old_b[k].val() == lane_b(old_seen, l, k, g) % m,
                forall|k: int|
                    0 <= k < i ==> #[trigger] self.a_accum@[k].val() == lane_a(new_seen, l, k, g + 1) % m,
                forall|k: int|
                    0 <= k < i ==> #[trigger] self.b_accum@[k].val() == lane_b(new_seen, l, k, g + 1) % m,
                forall|k: int| i <= k < l ==> #[trigger] self.a_accum@[k] == old_a[k],
                forall|k: int| i <= k < l ==> #[trigger] self.b_accum@[k] == old_b[k],
            decreases lanes - i,
        {
            let x = data[start + i];
            let na = self.a_accum[i].add_wrap(x);
            let nb = self.b_accum[i].add_wrap(na);
            proof {
                let k = i as int;
                assert(g * l + k < (g + 1) * l) by (nonlinear_arith)
                    requires k < l;
                assert(0 <= g * l) by (nonlinear_arith);
                lemma_lanes_prefix(old_seen, new_seen, l, k, g);
                assert(new_seen[g * l + k] == x);
                let la = lane_a(new_seen, l, k, g);
                let lb = lane_b(new_seen, l, k, g);
                assert(lane_a(new_seen, l, k, g + 1) == la + x.val());
                x.lemma_word();
                lemma_add_mod_noop_right(x.val(), la, m);
                lemma_add_mod_noop(lb, la + x.val(), m);
            }
            self.a_accum.set(i, na);
            self.b_accum.set(i, nb);
            i = i + 1;
        }
        proof {
            self.groups.lemma_word();
        }
        let one = B::from_count(1);
        self.groups = self.groups.add_wrap(one);
        proof {
            lemma_add_mod_noop_right(1, g as int, m);
            self.count = Ghost(g + 1);
            self.seen = Ghost(new_seen);
        }
    }

    /// Folds the lanes into the state `(a, b)`: the result is the state that
    /// the sequential recurrence reaches from `(a, b)` over the consumed words.
    pub fn finish(&self, a: B, b: B) -> (r: (B, B))
        requires
            self.wf(),
        ensures
            (r.0.val(), r.1.val()) == lane_fold((a.val(), b.val()), self.consumed(), self.lane_count()),
            (r.0.val(), r.1.val()) == fletcher_fold((a.val(), b.val()), self.consumed()),
    {
        let ghost m = B::modulus();
        let ghost g = self.count@;
        let ghost l = self.lanes as nat;
        let ghost s = self.seen@;
        let lanes = self.lanes;
        let mut sum_a = B::zero();
        let mut sum_b = B::zero();
        let mut sum_w = B::zero();
        proof {
            a.lemma_word();
            lemma_small_mod(0, m as nat);
        }
        let mut j: usize = 0;
        while j < lanes
            invariant
                self.wf(),
                lanes == self.lanes,
                l == lanes as nat,
                g == self.count@,
                s == self.seen@,
                m == B::modulus(),
                m >= 256,
                j <= lanes,
                sum_a.val() == lanes_a_total(s, l, g, j as nat) % m,
                sum_b.val() == lanes_b_total(s, l, g, j as nat) % m,
                sum_w.val() == lanes_weighted(s, l, g, j as nat) % m,
            decreases lanes - j,
        {
            let xa = self.a_accum[j];
            let xb = self.b_accum[j];
            let idx = B::from_count(j);
            let w = idx.mul_wrap(xa);
            proof {
                let k = j as int;
                let la = lane_a(s, l, k, g);
                let lb = lane_b(s, l, k, g);
                lemma_add_mod_noop(lanes_a_total(s, l, g, j as nat), la, m);
                lemma_add_mod_noop(lanes_b_total(s, l, g, j as nat), lb, m);
                lemma_small_mod(j as nat, m as nat);
                lemma_mul_mod_noop(k, la, m);
                lemma_add_mod_noop(lanes_weighted(s, l, g, j as nat), k * la, m);
            }
            sum_a = sum_a.add_wrap(xa);
            sum_b = sum_b.add_wrap(xb);
            sum_w = sum_w.add_wrap(w);
            j = j + 1;
        }
        let ra = a.add_wrap(sum_a);
        let nl = B::from_count(lanes);
        // The lanes start from zero, so the incoming `a` still has to be
        // counted once in `b` for every consumed word.
        let carry = nl.mul_wrap(self.groups).mul_wrap(a);
        let rb = b.add_wrap(carry).add_wrap(nl.mul_wrap(sum_b)).sub_wrap(sum_w);
        proof {
            let av = a.val();
            let bv = b.val();
            let ta = lanes_a_total(s, l, g, l);
            let tb = lanes_b_total(s, l, g, l);
            let tw = lanes_weighted(s, l, g, l);
            let n = s.len() as int;
            b.lemma_word();
            lemma_small_mod(av as nat, m as nat);
            lemma_small_mod(bv as nat, m as nat);
            lemma_small_mod(l, m as nat);
            lemma_add_mod_noop(av, ta, m);
            lemma_mul_mod_noop(l as int, g as int, m);
            lemma_mul_mod_noop((l * g) as int, av, m);
            assert(l * g == n) by (nonlinear_arith)
                requires n == g * l;
            lemma_add_mod_noop(bv, n * av, m);
            lemma_mul_mod_noop(l as int, tb, m);
            lemma_add_mod_noop(bv + n * av, l * tb, m);
            lemma_sub_mod_noop(bv + n * av + l * tb, tw, m);
            lemma_div_multiples_vanish(g as int, l as int);
            lemma_mod_multiples_basic(g as int, l as int);
            assert(n / (l as int) == g);
            lemma_lane_fold_is_sequential((av, bv), s, l);
        }
        (ra, rb)
    }
}

/// The lane-parallel path from `(a, b)` over `data`, whose length is a whole
/// number of groups of `lanes` words; it gives exactly what the sequential
/// recurrence gives.
pub fn update_fletcher_simd<B: BlockWord>(a: B, b: B, data: &[B], lanes: usize) -> (r: (B, B))
    requires
        1 <= lanes <= 32,
        data@.len() % (lanes as nat) == 0,
    ensures
        (r.0.val(), r.1.val()) == fletcher_fold((a.val(), b.val()), data@),
{
    let mut acc = LaneAccumulator::<B>::new(lanes);
    let groups = data.len() / lanes;
    proof {
        lemma_fundamental_div_mod(data@.len() as int, lanes as int);
        assert(data@.len() == lanes * groups);
        assert(groups * lanes == data.len()) by (nonlinear_arith)
            requires data@.len() == lanes * groups, data.len() == data@.len();
    }
    let mut g: usize = 0;
    while g < groups
        invariant
            g <= groups,
            groups * lanes == data.len(),
            data.len() == data@.len(),
            1 <= lanes <= 32,
            acc.wf(),
            acc.lane_count() == lanes,
            acc.consumed() == data@.take(g * lanes),
        decreases groups - g,
    {
        proof {
            assert((g + 1) * lanes <= groups * lanes) by (nonlinear_arith)
                requires g < groups;
            assert((g + 1) * lanes == g * lanes + lanes) by (nonlinear_arith);
        }
        let start = g * lanes;
        acc.add_group(data, start);
        proof {
            assert(data@.take(g * lanes) + data@.subrange(start as int, start + lanes)
                =~= data@.take((g + 1) * lanes));
        }
        g = g + 1;
    }
    proof {
        assert(data@.take(g * lanes) =~= data@);
    }
    acc.finish(a, b)
}

} // verus!
