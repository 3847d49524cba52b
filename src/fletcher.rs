//! The public checksum object: a pair of words `(a, b)` updated in place by
//! slices or iterators of words, and read as one integer of twice the width.

use vstd::prelude::*;
use vstd::arithmetic::div_mod::{
    lemma_div_pos_is_pos, lemma_fundamental_div_mod, lemma_mod_multiples_basic,
};
use vstd::arithmetic::mul::lemma_mul_is_commutative;
use vstd::std_specs::iter::IteratorSpec;
use crate::block::BlockWord;
use crate::lanes::{update_fletcher_simd, LaneAccumulator};
use crate::model::{fletcher_fold, lemma_fold_append};
use crate::scalar::{scalar_step, update_fletcher_scalar};

verus! {

/// A checksum width: the unsigned integer type of the result, whose block
/// type is the unsigned integer of half its width.
pub trait FletcherChecksum {
    type BlockType: BlockWord;
}

impl FletcherChecksum for u16 {
    type BlockType = u8;
}

impl FletcherChecksum for u32 {
    type BlockType = u16;
}

impl FletcherChecksum for u64 {
    type BlockType = u32;
}

impl FletcherChecksum for u128 {
    type BlockType = u64;
}

/// A Fletcher checksum that can be updated any number of times.
///
/// Its model `self@` is the pair `(a, b)` as integers; `a` is the lower half
/// of the value and `b` the upper half.
#[derive(Clone, Copy, Debug, PartialEq, Eq)]
pub struct Fletcher<T: FletcherChecksum> {
    a: T::BlockType,
    b: T::BlockType,
}

impl<T: FletcherChecksum> View for Fletcher<T> {
    type V = (int, int);

    closed spec fn view(&self) -> (int, int) {
        (self.a.val(), self.b.val())
    }
}

impl<T: FletcherChecksum> Fletcher<T> {
    /// The combined value: `b` shifted above the `bits` of `a`.
    pub open spec fn spec_value(&self) -> int {
        self@.1 * T::BlockType::modulus() + self@.0
    }

    /// A checksum with both halves zero.
    pub fn new() -> (r: Self)
        ensures
            r@ == (0int, 0int),
            r.spec_value() == 0,
    {
        Fletcher { a: T::BlockType::zero(), b: T::BlockType::zero() }
    }

    /// A checksum seeded with `a` as the lower half and `b` as the upper half.
    pub fn with_initial_values(a: T::BlockType, b: T::BlockType) -> (r: Self)
        ensures
            r@ == (a.val(), b.val()),
    {
        Fletcher { a, b }
    }

    /// Updates the checksum with the words of `data`, in order: whole groups
    /// go through the lane-parallel path, the rest through the sequential one.
    pub fn update_with_slice(&mut self, data: &[T::BlockType])
        ensures
            final(self)@ == fletcher_fold(old(self)@, data@),
    {
        if data.len() == 0 {
            return;
        }
        let lanes = T::BlockType::lanes();
        let ghost len = data@.len() as int;
        let ghost l = lanes as int;
        let ghost q = len / l;
        proof {
            lemma_fundamental_div_mod(len, l);
            lemma_div_pos_is_pos(len, l);
            assert(0 <= l * q) by (nonlinear_arith)
                requires 0 <= q, 0 <= l;
        }
        let split = data.len() - data.len() % lanes;
        let (simd_slice, remainder_slice) = data.split_at(split);
        proof {
            lemma_mul_is_commutative(l, q);
            lemma_mod_multiples_basic(q, l);
            assert(simd_slice@.len() == q * l);
            assert(data@ =~= simd_slice@ + remainder_slice@);
            lemma_fold_append(old(self)@, simd_slice@, remainder_slice@);
        }
        if simd_slice.len() > 0 {
            let (a, b) = update_fletcher_simd(self.a, self.b, simd_slice, lanes);
            self.a = a;
            self.b = b;
        }
        if remainder_slice.len() > 0 {
            let (a, b) = update_fletcher_scalar(self.a, self.b, remainder_slice);
            self.a = a;
            self.b = b;
        }
    }

    /// Updates the checksum with the words that `elems` yields, one at a
    /// time through the sequential recurrence.
    pub fn update_with_iter_scalar<I: Iterator<Item = T::BlockType>>(&mut self, elems: I)
        requires
            elems.obeys_prophetic_iter_laws(),
            elems.decrease() is Some,
        ensures
            final(self)@ == fletcher_fold(old(self)@, elems.remaining()),
    {
        let mut elems = elems;
        let ghost all = elems.remaining();
        let ghost start = self@;
        let ghost mut done: Seq<T::BlockType> = Seq::empty();
        loop
            invariant
                elems.obeys_prophetic_iter_laws(),
                elems.decrease() is Some,
                all == done + elems.remaining(),
                self@ == fletcher_fold(start, done),
            ensures
                all == done,
                self@ == fletcher_fold(start, done),
            decreases elems.decrease()->0,
        {
            match elems.next() {
                Some(e) => {
                    let (a, b) = scalar_step(self.a, self.b, e);
                    self.a = a;
                    self.b = b;
                    proof {
                        assert((done + seq![e]).drop_last() =~= done);
                        done = done + seq![e];
                        assert(all =~= done + elems.remaining());
                    }
                },
                None => {
                    proof {
                        assert(all =~= done);
                    }
                    break;
                },
            }
        }
    }

    /// Updates the checksum with the words that `elems` yields: they are
    /// buffered into groups for the lane-parallel path, and a last partial
    /// group goes through the sequential recurrence.
    pub fn update_with_iter<I: Iterator<Item = T::BlockType>>(&mut self, elems: I)
        requires
            elems.obeys_prophetic_iter_laws(),
            elems.decrease() is Some,
        ensures
            final(self)@ == fletcher_fold(old(self)@, elems.remaining()),
    {
        let mut elems = elems;
        let ghost all = elems.remaining();
        let lanes = T::BlockType::lanes();
        let mut buffer: Vec<T::BlockType> = Vec::new();
        let mut i: usize = 0;
        while i < lanes
            invariant
                i <= lanes,
                buffer@.len() == i,
            decreases lanes - i,
        {
            buffer.push(T::BlockType::zero());
            i = i + 1;
        }
        let mut acc = LaneAccumulator::<T::BlockType>::new(lanes);
        let mut filled: usize = 0;
        loop
            invariant
                elems.obeys_prophetic_iter_laws(),
                elems.decrease() is Some,
                1 <= lanes <= 32,
                acc.wf(),
                acc.lane_count() == lanes,
                buffer@.len() == lanes,
                filled < lanes,
                all == acc.consumed() + buffer@.take(filled as int) + elems.remaining(),
            ensures
                acc.wf(),
                filled < lanes,
                buffer@.len() == lanes,
                all == acc.consumed() + buffer@.take(filled as int),
            decreases elems.decrease()->0,
        {
            match elems.next() {
                Some(e) => {
                    let ghost before = buffer@.take(filled as int);
                    buffer.set(filled, e);
                    filled = filled + 1;
                    proof {
                        assert(buffer@.take(filled as int) =~= before.push(e));
                        assert(all =~= acc.consumed() + buffer@.take(filled as int)
                            + elems.remaining());
                    }
                    if filled == lanes {
                        acc.add_group(buffer.as_slice(), 0);
                        proof {
                            assert(buffer@.subrange(0, lanes as int) =~= buffer@.take(
                                filled as int,
                            ));
                        }
                        filled = 0;
                        proof {
                            assert(all =~= acc.consumed() + buffer@.take(filled as int)
                                + elems.remaining());
                        }
                    }
                },
                None => {
                    proof {
                        assert(all =~= acc.consumed() + buffer@.take(filled as int));
                    }
                    break;
                },
            }
        }
        let (a, b) = acc.finish(self.a, self.b);
        let (partial, _) = buffer.as_slice().split_at(filled);
        let (a, b) = update_fletcher_scalar(a, b, partial);
        proof {
            lemma_fold_append(self@, acc.consumed(), partial@);
        }
        self.a = a;
        self.b = b;
    }
}

impl<T: FletcherChecksum> Default for Fletcher<T> {
    /// A checksum with both halves zero.
    fn default() -> (r: Self)
        ensures
            r@ == (0int, 0int),
    {
        Self::new()
    }
}

impl Fletcher<u16> {
    /// The checksum value: `b` in the upper 8 bits, `a` in the lower 8.
    pub fn value(&self) -> (r: u16)
        ensures
            r as int == self.spec_value(),
    {
        let a = self.a;
        let b = self.b;
        let r = ((b as u16) << 8u16) | (a as u16);
        assert(r == (b as u16) * 0x100 + (a as u16)) by (bit_vector)
            requires r == ((b as u16) << 8u16) | (a as u16);
        r
    }
}

impl From<Fletcher<u16>> for u16 {
    fn from(f: Fletcher<u16>) -> (r: u16) {
        f.value()
    }
}

impl vstd::std_specs::convert::FromSpecImpl<Fletcher<u16>> for u16 {
    open spec fn obeys_from_spec() -> bool {
        true
    }

    open spec fn from_spec(f: Fletcher<u16>) -> u16 {
        f.spec_value() as u16
    }
}

impl Fletcher<u32> {
    /// The checksum value: `b` in the upper 16 bits, `a` in the lower 16.
    pub fn value(&self) -> (r: u32)
        ensures
            r as int == self.spec_value(),
    {
        let a = self.a;
        let b = self.b;
        let r = ((b as u32) << 16u32) | (a as u32);
        assert(r == (b as u32) * 0x1_0000 + (a as u32)) by (bit_vector)
            requires r == ((b as u32) << 16u32) | (a as u32);
        r
    }
}

impl From<Fletcher<u32>> for u32 {
    fn from(f: Fletcher<u32>) -> (r: u32) {
        f.value()
    }
}

impl vstd::std_specs::convert::FromSpecImpl<Fletcher<u32>> for u32 {
    open spec fn obeys_from_spec() -> bool {
        true
    }

    open spec fn from_spec(f: Fletcher<u32>) -> u32 {
        f.spec_value() as u32
    }
}

impl Fletcher<u64> {
    /// The checksum value: `b` in the upper 32 bits, `a` in the lower 32.
    pub fn value(&self) -> (r: u64)
        ensures
            r as int == self.spec_value(),
    {
        let a = self.a;
        let b = self.b;
        let r = ((b as u64) << 32u64) | (a as u64);
        assert(r == (b as u64) * 0x1_0000_0000 + (a as u64)) by (bit_vector)
            requires r == ((b as u64) << 32u64) | (a as u64);
        r
    }
}

impl From<Fletcher<u64>> for u64 {
    fn from(f: Fletcher<u64>) -> (r: u64) {
        f.value()
    }
}

impl vstd::std_specs::convert::FromSpecImpl<Fletcher<u64>> for u64 {
    open spec fn obeys_from_spec() -> bool {
        true
    }

    open spec fn from_spec(f: Fletcher<u64>) -> u64 {
        f.spec_value() as u64
    }
}

impl Fletcher<u128> {
    /// The checksum value: `b` in the upper 64 bits, `a` in the lower 64.
    pub fn value(&self) -> (r: u128)
        ensures
            r as int == self.spec_value(),
    {
        let a = self.a;
        let b = self.b;
        let r = ((b as u128) << 64u128) | (a as u128);
        assert(r == (b as u128) * 0x1_0000_0000_0000_0000 + (a as u128)) by (bit_vector)
            requires r == ((b as u128) << 64u128) | (a as u128);
        r
    }
}

impl From<Fletcher<u128>> for u128 {
    fn from(f: Fletcher<u128>) -> (r: u128) {
        f.value()
    }
}

impl vstd::std_specs::convert::FromSpecImpl<Fletcher<u128>> for u128 {
    open spec fn obeys_from_spec() -> bool {
        true
    }

    open spec fn from_spec(f: Fletcher<u128>) -> u128 {
        f.spec_value() as u128
    }
}

/// The 16-bit checksum, over bytes.
pub type Fletcher16 = Fletcher<u16>;

/// The 32-bit checksum, over 16-bit words.
pub type Fletcher32 = Fletcher<u32>;

/// The 64-bit checksum, over 32-bit words.
pub type Fletcher64 = Fletcher<u64>;

/// The 128-bit checksum, over 64-bit words.
pub type Fletcher128 = Fletcher<u128>;

} // verus!
