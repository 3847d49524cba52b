//! The block types that checksums consume: unsigned words with wrapping
//! arithmetic modulo `2^bits`, and the number of them that fill one vector.

use vstd::prelude::*;

verus! {

/// Largest vector, in bits, that one lane-group fills.
pub const MAX_VECTOR_BITS: usize = 256;

/// An unsigned word consumed as one block of a checksum.
///
/// `val` is the word's value as a mathematical integer and `modulus` is
/// `2^bits`; every operation wraps modulo `modulus`.
pub trait BlockWord: Copy + Eq + core::fmt::Debug + Sized {
    /// Number of bits of the word.
    spec fn bits() -> nat;

    /// `2^bits`: the modulus of all arithmetic on the word.
    spec fn modulus() -> int;

    /// The word as an integer.
    spec fn val(self) -> int;

    proof fn lemma_word(self)
        ensures
            0 <= self.val() < Self::modulus(),
            Self::modulus() >= 256,
    ;

    /// The word with value zero.
    fn zero() -> (r: Self)
        ensures
            r.val() == 0,
    ;

    /// The word holding a small count (a lane index or a lane count).
    fn from_count(n: usize) -> (r: Self)
        requires
            (n as int) < Self::modulus(),
        ensures
            r.val() == n as int,
    ;

    /// `(self + o) mod 2^bits`.
    fn add_wrap(self, o: Self) -> (r: Self)
        ensures
            r.val() == (self.val() + o.val()) % Self::modulus(),
    ;

    /// `(self - o) mod 2^bits`.
    fn sub_wrap(self, o: Self) -> (r: Self)
        ensures
            r.val() == (self.val() - o.val()) % Self::modulus(),
    ;

    /// `(self * o) mod 2^bits`.
    fn mul_wrap(self, o: Self) -> (r: Self)
        ensures
            r.val() == (self.val() * o.val()) % Self::modulus(),
    ;

    /// Number of words that fill a vector of `MAX_VECTOR_BITS` bits.
    fn lanes() -> (r: usize)
        ensures
            r as int * Self::bits() == MAX_VECTOR_BITS as int,
            1 <= r <= 32,
    ;
}

impl BlockWord for u8 {
    open spec fn bits() -> nat {
        8
    }

    open spec fn modulus() -> int {
        0x100
    }

    open spec fn val(self) -> int {
        self as int
    }

    proof fn lemma_word(self) {
    }

    fn zero() -> (r: u8) {
        0
    }

    fn from_count(n: usize) -> (r: u8) {
        n as u8
    }

    fn add_wrap(self, o: u8) -> (r: u8) {
        self.wrapping_add(o)
    }

    fn sub_wrap(self, o: u8) -> (r: u8) {
        self.wrapping_sub(o)
    }

    fn mul_wrap(self, o: u8) -> (r: u8) {
        self.wrapping_mul(o)
    }

    fn lanes() -> (r: usize) {
        MAX_VECTOR_BITS / 8
    }
}

impl BlockWord for u16 {
    open spec fn bits() -> nat {
        16
    }

    open spec fn modulus() -> int {
        0x1_0000
    }

    open spec fn val(self) -> int {
        self as int
    }

    proof fn lemma_word(self) {
    }

    fn zero() -> (r: u16) {
        0
    }

    fn from_count(n: usize) -> (r: u16) {
        n as u16
    }

    fn add_wrap(self, o: u16) -> (r: u16) {
        self.wrapping_add(o)
    }

    fn sub_wrap(self, o: u16) -> (r: u16) {
        self.wrapping_sub(o)
    }

    fn mul_wrap(self, o: u16) -> (r: u16) {
        self.wrapping_mul(o)
    }

    fn lanes() -> (r: usize) {
        MAX_VECTOR_BITS / 16
    }
}

impl BlockWord for u32 {
    open spec fn bits() -> nat {
        32
    }

    open spec fn modulus() -> int {
        0x1_0000_0000
    }

    open spec fn val(self) -> int {
        self as int
    }

    proof fn lemma_word(self) {
    }

    fn zero() -> (r: u32) {
        0
    }

    fn from_count(n: usize) -> (r: u32) {
        n as u32
    }

    fn add_wrap(self, o: u32) -> (r: u32) {
        self.wrapping_add(o)
    }

    fn sub_wrap(self, o: u32) -> (r: u32) {
        self.wrapping_sub(o)
    }

    fn mul_wrap(self, o: u32) -> (r: u32) {
        self.wrapping_mul(o)
    }

    fn lanes() -> (r: usize) {
        MAX_VECTOR_BITS / 32
    }
}

impl BlockWord for u64 {
    open spec fn bits() -> nat {
        64
    }

    open spec fn modulus() -> int {
        0x1_0000_0000_0000_0000
    }

    open spec fn val(self) -> int {
        self as int
    }

    proof fn lemma_word(self) {
    }

    fn zero() -> (r: u64) {
        0
    }

    fn from_count(n: usize) -> (r: u64) {
        n as u64
    }

    fn add_wrap(self, o: u64) -> (r: u64) {
        self.wrapping_add(o)
    }

    fn sub_wrap(self, o: u64) -> (r: u64) {
        self.wrapping_sub(o)
    }

    fn mul_wrap(self, o: u64) -> (r: u64) {
        self.wrapping_mul(o)
    }

    fn lanes() -> (r: usize) {
        MAX_VECTOR_BITS / 64
    }
}

} // verus!
