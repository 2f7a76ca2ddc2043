//! Machine words that a backend is made of.

use vstd::arithmetic::power2::{lemma2_to64, lemma2_to64_rest, pow2};
use vstd::prelude::*;

verus! {

/// An unsigned machine word of 8, 16, 32 or 64 bits.
///
/// A backend is a slice of words. The verified routines never look inside a
/// word directly: they go through [`Word::to_u64`] and [`Word::from_u64`], and
/// reason about the number [`Word::value`] that the word stands for.
pub trait Word: Copy {
    /// The width of the word, in bits.
    spec fn bits() -> nat;

    /// The number the word stands for.
    spec fn value(self) -> nat;

    /// The word that stands for `v`, for every `v` below `2^bits`.
    spec fn from_value(v: nat) -> Self;

    /// A word has one of the four supported widths.
    proof fn lemma_bits()
        ensures
            Self::bits() == 8 || Self::bits() == 16 || Self::bits() == 32 || Self::bits() == 64,
    ;

    /// The value of a word fits in its width, and the word is recovered from
    /// its value.
    proof fn lemma_value(self)
        ensures
            self.value() < pow2(Self::bits()),
            Self::from_value(self.value()) == self,
    ;

    /// Every number that fits in the width is the value of a word.
    proof fn lemma_from_value(v: nat)
        requires
            v < pow2(Self::bits()),
        ensures
            Self::from_value(v).value() == v,
    ;

    /// The width of the word, in bits.
    fn word_bits() -> (b: u32)
        ensures
            b == Self::bits(),
    ;

    /// The word whose bits are all zero.
    fn zero() -> (w: Self)
        ensures
            w.value() == 0,
    ;

    /// Widens the word to 64 bits.
    fn to_u64(self) -> (v: u64)
        ensures
            v == self.value(),
    ;

    /// Narrows a 64-bit number that fits in the word.
    fn from_u64(v: u64) -> (w: Self)
        requires
            v < pow2(Self::bits()),
        ensures
            w.value() == v,
            w == Self::from_value(v as nat),
    ;
}

impl Word for u8 {
    open spec fn bits() -> nat {
        8
    }

    open spec fn value(self) -> nat {
        self as nat
    }

    open spec fn from_value(v: nat) -> Self {
        v as u8
    }

    proof fn lemma_bits() {
    }

    proof fn lemma_value(self) {
        lemma2_to64();
    }

    proof fn lemma_from_value(v: nat) {
        lemma2_to64();
    }

    fn word_bits() -> (b: u32) {
        8
    }

    fn zero() -> (w: Self) {
        0
    }

    fn to_u64(self) -> (v: u64) {
        self as u64
    }

    fn from_u64(v: u64) -> (w: Self) {
        proof {
            lemma2_to64();
        }
        v as u8
    }
}

impl Word for u16 {
    open spec fn bits() -> nat {
        16
    }

    open spec fn value(self) -> nat {
        self as nat
    }

    open spec fn from_value(v: nat) -> Self {
        v as u16
    }

    proof fn lemma_bits() {
    }

    proof fn lemma_value(self) {
        lemma2_to64();
    }

    proof fn lemma_from_value(v: nat) {
        lemma2_to64();
    }

    fn word_bits() -> (b: u32) {
        16
    }

    fn zero() -> (w: Self) {
        0
    }

    fn to_u64(self) -> (v: u64) {
        self as u64
    }

    fn from_u64(v: u64) -> (w: Self) {
        proof {
            lemma2_to64();
        }
        v as u16
    }
}

impl Word for u32 {
    open spec fn bits() -> nat {
        32
    }

    open spec fn value(self) -> nat {
        self as nat
    }

    open spec fn from_value(v: nat) -> Self {
        v as u32
    }

    proof fn lemma_bits() {
    }

    proof fn lemma_value(self) {
        lemma2_to64();
    }

    proof fn lemma_from_value(v: nat) {
        lemma2_to64();
    }

    fn word_bits() -> (b: u32) {
        32
    }

    fn zero() -> (w: Self) {
        0
    }

    fn to_u64(self) -> (v: u64) {
        self as u64
    }

    fn from_u64(v: u64) -> (w: Self) {
        proof {
            lemma2_to64();
        }
        v as u32
    }
}

impl Word for u64 {
    open spec fn bits() -> nat {
        64
    }

    open spec fn value(self) -> nat {
        self as nat
    }

    open spec fn from_value(v: nat) -> Self {
        v as u64
    }

    proof fn lemma_bits() {
    }

    proof fn lemma_value(self) {
        lemma2_to64_rest();
    }

    proof fn lemma_from_value(v: nat) {
        lemma2_to64_rest();
    }

    fn word_bits() -> (b: u32) {
        64
    }

    fn zero() -> (w: Self) {
        0
    }

    fn to_u64(self) -> (v: u64) {
        self
    }

    fn from_u64(v: u64) -> (w: Self) {
        v
    }
}

impl Word for usize {
    open spec fn bits() -> nat {
        usize::BITS as nat
    }

    open spec fn value(self) -> nat {
        self as nat
    }

    open spec fn from_value(v: nat) -> Self {
        v as usize
    }

    proof fn lemma_bits() {
    }

    proof fn lemma_value(self) {
        lemma2_to64();
        lemma2_to64_rest();
    }

    proof fn lemma_from_value(v: nat) {
        lemma2_to64();
        lemma2_to64_rest();
    }

    fn word_bits() -> (b: u32) {
        usize::BITS
    }

    fn zero() -> (w: Self) {
        0
    }

    fn to_u64(self) -> (v: u64) {
        self as u64
    }

    fn from_u64(v: u64) -> (w: Self) {
        proof {
            lemma2_to64();
            lemma2_to64_rest();
        }
        v as usize
    }
}

} // verus!
