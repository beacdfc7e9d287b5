//! The primitive integers as values of a Fenwick tree.
//!
//! Each integer type is a commutative group under wrapping addition, with
//! wrapping subtraction as the inverse: the integers modulo a power of two.
use crate::fenwick_tree::{range_sum, Val};
use vstd::prelude::*;

verus! {

/// The exact sum of `a[lo..hi]` as a mathematical integer.
pub open spec fn exact_sum(a: Seq<i32>, lo: int, hi: int) -> int
    decreases hi - lo,
{
    if hi <= lo {
        0
    } else {
        exact_sum(a, lo, hi - 1) + a[hi - 1]
    }
}

/// The wrapping sum of a range of `i32` values is congruent to their exact
/// sum modulo `2^32`.
pub proof fn lemma_i32_range_sum_congruent(a: Seq<i32>, lo: int, hi: int)
    ensures
        (range_sum(a, lo, hi) - exact_sum(a, lo, hi)) % 0x1_0000_0000 == 0,
    decreases hi - lo,
{
    if lo < hi {
        lemma_i32_range_sum_congruent(a, lo, hi - 1);
    }
}

/// Whenever the exact sum of a range of `i32` values fits in an `i32`, the
/// wrapping sum of the range is that exact sum.
pub proof fn lemma_i32_range_sum_exact(a: Seq<i32>, lo: int, hi: int)
    requires
        i32::MIN <= exact_sum(a, lo, hi) <= i32::MAX,
    ensures
        range_sum(a, lo, hi) == exact_sum(a, lo, hi),
{
    lemma_i32_range_sum_congruent(a, lo, hi);
}

/// The integers modulo 2^8, as `i8`.
impl Val for i8 {
    open spec fn zero_spec() -> Self {
        0
    }

    open spec fn add_spec(self, rhs: Self) -> Self {
        self.wrapping_add(rhs)
    }

    open spec fn sub_spec(self, rhs: Self) -> Self {
        self.wrapping_sub(rhs)
    }

    proof fn lemma_add_associative(a: Self, b: Self, c: Self) {
    }

    proof fn lemma_add_commutative(a: Self, b: Self) {
    }

    proof fn lemma_add_zero(a: Self) {
    }

    proof fn lemma_sub_undoes_add(a: Self, b: Self) {
    }

    fn zero() -> (z: Self) {
        0
    }

    fn add_assign(&mut self, rhs: &Self) {
        *self = self.wrapping_add(*rhs);
    }

    fn sub(self, rhs: Self) -> (d: Self) {
        self.wrapping_sub(rhs)
    }
}

/// The integers modulo 2^16, as `i16`.
impl Val for i16 {
    open spec fn zero_spec() -> Self {
        0
    }

    open spec fn add_spec(self, rhs: Self) -> Self {
        self.wrapping_add(rhs)
    }

    open spec fn sub_spec(self, rhs: Self) -> Self {
        self.wrapping_sub(rhs)
    }

    proof fn lemma_add_associative(a: Self, b: Self, c: Self) {
    }

    proof fn lemma_add_commutative(a: Self, b: Self) {
    }

    proof fn lemma_add_zero(a: Self) {
    }

    proof fn lemma_sub_undoes_add(a: Self, b: Self) {
    }

    fn zero() -> (z: Self) {
        0
    }

    fn add_assign(&mut self, rhs: &Self) {
        *self = self.wrapping_add(*rhs);
    }

    fn sub(self, rhs: Self) -> (d: Self) {
        self.wrapping_sub(rhs)
    }
}

/// The integers modulo 2^32, as `i32`.
impl Val for i32 {
    open spec fn zero_spec() -> Self {
        0
    }

    open spec fn add_spec(self, rhs: Self) -> Self {
        self.wrapping_add(rhs)
    }

    open spec fn sub_spec(self, rhs: Self) -> Self {
        self.wrapping_sub(rhs)
    }

    proof fn lemma_add_associative(a: Self, b: Self, c: Self) {
    }

    proof fn lemma_add_commutative(a: Self, b: Self) {
    }

    proof fn lemma_add_zero(a: Self) {
    }

    proof fn lemma_sub_undoes_add(a: Self, b: Self) {
    }

    fn zero() -> (z: Self) {
        0
    }

    fn add_assign(&mut self, rhs: &Self) {
        *self = self.wrapping_add(*rhs);
    }

    fn sub(self, rhs: Self) -> (d: Self) {
        self.wrapping_sub(rhs)
    }
}

/// The integers modulo 2^64, as `i64`.
impl Val for i64 {
    open spec fn zero_spec() -> Self {
        0
    }

    open spec fn add_spec(self, rhs: Self) -> Self {
        self.wrapping_add(rhs)
    }

    open spec fn sub_spec(self, rhs: Self) -> Self {
        self.wrapping_sub(rhs)
    }

    proof fn lemma_add_associative(a: Self, b: Self, c: Self) {
    }

    proof fn lemma_add_commutative(a: Self, b: Self) {
    }

    proof fn lemma_add_zero(a: Self) {
    }

    proof fn lemma_sub_undoes_add(a: Self, b: Self) {
    }

    fn zero() -> (z: Self) {
        0
    }

    fn add_assign(&mut self, rhs: &Self) {
        *self = self.wrapping_add(*rhs);
    }

    fn sub(self, rhs: Self) -> (d: Self) {
        self.wrapping_sub(rhs)
    }
}

/// The integers modulo 2^128, as `i128`.
impl Val for i128 {
    open spec fn zero_spec() -> Self {
        0
    }

    open spec fn add_spec(self, rhs: Self) -> Self {
        self.wrapping_add(rhs)
    }

    open spec fn sub_spec(self, rhs: Self) -> Self {
        self.wrapping_sub(rhs)
    }

    proof fn lemma_add_associative(a: Self, b: Self, c: Self) {
    }

    proof fn lemma_add_commutative(a: Self, b: Self) {
    }

    proof fn lemma_add_zero(a: Self) {
    }

    proof fn lemma_sub_undoes_add(a: Self, b: Self) {
    }

    fn zero() -> (z: Self) {
        0
    }

    fn add_assign(&mut self, rhs: &Self) {
        *self = self.wrapping_add(*rhs);
    }

    fn sub(self, rhs: Self) -> (d: Self) {
        self.wrapping_sub(rhs)
    }
}

/// The integers modulo the size of the address space, as `isize`.
impl Val for isize {
    open spec fn zero_spec() -> Self {
        0
    }

    open spec fn add_spec(self, rhs: Self) -> Self {
        self.wrapping_add(rhs)
    }

    open spec fn sub_spec(self, rhs: Self) -> Self {
        self.wrapping_sub(rhs)
    }

    proof fn lemma_add_associative(a: Self, b: Self, c: Self) {
    }

    proof fn lemma_add_commutative(a: Self, b: Self) {
    }

    proof fn lemma_add_zero(a: Self) {
    }

    proof fn lemma_sub_undoes_add(a: Self, b: Self) {
    }

    fn zero() -> (z: Self) {
        0
    }

    fn add_assign(&mut self, rhs: &Self) {
        *self = self.wrapping_add(*rhs);
    }

    fn sub(self, rhs: Self) -> (d: Self) {
        self.wrapping_sub(rhs)
    }
}

/// The integers modulo 2^8, as `u8`.
impl Val for u8 {
    open spec fn zero_spec() -> Self {
        0
    }

    open spec fn add_spec(self, rhs: Self) -> Self {
        self.wrapping_add(rhs)
    }

    open spec fn sub_spec(self, rhs: Self) -> Self {
        self.wrapping_sub(rhs)
    }

    proof fn lemma_add_associative(a: Self, b: Self, c: Self) {
    }

    proof fn lemma_add_commutative(a: Self, b: Self) {
    }

    proof fn lemma_add_zero(a: Self) {
    }

    proof fn lemma_sub_undoes_add(a: Self, b: Self) {
    }

    fn zero() -> (z: Self) {
        0
    }

    fn add_assign(&mut self, rhs: &Self) {
        *self = self.wrapping_add(*rhs);
    }

    fn sub(self, rhs: Self) -> (d: Self) {
        self.wrapping_sub(rhs)
    }
}

/// The integers modulo 2^16, as `u16`.
impl Val for u16 {
    open spec fn zero_spec() -> Self {
        0
    }

    open spec fn add_spec(self, rhs: Self) -> Self {
        self.wrapping_add(rhs)
    }

    open spec fn sub_spec(self, rhs: Self) -> Self {
        self.wrapping_sub(rhs)
    }

    proof fn lemma_add_associative(a: Self, b: Self, c: Self) {
    }

    proof fn lemma_add_commutative(a: Self, b: Self) {
    }

    proof fn lemma_add_zero(a: Self) {
    }

    proof fn lemma_sub_undoes_add(a: Self, b: Self) {
    }

    fn zero() -> (z: Self) {
        0
    }

    fn add_assign(&mut self, rhs: &Self) {
        *self = self.wrapping_add(*rhs);
    }

    fn sub(self, rhs: Self) -> (d: Self) {
        self.wrapping_sub(rhs)
    }
}

/// The integers modulo 2^32, as `u32`.
impl Val for u32 {
    open spec fn zero_spec() -> Self {
        0
    }

    open spec fn add_spec(self, rhs: Self) -> Self {
        self.wrapping_add(rhs)
    }

    open spec fn sub_spec(self, rhs: Self) -> Self {
        self.wrapping_sub(rhs)
    }

    proof fn lemma_add_associative(a: Self, b: Self, c: Self) {
    }

    proof fn lemma_add_commutative(a: Self, b: Self) {
    }

    proof fn lemma_add_zero(a: Self) {
    }

    proof fn lemma_sub_undoes_add(a: Self, b: Self) {
    }

    fn zero() -> (z: Self) {
        0
    }

    fn add_assign(&mut self, rhs: &Self) {
        *self = self.wrapping_add(*rhs);
    }

    fn sub(self, rhs: Self) -> (d: Self) {
        self.wrapping_sub(rhs)
    }
}

/// The integers modulo 2^64, as `u64`.
impl Val for u64 {
    open spec fn zero_spec() -> Self {
        0
    }

    open spec fn add_spec(self, rhs: Self) -> Self {
        self.wrapping_add(rhs)
    }

    open spec fn sub_spec(self, rhs: Self) -> Self {
        self.wrapping_sub(rhs)
    }

    proof fn lemma_add_associative(a: Self, b: Self, c: Self) {
    }

    proof fn lemma_add_commutative(a: Self, b: Self) {
    }

    proof fn lemma_add_zero(a: Self) {
    }

    proof fn lemma_sub_undoes_add(a: Self, b: Self) {
    }

    fn zero() -> (z: Self) {
        0
    }

    fn add_assign(&mut self, rhs: &Self) {
        *self = self.wrapping_add(*rhs);
    }

    fn sub(self, rhs: Self) -> (d: Self) {
        self.wrapping_sub(rhs)
    }
}

/// The integers modulo 2^128, as `u128`.
impl Val for u128 {
    open spec fn zero_spec() -> Self {
        0
    }

    open spec fn add_spec(self, rhs: Self) -> Self {
        self.wrapping_add(rhs)
    }

    open spec fn sub_spec(self, rhs: Self) -> Self {
        self.wrapping_sub(rhs)
    }

    proof fn lemma_add_associative(a: Self, b: Self, c: Self) {
    }

    proof fn lemma_add_commutative(a: Self, b: Self) {
    }

    proof fn lemma_add_zero(a: Self) {
    }

    proof fn lemma_sub_undoes_add(a: Self, b: Self) {
    }

    fn zero() -> (z: Self) {
        0
    }

    fn add_assign(&mut self, rhs: &Self) {
        *self = self.wrapping_add(*rhs);
    }

    fn sub(self, rhs: Self) -> (d: Self) {
        self.wrapping_sub(rhs)
    }
}

/// The integers modulo the size of the address space, as `usize`.
impl Val for usize {
    open spec fn zero_spec() -> Self {
        0
    }

    open spec fn add_spec(self, rhs: Self) -> Self {
        self.wrapping_add(rhs)
    }

    open spec fn sub_spec(self, rhs: Self) -> Self {
        self.wrapping_sub(rhs)
    }

    proof fn lemma_add_associative(a: Self, b: Self, c: Self) {
    }

    proof fn lemma_add_commutative(a: Self, b: Self) {
    }

    proof fn lemma_add_zero(a: Self) {
    }

    proof fn lemma_sub_undoes_add(a: Self, b: Self) {
    }

    fn zero() -> (z: Self) {
        0
    }

    fn add_assign(&mut self, rhs: &Self) {
        *self = self.wrapping_add(*rhs);
    }

    fn sub(self, rhs: Self) -> (d: Self) {
        self.wrapping_sub(rhs)
    }
}

} // verus!
