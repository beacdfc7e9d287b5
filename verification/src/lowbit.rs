//! The lowest set bit of a positive integer, which decides the span of
//! positions that each node of a Fenwick tree is responsible for.
use vstd::prelude::*;
use vstd::std_specs::bits::axiom_u64_trailing_zeros;

verus! {

/// The largest power of two that divides `i`; zero for `i == 0`.
pub open spec fn lowbit(i: nat) -> nat
    decreases i,
{
    if i == 0 {
        0
    } else if i % 2 == 1 {
        1
    } else {
        2 * lowbit(i / 2)
    }
}

/// The lowest set bit of a positive number is positive and no larger than
/// the number.
pub proof fn lemma_lowbit_bounds(i: nat)
    requires
        i > 0,
    ensures
        1 <= lowbit(i) <= i,
    decreases i,
{
    if i % 2 == 0 {
        lemma_lowbit_bounds(i / 2);
    }
}

/// Strictly between `i` and `i + lowbit(i)` every number `k` has a lowest
/// set bit so small that `k - lowbit(k)` does not fall below `i`.
pub proof fn lemma_lowbit_gap(i: nat, k: nat)
    requires
        0 < i < k < i + lowbit(i),
    ensures
        i <= k - lowbit(k),
    decreases i,
{
    if i % 2 == 0 {
        if k % 2 == 0 {
            lemma_lowbit_gap(i / 2, k / 2);
        }
    }
}

/// Stepping from `i` to `i + lowbit(i)` at least doubles the lowest set
/// bit, so the span below the new number reaches at least as far down.
pub proof fn lemma_lowbit_step(i: nat)
    requires
        i > 0,
    ensures
        (i + lowbit(i)) - lowbit(i + lowbit(i)) <= i - lowbit(i),
    decreases i,
{
    lemma_lowbit_bounds(i);
    if i % 2 == 0 {
        lemma_lowbit_step(i / 2);
        assert((i + lowbit(i)) / 2 == i / 2 + lowbit(i / 2));
    } else {
        lemma_lowbit_bounds((i + 1) / 2);
    }
}

/// In two's complement, `i & -i` isolates the lowest set bit.
proof fn lemma_lowbit_isolated(i: u64)
    requires
        i > 0,
    ensures
        i & ((!i + 1) as u64) == lowbit(i as nat),
    decreases i,
{
    let half = i / 2;
    if i % 2 == 1 {
        assert(i & ((!i + 1) as u64) == 1) by (bit_vector)
            requires
                i % 2 == 1,
        ;
    } else {
        lemma_lowbit_isolated(half);
        assert(i & ((!i + 1) as u64) == 2 * (half & ((!half + 1) as u64))) by (bit_vector)
            requires
                i % 2 == 0,
                i > 0,
                half == i / 2,
        ;
    }
}

/// Returns the lowest set bit of `i`.
pub fn lowest_set_bit(i: usize) -> (b: usize)
    requires
        i > 0,
    ensures
        b == lowbit(i as nat),
{
    let wide = i as u64;
    let zeros = wide.trailing_zeros();
    proof {
        axiom_u64_trailing_zeros(wide);
        lemma_lowbit_isolated(wide);
        lemma_lowbit_bounds(i as nat);
        assert(1u64 << zeros == wide & ((!wide + 1) as u64)) by (bit_vector)
            requires
                zeros < 64,
                (wide >> zeros) & 1 == 1,
                wide << ((64 - zeros) as u64) == 0,
        ;
    }
    (1u64 << zeros) as usize
}

} // verus!
