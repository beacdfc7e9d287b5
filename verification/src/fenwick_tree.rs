//! A Fenwick tree: point updates and range sums over a commutative group.
use crate::lowbit::{
    lemma_lowbit_bounds, lemma_lowbit_gap, lemma_lowbit_step, lowbit, lowest_set_bit,
};
use std::ops::Range;
use vstd::prelude::*;

verus! {

/// One end of a range of positions.
#[derive(Clone, Copy, Debug, PartialEq, Eq)]
pub enum Bound {
    /// The range reaches this position and holds it.
    Included(usize),
    /// The range reaches this position and leaves it out.
    Excluded(usize),
    /// The range reaches the end of the tree on this side.
    Unbounded,
}

/// The first position of a range whose lower end is `start`.
pub open spec fn range_start(start: Bound) -> int {
    match start {
        Bound::Included(s) => s as int,
        Bound::Excluded(s) => s + 1,
        Bound::Unbounded => 0,
    }
}

/// The position just past a range whose upper end is `end`, in a tree of
/// `len` positions.
pub open spec fn range_end(end: Bound, len: int) -> int {
    match end {
        Bound::Included(e) => e + 1,
        Bound::Excluded(e) => e as int,
        Bound::Unbounded => len,
    }
}

/// A sequence of `len` group elements, kept as a tree of partial sums.
///
/// Its view is the sequence itself.
pub struct FenwickTree<T> {
    len: usize,
    /// `val[k - 1]` is the sum of the `lowbit(k)` positions that end just
    /// before position `k`.
    val: Vec<T>,
    elems: Ghost<Seq<T>>,
}

impl<T: Val> View for FenwickTree<T> {
    type V = Seq<T>;

    closed spec fn view(&self) -> Seq<T> {
        self.elems@
    }
}

impl<T: Val> FenwickTree<T> {
    /// The node with the one-based index `k` holds the sum that `elems` asks of it.
    spec fn node_ok(&self, elems: Seq<T>, k: int) -> bool {
        self.val[k - 1] == range_sum(elems, k - lowbit(k as nat), k)
    }

    /// The tree is well formed: every node holds the sum of its span of the view.
    pub closed spec fn wf(&self) -> bool {
        &&& self.val.len() == self.len
        &&& self.elems@.len() == self.len
        &&& forall|k: int| 1 <= k <= self.len ==> #[trigger] self.node_ok(self.elems@, k)
    }

    /// Creates a tree of `len` positions, each holding the identity.
    pub fn new(len: usize) -> (t: Self)
        ensures
            t.wf(),
            t@ == Seq::new(len as nat, |i: int| T::zero_spec()),
    {
        let ghost elems = Seq::new(len as nat, |i: int| T::zero_spec());
        let mut val: Vec<T> = Vec::with_capacity(len);
        let mut n: usize = 0;
        while n < len
            invariant
                n <= len,
                val.len() == n,
                forall|i: int| 0 <= i < n ==> #[trigger] val[i] == T::zero_spec(),
            decreases len - n,
        {
            val.push(T::zero());
            n += 1;
        }
        let t = FenwickTree { len, val, elems: Ghost(elems) };
        proof {
            assert forall|k: int| 1 <= k <= t.len implies #[trigger] t.node_ok(elems, k) by {
                lemma_lowbit_bounds(k as nat);
                lemma_range_sum_of_zeros(elems, k - lowbit(k as nat), k);
            }
        }
        t
    }

    /// Turns the two ends of a range into the half-open interval of
    /// positions that they describe.
    pub fn range(&self, start: Bound, end: Bound) -> (r: Range<usize>)
        requires
            self.wf(),
            range_start(start) <= usize::MAX,
            range_end(end, self@.len() as int) <= usize::MAX,
        ensures
            r.start == range_start(start),
            r.end == range_end(end, self@.len() as int),
    {
        let start = match start {
            Bound::Included(s) => s,
            Bound::Excluded(s) => s + 1,
            Bound::Unbounded => 0,
        };
        let end = match end {
            Bound::Included(e) => e + 1,
            Bound::Excluded(e) => e,
            Bound::Unbounded => self.len,
        };
        start..end
    }

    /// Returns the sum of the first `i` positions.
    fn sum_prefix(&self, i: usize) -> (sum: T)
        requires
            self.wf(),
            i <= self@.len(),
        ensures
            sum == range_sum(self@, 0, i as int),
    {
        let mut sum = T::zero();
        let mut j = i;
        while j > 0
            invariant
                self.wf(),
                j <= i <= self@.len(),
                sum == range_sum(self@, j as int, i as int),
            decreases j,
        {
            let step = lowest_set_bit(j);
            proof {
                lemma_lowbit_bounds(j as nat);
                assert(self.node_ok(self@, j as int));
                T::lemma_add_commutative(sum, self.val[j - 1]);
                lemma_range_sum_split(self@, j - step, j as int, i as int);
            }
            sum.add_assign(&self.val[j - 1]);
            j -= step;
        }
        sum
    }

    /// Returns the sum of the positions in the range from `start` to `end`.
    pub fn sum(&self, start: Bound, end: Bound) -> (sum: T)
        requires
            self.wf(),
            0 <= range_start(start) <= range_end(end, self@.len() as int) <= self@.len(),
        ensures
            sum == range_sum(self@, range_start(start), range_end(end, self@.len() as int)),
            range_start(start) == range_end(end, self@.len() as int) ==> sum == T::zero_spec(),
    {
        let r = self.range(start, end);
        let upto_end = self.sum_prefix(r.end);
        let upto_start = self.sum_prefix(r.start);
        proof {
            lemma_range_sum_split(self@, 0, r.start as int, r.end as int);
            let inside = range_sum(self@, r.start as int, r.end as int);
            T::lemma_add_commutative(upto_start, inside);
            T::lemma_sub_undoes_add(inside, upto_start);
        }
        upto_end.sub(upto_start)
    }

    /// Adds `x` to position `i`.
    pub fn add(&mut self, i: usize, x: T)
        requires
            old(self).wf(),
            i < old(self)@.len(),
        ensures
            final(self).wf(),
            final(self)@ == old(self)@.update(i as int, old(self)@[i as int].add_spec(x)),
    {
        let ghost before = self@;
        let ghost after = before.update(i as int, before[i as int].add_spec(x));
        self.elems = Ghost(after);
        let mut k = i + 1;
        proof {
            lemma_lowbit_bounds(k as nat);
            assert forall|m: int| 1 <= m < k implies #[trigger] self.node_ok(after, m) by {
                assert(old(self).node_ok(before, m));
                lemma_lowbit_bounds(m as nat);
                lemma_range_sum_update(before, i as int, x, m - lowbit(m as nat), m);
            }
            assert forall|m: int| k <= m <= self.len implies #[trigger] self.node_ok(before, m) by {
                assert(old(self).node_ok(before, m));
            }
        }
        while k <= self.len
            invariant
                self.val.len() == self.len,
                self.len == before.len(),
                before == old(self)@,
                self.elems@ == after,
                after == before.update(i as int, before[i as int].add_spec(x)),
                i < k,
                i < self.len,
                k - lowbit(k as nat) <= i,
                forall|m: int| 1 <= m < k && m <= self.len ==> #[trigger] self.node_ok(after, m),
                forall|m: int| k <= m <= self.len ==> #[trigger] self.node_ok(before, m),
            decreases self.len - k,
        {
            let ghost entry = *self;
            self.val[k - 1].add_assign(&x);
            let step = lowest_set_bit(k);
            proof {
                lemma_lowbit_bounds(k as nat);
                lemma_lowbit_step(k as nat);
                assert(entry.node_ok(before, k as int));
                lemma_range_sum_update(before, i as int, x, k - step, k as int);
                assert(self.node_ok(after, k as int));
                assert forall|m: int| 1 <= m < k + step && m <= self.len implies #[trigger] self.node_ok(
                    after,
                    m,
                ) by {
                    if m < k {
                        assert(entry.node_ok(after, m));
                    } else if m > k {
                        assert(entry.node_ok(before, m));
                        lemma_lowbit_gap(k as nat, m as nat);
                        lemma_lowbit_bounds(m as nat);
                        lemma_range_sum_update(before, i as int, x, m - lowbit(m as nat), m);
                    }
                }
                assert forall|m: int| k + step <= m <= self.len implies #[trigger] self.node_ok(
                    before,
                    m,
                ) by {
                    assert(entry.node_ok(before, m));
                }
            }
            if step > self.len - k {
                return ;
            }
            k += step;
        }
    }
}

/// A range of identities sums to the identity.
proof fn lemma_range_sum_of_zeros<T: Val>(a: Seq<T>, lo: int, hi: int)
    requires
        0 <= lo,
        hi <= a.len(),
        forall|i: int| 0 <= i < a.len() ==> #[trigger] a[i] == T::zero_spec(),
    ensures
        range_sum(a, lo, hi) == T::zero_spec(),
    decreases hi - lo,
{
    if lo < hi {
        lemma_range_sum_of_zeros(a, lo, hi - 1);
        T::lemma_add_zero(T::zero_spec());
    }
}

/// The values a Fenwick tree can hold: the elements of a commutative group.
///
/// An implementation names the group for use in contracts (`zero_spec`,
/// `add_spec`, `sub_spec`), proves the group laws that the tree relies on,
/// and provides the three operations that compute in it.
pub trait Val: Sized {
    /// The identity element.
    spec fn zero_spec() -> Self;

    /// The group operation.
    spec fn add_spec(self, rhs: Self) -> Self;

    /// The inverse of the group operation.
    spec fn sub_spec(self, rhs: Self) -> Self;

    /// Addition is associative.
    proof fn lemma_add_associative(a: Self, b: Self, c: Self)
        ensures
            a.add_spec(b).add_spec(c) == a.add_spec(b.add_spec(c)),
    ;

    /// Addition is commutative.
    proof fn lemma_add_commutative(a: Self, b: Self)
        ensures
            a.add_spec(b) == b.add_spec(a),
    ;

    /// Adding the identity changes nothing.
    proof fn lemma_add_zero(a: Self)
        ensures
            a.add_spec(Self::zero_spec()) == a,
    ;

    /// Subtraction undoes addition.
    proof fn lemma_sub_undoes_add(a: Self, b: Self)
        ensures
            a.add_spec(b).sub_spec(b) == a,
    ;

    /// Returns the identity element.
    fn zero() -> (z: Self)
        ensures
            z == Self::zero_spec(),
    ;

    /// Adds `rhs` to `self` in place.
    fn add_assign(&mut self, rhs: &Self)
        ensures
            *final(self) == old(self).add_spec(*rhs),
    ;

    /// Returns `self` less `rhs`.
    fn sub(self, rhs: Self) -> (d: Self)
        ensures
            d == self.sub_spec(rhs),
    ;
}

/// The sum of `a[lo..hi]`, taken from the left; the identity when the range
/// is empty.
pub open spec fn range_sum<T: Val>(a: Seq<T>, lo: int, hi: int) -> T
    decreases hi - lo,
{
    if hi <= lo {
        T::zero_spec()
    } else {
        range_sum(a, lo, hi - 1).add_spec(a[hi - 1])
    }
}

/// A range sum is the sum of the two parts into which any point splits it.
pub proof fn lemma_range_sum_split<T: Val>(a: Seq<T>, lo: int, mid: int, hi: int)
    requires
        lo <= mid <= hi,
    ensures
        range_sum(a, lo, hi) == range_sum(a, lo, mid).add_spec(range_sum(a, mid, hi)),
    decreases hi - mid,
{
    if mid == hi {
        T::lemma_add_zero(range_sum(a, lo, mid));
    } else {
        lemma_range_sum_split(a, lo, mid, hi - 1);
        T::lemma_add_associative(range_sum(a, lo, mid), range_sum(a, mid, hi - 1), a[hi - 1]);
    }
}

/// Adding `delta` at position `p` adds `delta` to the sum of every range
/// that holds `p` and leaves every other range sum as it was.
pub proof fn lemma_range_sum_update<T: Val>(a: Seq<T>, p: int, delta: T, lo: int, hi: int)
    requires
        0 <= p < a.len(),
        0 <= lo,
        hi <= a.len(),
    ensures
        range_sum(a.update(p, a[p].add_spec(delta)), lo, hi) == if lo <= p < hi {
            range_sum(a, lo, hi).add_spec(delta)
        } else {
            range_sum(a, lo, hi)
        },
    decreases hi - lo,
{
    let b = a.update(p, a[p].add_spec(delta));
    if lo < hi {
        lemma_range_sum_update(a, p, delta, lo, hi - 1);
        let rest = range_sum(a, lo, hi - 1);
        if p == hi - 1 {
            T::lemma_add_associative(rest, a[p], delta);
        } else if lo <= p < hi - 1 {
            // (rest + delta) + last == (rest + last) + delta
            T::lemma_add_associative(rest, delta, a[hi - 1]);
            T::lemma_add_commutative(delta, a[hi - 1]);
            T::lemma_add_associative(rest, a[hi - 1], delta);
        }
    }
}

} // verus!
