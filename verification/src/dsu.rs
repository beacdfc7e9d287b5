//! Disjoint-set union with union by size and path compression.
use crate::partition::{
    component, groups, groups_below, is_leader_map, lemma_component_bounded, lemma_merged,
    lemma_singletons, members, members_below, merged, merged_leader, singletons,
};
use vstd::prelude::*;

verus! {

/// A partition of `0..len` that can only grow coarser.
///
/// Its view is the leader map of the partition (see [`crate::partition`]).
pub struct Dsu {
    len: usize,
    /// A slot below `len` holds the parent of its element. Any other slot
    /// marks a root and holds the size of the root's tree, negated.
    p: Vec<usize>,
    leaders: Ghost<Seq<usize>>,
    /// The number of parent links between an element and its root is at
    /// most its depth; roots have depth zero.
    depth: Ghost<Seq<nat>>,
}

impl View for Dsu {
    type V = Seq<usize>;

    closed spec fn view(&self) -> Seq<usize> {
        self.leaders@
    }
}

impl Dsu {
    /// What the slot of `i` must hold for the structure to represent its view.
    spec fn slot_ok(&self, i: int) -> bool {
        if self.p[i] < self.len {
            &&& self.leaders@[self.p[i] as int] == self.leaders@[i]
            &&& self.leaders@[i] != i
            &&& self.depth@[self.p[i] as int] < self.depth@[i]
        } else {
            &&& self.leaders@[i] == i
            &&& self.depth@[i] == 0
            &&& usize::MAX - self.p[i] + 1 == component(self.leaders@, i as usize).len()
        }
    }

    /// The structure is well formed: following parent links from any element
    /// ends at the leader that the view gives it, and every root records the
    /// size of its part.
    pub closed spec fn wf(&self) -> bool {
        &&& self.len <= isize::MAX
        &&& self.p.len() == self.len
        &&& self.leaders@.len() == self.len
        &&& self.depth@.len() == self.len
        &&& is_leader_map(self.leaders@)
        &&& forall|i: int| 0 <= i < self.len ==> self.slot_ok(i)
    }

    /// A bound on the number of parent links from `a` to its root.
    pub closed spec fn depth_of(&self, a: int) -> nat {
        self.depth@[a]
    }

    /// The view of a well-formed structure is a leader map.
    pub proof fn lemma_view_is_leader_map(&self)
        requires
            self.wf(),
        ensures
            is_leader_map(self@),
    {
    }

    /// Creates the partition of `0..len` into singletons.
    ///
    /// The universe may not be larger than `isize::MAX`, a size that no
    /// vector reaches: the negated sizes of the roots must stay apart from
    /// the parent links.
    pub fn new(len: usize) -> (d: Self)
        requires
            len <= isize::MAX,
        ensures
            d.wf(),
            d@ == singletons(len as nat),
    {
        let d = Dsu {
            len,
            p: vec![usize::MAX; len],
            leaders: Ghost(singletons(len as nat)),
            depth: Ghost(Seq::new(len as nat, |i: int| 0nat)),
        };
        proof {
            lemma_singletons(len as nat);
            assert forall|i: int| 0 <= i < d.len implies d.slot_ok(i) by {
                assert(component(singletons(len as nat), i as usize).len() == 1);
            }
        }
        d
    }

    /// Returns the leader of `a`'s part, and shortens the path from `a` to it.
    pub fn leader(&mut self, a: usize) -> (r: usize)
        requires
            old(self).wf(),
            a < old(self)@.len(),
        ensures
            final(self).wf(),
            final(self)@ == old(self)@,
            r == old(self)@[a as int],
        decreases old(self).depth_of(a as int),
    {
        if self.p[a] < self.len {
            assert(self.slot_ok(a as int));
            let parent = self.p[a];
            let root = self.leader(parent);
            let ghost before = *self;
            assert(before.slot_ok(a as int));
            assert(before.slot_ok(root as int));
            self.p[a] = root;
            proof {
                assert forall|i: int| 0 <= i < self.len implies self.slot_ok(i) by {
                    assert(before.slot_ok(i));
                }
            }
            root
        } else {
            assert(self.slot_ok(a as int));
            a
        }
    }

    /// Unites the parts of `a` and `b` and returns the leader of the united
    /// part: the root of the larger tree, or that of `a` on a tie.
    pub fn merge(&mut self, a: usize, b: usize) -> (r: usize)
        requires
            old(self).wf(),
            a < old(self)@.len(),
            b < old(self)@.len(),
        ensures
            final(self).wf(),
            final(self)@ == merged(old(self)@, a as int, b as int),
            r == merged_leader(old(self)@, a as int, b as int),
    {
        let mut x = self.leader(a);
        let mut y = self.leader(b);
        let ghost before = *self;
        let ghost l = self@;
        proof {
            lemma_merged(l, a as int, b as int);
            lemma_component_bounded(l, x);
            lemma_component_bounded(l, y);
            lemma_component_bounded(merged(l, a as int, b as int), merged_leader(l, a as int, b as int));
            assert(before.slot_ok(x as int));
            assert(before.slot_ok(y as int));
        }
        if x != y {
            if 0usize.wrapping_sub(self.p[x]) < 0usize.wrapping_sub(self.p[y]) {
                std::mem::swap(&mut x, &mut y);
            }
            self.p[x] = self.p[x].wrapping_add(self.p[y]);
            self.p[y] = x;
            self.leaders = Ghost(merged(l, a as int, b as int));
            self.depth = Ghost(
                Seq::new(
                    self.len as nat,
                    |i: int|
                        if l[i] == y {
                            before.depth@[i] + 1
                        } else {
                            before.depth@[i]
                        },
                ),
            );
            proof {
                assert forall|i: int| 0 <= i < self.len implies self.slot_ok(i) by {
                    assert(before.slot_ok(i));
                    if i != x && i != y && before.p[i] >= before.len {
                        assert(component(self.leaders@, i as usize) == component(l, i as usize));
                    }
                }
            }
        }
        x
    }

    /// Tells whether `a` and `b` lie in the same part.
    pub fn same(&mut self, a: usize, b: usize) -> (r: bool)
        requires
            old(self).wf(),
            a < old(self)@.len(),
            b < old(self)@.len(),
        ensures
            final(self).wf(),
            final(self)@ == old(self)@,
            r == (old(self)@[a as int] == old(self)@[b as int]),
    {
        self.leader(a) == self.leader(b)
    }

    /// Returns the number of elements in `a`'s part.
    pub fn size(&mut self, a: usize) -> (s: usize)
        requires
            old(self).wf(),
            a < old(self)@.len(),
        ensures
            final(self).wf(),
            final(self)@ == old(self)@,
            s == component(old(self)@, old(self)@[a as int]).len(),
    {
        let x = self.leader(a);
        proof {
            lemma_component_bounded(self@, x);
            assert(self.slot_ok(x as int));
        }
        0usize.wrapping_sub(self.p[x])
    }

    /// Lists the parts: each part in increasing order, the parts by
    /// increasing leader.
    pub fn groups(&mut self) -> (g: Vec<Vec<usize>>)
        requires
            old(self).wf(),
        ensures
            final(self).wf(),
            final(self)@ == old(self)@,
            g.deep_view() == groups(old(self)@),
    {
        let ghost l = self@;
        let len = self.len;
        let mut leader_buf: Vec<usize> = Vec::with_capacity(len);
        let mut a: usize = 0;
        while a < len
            invariant
                self.wf(),
                self@ == l,
                len == l.len(),
                a <= len,
                leader_buf@ == l.take(a as int),
            decreases len - a,
        {
            let r = self.leader(a);
            leader_buf.push(r);
            a += 1;
            assert(leader_buf@ == l.take(a as int));
        }
        assert(leader_buf@ == l);
        proof {
            self.lemma_view_is_leader_map();
        }
        let mut group_size: Vec<usize> = vec![0; len];
        let mut i: usize = 0;
        while i < len
            invariant
                is_leader_map(l),
                len == l.len(),
                leader_buf@ == l,
                group_size.len() == len,
                i <= len,
                forall|r: int|
                    0 <= r < len ==> #[trigger] group_size[r] == members_below(
                        l,
                        r as usize,
                        i as int,
                    ).len(),
                forall|r: int| 0 <= r < len ==> #[trigger] group_size[r] <= i,
            decreases len - i,
        {
            let r = leader_buf[i];
            group_size[r] = group_size[r] + 1;
            i += 1;
        }
        let mut result: Vec<Vec<usize>> = Vec::with_capacity(len);
        let mut k: usize = 0;
        while k < len
            invariant
                len == l.len(),
                group_size.len() == len,
                k <= len,
                result.len() == k,
                forall|r: int| 0 <= r < k ==> (#[trigger] result[r])@ == Seq::<usize>::empty(),
            decreases len - k,
        {
            result.push(Vec::with_capacity(group_size[k]));
            k += 1;
        }
        let mut i: usize = 0;
        while i < len
            invariant
                is_leader_map(l),
                len == l.len(),
                leader_buf@ == l,
                result.len() == len,
                i <= len,
                forall|r: int|
                    0 <= r < len ==> (#[trigger] result[r])@ == members_below(
                        l,
                        r as usize,
                        i as int,
                    ),
            decreases len - i,
        {
            let r = leader_buf[i];
            result[r].push(i);
            i += 1;
        }
        let mut g: Vec<Vec<usize>> = Vec::new();
        let mut k: usize = 0;
        while k < len
            invariant
                len == l.len(),
                result.len() == len,
                k <= len,
                forall|r: int| k <= r < len ==> (#[trigger] result[r])@ == members(l, r as usize),
                g.deep_view() == groups_below(l, k as int),
            decreases len - k,
        {
            if !result[k].is_empty() {
                let ghost listed = g.deep_view();
                let mut part: Vec<usize> = Vec::new();
                std::mem::swap(&mut part, &mut result[k]);
                assert(part.deep_view() =~= members(l, k));
                g.push(part);
                assert(g.deep_view() =~= listed.push(members(l, k)));
            }
            k += 1;
        }
        g
    }
}

} // verus!
