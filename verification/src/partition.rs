//! The mathematical model of a disjoint-set structure.
//!
//! A partition of `0..n` is modelled by its *leader map*: a sequence of
//! length `n` that sends every element to the representative of its part.
use vstd::prelude::*;
use vstd::set_lib::{lemma_int_range, lemma_len_subset, lemma_set_disjoint_lens, set_int_range};

verus! {

/// `l` is a leader map: every element is sent to an element of the
/// universe, and every leader is its own leader.
pub open spec fn is_leader_map(l: Seq<usize>) -> bool {
    forall|i: int| 0 <= i < l.len() ==> (#[trigger] l[i]) < l.len() && l[l[i] as int] == l[i]
}

/// The leader map of the partition of `0..n` into singletons.
pub open spec fn singletons(n: nat) -> Seq<usize> {
    Seq::new(n, |i: int| i as usize)
}

/// The elements whose leader is `r`.
pub open spec fn component(l: Seq<usize>, r: usize) -> Set<int> {
    Set::new(|i: int| 0 <= i < l.len() && l[i] == r)
}

/// The leader that survives when the parts of `a` and `b` are united: that
/// of the larger part, and the leader of `a` when the parts are equally
/// large (in particular when `a` and `b` already share a part).
pub open spec fn merged_leader(l: Seq<usize>, a: int, b: int) -> usize {
    if component(l, l[a]).len() < component(l, l[b]).len() {
        l[b]
    } else {
        l[a]
    }
}

/// The leader map after the parts of `a` and `b` have been united.
pub open spec fn merged(l: Seq<usize>, a: int, b: int) -> Seq<usize> {
    Seq::new(
        l.len(),
        |i: int|
            if l[i] == l[a] || l[i] == l[b] {
                merged_leader(l, a, b)
            } else {
                l[i]
            },
    )
}

/// The elements below `n` whose leader is `r`, in increasing order.
pub open spec fn members_below(l: Seq<usize>, r: usize, n: int) -> Seq<usize>
    decreases n,
{
    if n <= 0 {
        Seq::empty()
    } else if l[n - 1] == r {
        members_below(l, r, n - 1).push((n - 1) as usize)
    } else {
        members_below(l, r, n - 1)
    }
}

/// The elements whose leader is `r`, in increasing order.
pub open spec fn members(l: Seq<usize>, r: usize) -> Seq<usize> {
    members_below(l, r, l.len() as int)
}

/// The parts whose leader lies below `n`, by increasing leader.
pub open spec fn groups_below(l: Seq<usize>, n: int) -> Seq<Seq<usize>>
    decreases n,
{
    if n <= 0 {
        Seq::empty()
    } else if members(l, (n - 1) as usize).len() > 0 {
        groups_below(l, n - 1).push(members(l, (n - 1) as usize))
    } else {
        groups_below(l, n - 1)
    }
}

/// All parts, each listed in increasing order, by increasing leader.
pub open spec fn groups(l: Seq<usize>) -> Seq<Seq<usize>> {
    groups_below(l, l.len() as int)
}

/// A part is finite and no larger than the universe.
pub proof fn lemma_component_bounded(l: Seq<usize>, r: usize)
    ensures
        component(l, r).finite(),
        component(l, r).len() <= l.len(),
{
    lemma_int_range(0, l.len() as int);
    lemma_len_subset(component(l, r), set_int_range(0, l.len() as int));
}

/// In the partition into singletons every part holds one element.
pub proof fn lemma_singletons(n: nat)
    requires
        n <= usize::MAX,
    ensures
        is_leader_map(singletons(n)),
        forall|i: int| 0 <= i < n ==> (#[trigger] component(singletons(n), i as usize)).len() == 1,
{
    assert forall|i: int| 0 <= i < n implies (#[trigger] component(
        singletons(n),
        i as usize,
    )).len() == 1 by {
        assert(component(singletons(n), i as usize) =~= set![i]);
    }
}

/// Uniting two parts gives a leader map again. The united part is as large
/// as the two together (or, if they were one part already, as that part),
/// and every other part is left as it was.
pub proof fn lemma_merged(l: Seq<usize>, a: int, b: int)
    requires
        is_leader_map(l),
        0 <= a < l.len(),
        0 <= b < l.len(),
    ensures
        is_leader_map(merged(l, a, b)),
        l[a] == l[b] ==> merged(l, a, b) == l,
        l[a] != l[b] ==> component(merged(l, a, b), merged_leader(l, a, b)).len() == component(
            l,
            l[a],
        ).len() + component(l, l[b]).len(),
        forall|r: usize|
            r != l[a] && r != l[b] ==> #[trigger] component(merged(l, a, b), r) == component(l, r),
{
    let m = merged(l, a, b);
    let w = merged_leader(l, a, b);
    assert(l[w as int] == w);
    assert(is_leader_map(m)) by {
        assert forall|i: int| 0 <= i < m.len() implies (#[trigger] m[i]) < m.len() && m[m[i] as int]
            == m[i] by {
            assert(l[l[i] as int] == l[i]);
        }
    }
    if l[a] == l[b] {
        assert(m =~= l);
    } else {
        lemma_component_bounded(l, l[a]);
        lemma_component_bounded(l, l[b]);
        lemma_set_disjoint_lens(component(l, l[a]), component(l, l[b]));
        assert(component(m, w) =~= component(l, l[a]) + component(l, l[b]));
    }
    assert forall|r: usize| r != l[a] && r != l[b] implies #[trigger] component(m, r) == component(
        l,
        r,
    ) by {
        assert(component(m, r) =~= component(l, r));
    }
}

/// `s` is a part of the partition, listed in order: it is not empty, it
/// increases strictly, and it holds exactly the elements that share the
/// leader of its first element.
pub open spec fn is_part(l: Seq<usize>, s: Seq<usize>) -> bool {
    &&& s.len() > 0
    &&& forall|i: int, j: int| 0 <= i < j < s.len() ==> s[i] < s[j]
    &&& forall|x: usize| s.contains(x) <==> x < l.len() && l[x as int] == l[s[0] as int]
}

/// Some sequence of `g` holds `x`.
pub open spec fn listed(g: Seq<Seq<usize>>, x: usize) -> bool {
    exists|k: int| 0 <= k < g.len() && (#[trigger] g[k]).contains(x)
}

/// `members_below(l, r, n)` increases strictly and holds exactly the
/// elements below `n` whose leader is `r`.
pub proof fn lemma_members_below(l: Seq<usize>, r: usize, n: int)
    requires
        0 <= n <= l.len() <= usize::MAX,
    ensures
        forall|j: int|
            0 <= j < members_below(l, r, n).len() ==> (#[trigger] members_below(l, r, n)[j]) < n
                && l[members_below(l, r, n)[j] as int] == r,
        forall|i: int, j: int|
            0 <= i < j < members_below(l, r, n).len() ==> members_below(l, r, n)[i]
                < members_below(l, r, n)[j],
        forall|x: usize| x < n && l[x as int] == r ==> members_below(l, r, n).contains(x),
    decreases n,
{
    if n > 0 {
        lemma_members_below(l, r, n - 1);
        let shorter = members_below(l, r, n - 1);
        let s = members_below(l, r, n);
        assert forall|x: usize| x < n && l[x as int] == r implies s.contains(x) by {
            if x < n - 1 {
                assert(shorter.contains(x));
                let j = choose|j: int| 0 <= j < shorter.len() && shorter[j] == x;
                assert(s[j] == x);
            } else {
                assert(s[s.len() - 1] == x);
            }
        }
    }
}

/// The members of a leader form a part, and only leaders have members.
pub proof fn lemma_members(l: Seq<usize>, r: usize)
    requires
        is_leader_map(l),
        l.len() <= usize::MAX,
    ensures
        members(l, r).len() > 0 <==> r < l.len() && l[r as int] == r,
        members(l, r).len() > 0 ==> is_part(l, members(l, r)) && l[members(l, r)[0] as int] == r,
{
    let s = members(l, r);
    lemma_members_below(l, r, l.len() as int);
    if r < l.len() && l[r as int] == r {
        assert(s.contains(r));
    }
    if s.len() > 0 {
        assert(l[s[0] as int] == r);
        assert forall|x: usize| s.contains(x) implies x < l.len() && l[x as int] == r by {
            let j = choose|j: int| 0 <= j < s.len() && s[j] == x;
            assert(s[j] < l.len());
        }
    }
}

/// `groups_below(l, n)` lists, by increasing leader and without
/// repetition, the members of each leader below `n`.
proof fn lemma_groups_below(l: Seq<usize>, n: int)
    requires
        is_leader_map(l),
        0 <= n <= l.len() <= usize::MAX,
    ensures
        forall|k: int|
            0 <= k < groups_below(l, n).len() ==> {
                let s = #[trigger] groups_below(l, n)[k];
                s.len() > 0 && l[s[0] as int] < n && s == members(l, l[s[0] as int])
            },
        forall|j: int, k: int|
            0 <= j < k < groups_below(l, n).len() ==> l[groups_below(l, n)[j][0] as int]
                < l[groups_below(l, n)[k][0] as int],
        forall|r: usize|
            r < n && members(l, r).len() > 0 ==> groups_below(l, n).contains(
                #[trigger] members(l, r),
            ),
    decreases n,
{
    if n > 0 {
        lemma_groups_below(l, n - 1);
        let top = (n - 1) as usize;
        let fewer = groups_below(l, n - 1);
        let g = groups_below(l, n);
        lemma_members(l, top);
        assert forall|r: usize| r < n && members(l, r).len() > 0 implies g.contains(
            #[trigger] members(l, r),
        ) by {
            if r < n - 1 {
                assert(fewer.contains(members(l, r)));
                let k = choose|k: int| 0 <= k < fewer.len() && fewer[k] == members(l, r);
                assert(g[k] == members(l, r));
            } else {
                assert(g[g.len() - 1] == members(l, r));
            }
        }
    }
}

/// The listed parts partition the universe: each is a part, they come by
/// increasing leader, and every element lies in exactly one of them.
pub proof fn lemma_groups_partition(l: Seq<usize>)
    requires
        is_leader_map(l),
        l.len() <= usize::MAX,
    ensures
        forall|k: int| 0 <= k < groups(l).len() ==> is_part(l, #[trigger] groups(l)[k]),
        forall|j: int, k: int|
            0 <= j < k < groups(l).len() ==> l[groups(l)[j][0] as int] < l[groups(l)[k][0] as int],
        forall|x: usize| x < l.len() ==> #[trigger] listed(groups(l), x),
        forall|j: int, k: int, x: usize|
            0 <= j < groups(l).len() && 0 <= k < groups(l).len() && #[trigger] groups(l)[j].contains(
                x,
            ) && #[trigger] groups(l)[k].contains(x) ==> j == k,
{
    let g = groups(l);
    lemma_groups_below(l, l.len() as int);
    assert forall|k: int| 0 <= k < g.len() implies is_part(l, #[trigger] g[k]) by {
        lemma_members(l, l[g[k][0] as int]);
    }
    assert forall|x: usize| x < l.len() implies #[trigger] listed(g, x) by {
        let r = l[x as int];
        lemma_members(l, r);
        lemma_members_below(l, r, l.len() as int);
        assert(members(l, r).contains(x));
        assert(g.contains(members(l, r)));
        let k = choose|k: int| 0 <= k < g.len() && g[k] == members(l, r);
        assert(g[k].contains(x));
    }
    assert forall|j: int, k: int, x: usize|
        0 <= j < g.len() && 0 <= k < g.len() && #[trigger] g[j].contains(x) && #[trigger] g[k].contains(
            x,
        ) implies j == k by {
        assert(is_part(l, g[j]));
        assert(is_part(l, g[k]));
        assert(l[g[j][0] as int] == l[x as int]);
        assert(l[g[k][0] as int] == l[x as int]);
    }
}

/// The elements below `n` whose leader is `r`, as a set.
spec fn component_below(l: Seq<usize>, r: usize, n: int) -> Set<int> {
    Set::new(|i: int| 0 <= i < n && l[i] == r)
}

/// `members_below` lists as many elements as there are below `n` with leader `r`.
proof fn lemma_members_below_count(l: Seq<usize>, r: usize, n: int)
    requires
        0 <= n <= l.len(),
    ensures
        component_below(l, r, n).finite(),
        members_below(l, r, n).len() == component_below(l, r, n).len(),
    decreases n,
{
    if n == 0 {
        assert(component_below(l, r, n) =~= Set::empty());
    } else {
        lemma_members_below_count(l, r, n - 1);
        if l[n - 1] == r {
            assert(component_below(l, r, n) =~= component_below(l, r, n - 1).insert(n - 1));
        } else {
            assert(component_below(l, r, n) =~= component_below(l, r, n - 1));
        }
    }
}

/// A part is listed in full: `members` has as many entries as the part has
/// elements.
pub proof fn lemma_members_count(l: Seq<usize>, r: usize)
    ensures
        members(l, r).len() == component(l, r).len(),
{
    lemma_members_below_count(l, r, l.len() as int);
    assert(component_below(l, r, l.len() as int) =~= component(l, r));
}

} // verus!
