//! Why a disjoint-set structure answers connectivity queries.
//!
//! Uniting the two ends of every edge of an undirected graph, one edge
//! after the other, leaves two vertices with the same leader exactly when a
//! walk along the edges leads from one to the other.
use crate::partition::{is_leader_map, lemma_merged, lemma_singletons, merged, singletons};
use vstd::prelude::*;

verus! {

/// Some edge joins `u` and `v`, in either direction.
pub open spec fn joined(edges: Seq<(usize, usize)>, u: usize, v: usize) -> bool {
    exists|k: int| 0 <= k < edges.len() && (#[trigger] edges[k] == (u, v) || edges[k] == (v, u))
}

/// `p` is a walk in the undirected graph with the given edges: a non-empty
/// sequence of vertices in which each is joined to the next.
pub open spec fn is_walk(edges: Seq<(usize, usize)>, p: Seq<usize>) -> bool {
    &&& p.len() >= 1
    &&& forall|i: int| 0 < i < p.len() ==> joined(edges, p[i - 1], #[trigger] p[i])
}

/// `a` and `b` are connected in the undirected graph with the given edges.
pub open spec fn connected(edges: Seq<(usize, usize)>, a: usize, b: usize) -> bool {
    exists|p: Seq<usize>| #[trigger] is_walk(edges, p) && p.first() == a && p.last() == b
}

/// The leader map reached from the singletons of `0..n` by uniting the two
/// ends of each edge, in order.
pub open spec fn merged_all(n: nat, edges: Seq<(usize, usize)>) -> Seq<usize>
    decreases edges.len(),
{
    if edges.len() == 0 {
        singletons(n)
    } else {
        merged(merged_all(n, edges.drop_last()), edges.last().0 as int, edges.last().1 as int)
    }
}

/// Every edge has both ends in `0..n`.
pub open spec fn edges_within(n: nat, edges: Seq<(usize, usize)>) -> bool {
    forall|k: int| 0 <= k < edges.len() ==> (#[trigger] edges[k]).0 < n && edges[k].1 < n
}

/// Uniting along edges always gives a leader map of `0..n`.
pub proof fn lemma_merged_all_is_leader_map(n: nat, edges: Seq<(usize, usize)>)
    requires
        n <= usize::MAX,
        edges_within(n, edges),
    ensures
        is_leader_map(merged_all(n, edges)),
        merged_all(n, edges).len() == n,
    decreases edges.len(),
{
    if edges.len() == 0 {
        lemma_singletons(n);
    } else {
        lemma_merged_all_is_leader_map(n, edges.drop_last());
        lemma_merged(
            merged_all(n, edges.drop_last()),
            edges.last().0 as int,
            edges.last().1 as int,
        );
    }
}

/// The two ends of every edge have the same leader once all edges are united.
proof fn lemma_edges_respected(n: nat, edges: Seq<(usize, usize)>, k: int)
    requires
        n <= usize::MAX,
        edges_within(n, edges),
        0 <= k < edges.len(),
    ensures
        merged_all(n, edges)[edges[k].0 as int] == merged_all(n, edges)[edges[k].1 as int],
    decreases edges.len(),
{
    let before = merged_all(n, edges.drop_last());
    lemma_merged_all_is_leader_map(n, edges.drop_last());
    if k < edges.len() - 1 {
        lemma_edges_respected(n, edges.drop_last(), k);
    }
}

/// Along a walk the leader never changes.
proof fn lemma_walk_keeps_leader(n: nat, edges: Seq<(usize, usize)>, p: Seq<usize>, i: int)
    requires
        n <= usize::MAX,
        edges_within(n, edges),
        is_walk(edges, p),
        p[0] < n,
        0 <= i < p.len(),
    ensures
        p[i] < n,
        merged_all(n, edges)[p[i] as int] == merged_all(n, edges)[p[0] as int],
    decreases i,
{
    if i > 0 {
        lemma_walk_keeps_leader(n, edges, p, i - 1);
        assert(joined(edges, p[i - 1], p[i]));
        let k = choose|k: int|
            0 <= k < edges.len() && (#[trigger] edges[k] == (p[i - 1], p[i]) || edges[k] == (
                p[i],
                p[i - 1],
            ));
        lemma_edges_respected(n, edges, k);
    }
}

/// A walk stays a walk when an edge is added to the graph.
proof fn lemma_walk_with_more_edges(edges: Seq<(usize, usize)>, e: (usize, usize), p: Seq<usize>)
    requires
        is_walk(edges, p),
    ensures
        is_walk(edges.push(e), p),
{
    assert forall|i: int| 0 < i < p.len() implies joined(edges.push(e), p[i - 1], #[trigger] p[i]) by {
        assert(joined(edges, p[i - 1], p[i]));
        let k = choose|k: int|
            0 <= k < edges.len() && (#[trigger] edges[k] == (p[i - 1], p[i]) || edges[k] == (
                p[i],
                p[i - 1],
            ));
        assert(edges.push(e)[k] == edges[k]);
    }
}

/// Two walks whose meeting ends are joined by an edge make one walk.
proof fn lemma_walks_joined(edges: Seq<(usize, usize)>, p: Seq<usize>, q: Seq<usize>)
    requires
        is_walk(edges, p),
        is_walk(edges, q),
        joined(edges, p.last(), q.first()),
    ensures
        is_walk(edges, p + q),
        (p + q).first() == p.first(),
        (p + q).last() == q.last(),
{
    let w = p + q;
    assert forall|i: int| 0 < i < w.len() implies joined(edges, w[i - 1], #[trigger] w[i]) by {
        if i < p.len() {
            assert(joined(edges, p[i - 1], p[i]));
        } else if i == p.len() {
            assert(w[i - 1] == p.last());
            assert(w[i] == q.first());
        } else {
            assert(w[i - 1] == q[i - 1 - p.len()]);
            assert(joined(edges, q[i - p.len() - 1], q[i - p.len()]));
        }
    }
}

/// After any sequence of unions, starting from singletons, two elements
/// have the same leader exactly when they are connected in the undirected
/// graph whose edges are the united pairs.
pub proof fn lemma_same_iff_connected(n: nat, edges: Seq<(usize, usize)>, a: usize, b: usize)
    requires
        n <= usize::MAX,
        edges_within(n, edges),
        a < n,
        b < n,
    ensures
        merged_all(n, edges)[a as int] == merged_all(n, edges)[b as int] <==> connected(
            edges,
            a,
            b,
        ),
    decreases edges.len(),
{
    let l = merged_all(n, edges);
    lemma_merged_all_is_leader_map(n, edges);
    if connected(edges, a, b) {
        let p = choose|p: Seq<usize>| #[trigger] is_walk(edges, p) && p.first() == a && p.last() == b;
        lemma_walk_keeps_leader(n, edges, p, p.len() - 1);
    }
    if l[a as int] == l[b as int] {
        if edges.len() == 0 {
            assert(a == b);
            assert(is_walk(edges, seq![a]));
            assert(seq![a].first() == a && seq![a].last() == b);
        } else {
            let rest = edges.drop_last();
            let e = edges.last();
            let before = merged_all(n, rest);
            assert(edges == rest.push(e));
            lemma_merged_all_is_leader_map(n, rest);
            lemma_merged(before, e.0 as int, e.1 as int);
            if before[a as int] == before[b as int] {
                lemma_same_iff_connected(n, rest, a, b);
                let p = choose|p: Seq<usize>| #[trigger]
                    is_walk(rest, p) && p.first() == a && p.last() == b;
                lemma_walk_with_more_edges(rest, e, p);
            } else {
                let (u, v) = if before[a as int] == before[e.0 as int] {
                    (e.0, e.1)
                } else {
                    (e.1, e.0)
                };
                assert(before[a as int] == before[u as int]);
                assert(before[b as int] == before[v as int]);
                lemma_same_iff_connected(n, rest, a, u);
                lemma_same_iff_connected(n, rest, v, b);
                let p = choose|p: Seq<usize>| #[trigger]
                    is_walk(rest, p) && p.first() == a && p.last() == u;
                let q = choose|q: Seq<usize>| #[trigger]
                    is_walk(rest, q) && q.first() == v && q.last() == b;
                lemma_walk_with_more_edges(rest, e, p);
                lemma_walk_with_more_edges(rest, e, q);
                assert(edges[edges.len() - 1] == e);
                assert(joined(edges, u, v));
                lemma_walks_joined(edges, p, q);
                assert(is_walk(edges, p + q));
            }
        }
    }
}

} // verus!
