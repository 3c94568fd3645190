//! Walks in an edge list: directed reachability and undirected connection.

use crate::digraph::has_edge;
use vstd::prelude::*;

verus! {

/// Whether step `i` of `p` follows an edge.
pub open spec fn walk_step(edges: Seq<(usize, usize)>, p: Seq<usize>, i: int) -> bool {
    has_edge(edges, p[i], p[i + 1])
}

/// Whether `p` is a directed walk: at least one node, and every step an edge.
pub open spec fn is_walk(edges: Seq<(usize, usize)>, p: Seq<usize>) -> bool {
    &&& p.len() >= 1
    &&& forall|i: int| 0 <= i < p.len() - 1 ==> #[trigger] walk_step(edges, p, i)
}

/// Whether a directed walk leads from `a` to `b`. Every node reaches itself.
pub open spec fn reaches(edges: Seq<(usize, usize)>, a: usize, b: usize) -> bool {
    exists|p: Seq<usize>| #[trigger] is_walk(edges, p) && p.first() == a && p.last() == b
}

/// Whether an edge joins `a` and `b` in either direction.
pub open spec fn linked(edges: Seq<(usize, usize)>, a: usize, b: usize) -> bool {
    has_edge(edges, a, b) || has_edge(edges, b, a)
}

/// Whether step `i` of `p` follows an edge in either direction.
pub open spec fn chain_step(edges: Seq<(usize, usize)>, p: Seq<usize>, i: int) -> bool {
    linked(edges, p[i], p[i + 1])
}

/// Whether `p` is a walk that may follow edges in either direction.
pub open spec fn is_chain(edges: Seq<(usize, usize)>, p: Seq<usize>) -> bool {
    &&& p.len() >= 1
    &&& forall|i: int| 0 <= i < p.len() - 1 ==> #[trigger] chain_step(edges, p, i)
}

/// Whether `a` and `b` lie in one weakly connected component.
pub open spec fn connected(edges: Seq<(usize, usize)>, a: usize, b: usize) -> bool {
    exists|p: Seq<usize>| #[trigger] is_chain(edges, p) && p.first() == a && p.last() == b
}

/// Whether `s` holds, with each of its nodes, every node that an edge joins to it.
pub open spec fn closed_under_links(edges: Seq<(usize, usize)>, s: Set<usize>) -> bool {
    forall|a: usize, b: usize| s.contains(a) && #[trigger] linked(edges, a, b) ==> s.contains(b)
}

/// Whether `s` holds, with each of its nodes, every node that an edge leads to from it.
pub open spec fn closed_under_edges(edges: Seq<(usize, usize)>, s: Set<usize>) -> bool {
    forall|a: usize, b: usize| s.contains(a) && #[trigger] has_edge(edges, a, b) ==> s.contains(b)
}

pub proof fn lemma_reaches_self(edges: Seq<(usize, usize)>, a: usize)
    ensures
        reaches(edges, a, a),
{
    let p = seq![a];
    assert(is_walk(edges, p));
    assert(p.first() == a && p.last() == a);
}

/// An edge followed by a walk is a walk.
pub proof fn lemma_reaches_step(edges: Seq<(usize, usize)>, a: usize, c: usize, b: usize)
    requires
        has_edge(edges, a, c),
        reaches(edges, c, b),
    ensures
        reaches(edges, a, b),
{
    let q = choose|q: Seq<usize>| #[trigger] is_walk(edges, q) && q.first() == c && q.last() == b;
    let p = seq![a] + q;
    assert forall|i: int| 0 <= i < p.len() - 1 implies #[trigger] walk_step(edges, p, i) by {
        if i == 0 {
            assert(p[0] == a && p[1] == q[0]);
        } else {
            assert(walk_step(edges, q, i - 1));
            assert(p[i] == q[i - 1] && p[i + 1] == q[i]);
        }
    }
    assert(is_walk(edges, p));
    assert(p.first() == a);
    assert(p.last() == q.last());
}

/// A walk either stays where it is or starts with an edge.
pub proof fn lemma_reaches_unfold(edges: Seq<(usize, usize)>, a: usize, b: usize)
    requires
        reaches(edges, a, b),
    ensures
        a == b || exists|c: usize| #[trigger] has_edge(edges, a, c) && reaches(edges, c, b),
{
    let p = choose|p: Seq<usize>| #[trigger] is_walk(edges, p) && p.first() == a && p.last() == b;
    if p.len() >= 2 {
        let c = p[1];
        let q = p.skip(1);
        assert(walk_step(edges, p, 0));
        assert forall|i: int| 0 <= i < q.len() - 1 implies #[trigger] walk_step(edges, q, i) by {
            assert(walk_step(edges, p, i + 1));
        }
        assert(is_walk(edges, q));
        assert(q.first() == c && q.last() == b);
        assert(has_edge(edges, a, c) && reaches(edges, c, b));
    }
}

/// A set that is closed under the edges holds all that its nodes reach.
pub proof fn lemma_closed_holds_reached(edges: Seq<(usize, usize)>, s: Set<usize>, a: usize, b: usize)
    requires
        closed_under_edges(edges, s),
        s.contains(a),
        reaches(edges, a, b),
    ensures
        s.contains(b),
{
    let p = choose|p: Seq<usize>| #[trigger] is_walk(edges, p) && p.first() == a && p.last() == b;
    lemma_walk_stays(edges, s, p, p.len() - 1);
}

proof fn lemma_walk_stays(edges: Seq<(usize, usize)>, s: Set<usize>, p: Seq<usize>, k: int)
    requires
        closed_under_edges(edges, s),
        is_walk(edges, p),
        s.contains(p[0]),
        0 <= k < p.len(),
    ensures
        s.contains(p[k]),
    decreases k,
{
    if k > 0 {
        lemma_walk_stays(edges, s, p, k - 1);
        assert(walk_step(edges, p, k - 1));
    }
}

/// A set that is closed under links holds the whole component of each of its nodes.
pub proof fn lemma_closed_holds_connected(edges: Seq<(usize, usize)>, s: Set<usize>, a: usize, b: usize)
    requires
        closed_under_links(edges, s),
        s.contains(a),
        connected(edges, a, b),
    ensures
        s.contains(b),
{
    let p = choose|p: Seq<usize>| #[trigger] is_chain(edges, p) && p.first() == a && p.last() == b;
    lemma_chain_stays(edges, s, p, p.len() - 1);
}

proof fn lemma_chain_stays(edges: Seq<(usize, usize)>, s: Set<usize>, p: Seq<usize>, k: int)
    requires
        closed_under_links(edges, s),
        is_chain(edges, p),
        s.contains(p[0]),
        0 <= k < p.len(),
    ensures
        s.contains(p[k]),
    decreases k,
{
    if k > 0 {
        lemma_chain_stays(edges, s, p, k - 1);
        assert(chain_step(edges, p, k - 1));
    }
}

} // verus!
