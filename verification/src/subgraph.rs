//! The weakly connected component of a node, topologically ranked, with the set of
//! ranks that each rank reaches.
//!
//! A `Subgraph` is built for one query and thrown away. Building it reads the graph
//! and never changes it. The walks that find the component and order it are
//! `petgraph`'s; the order that comes back is checked here before anything is built
//! on it, so a subgraph that exists is exact whatever the walks returned.

use crate::bitmap::{ascending, bitmap_contains, bitmap_insert, bitmap_new, bitmap_set, bitmap_to_vec, bitmap_union_with};
use crate::digraph::{dfs_undirected_order, has_edge, lemma_neighbors_of_contains, neighbors_of, topo_order, DiGraph, Direction};
use crate::reach::{
    closed_under_edges, closed_under_links, connected, lemma_closed_holds_connected, lemma_closed_holds_reached,
    lemma_reaches_self, lemma_reaches_step, lemma_reaches_unfold, linked, reaches,
};
use roaring::RoaringBitmap;
use vstd::prelude::*;

verus! {

/// Why no subgraph could be built.
#[derive(Clone, Copy, PartialEq, Eq, Structural, Debug)]
pub enum SubgraphError {
    /// The root is no node of the graph.
    UnknownRoot,
    /// No node of the root's component is free of incoming edges.
    NoSource,
    /// The topological walk from the component's sources did not order the
    /// component: some node lies on a cycle or behind one.
    Cyclic,
}

/// Whether `v` stands in `order` before position `i`.
pub open spec fn ranked_before(order: Seq<usize>, v: usize, i: int) -> bool {
    exists|j: int| 0 <= j < i && #[trigger] order[j] == v
}

/// Whether every node that an edge joins to a node of `order` is in `order` too, the
/// sources of incoming edges at earlier positions.
pub open spec fn links_ranked(edges: Seq<(usize, usize)>, order: Seq<usize>) -> bool {
    &&& forall|i: int, v: usize| 0 <= i < order.len() && #[trigger] has_edge(edges, v, order[i]) ==> ranked_before(order, v, i)
    &&& forall|i: int, v: usize| 0 <= i < order.len() && #[trigger] has_edge(edges, order[i], v) ==> order.contains(v)
}

/// Whether `order` ranks a set of nodes that holds `root` and its whole component,
/// each node once and every edge from a lower to a higher rank.
pub open spec fn valid_order(nodes: nat, edges: Seq<(usize, usize)>, root: usize, order: Seq<usize>) -> bool {
    &&& order.len() <= u32::MAX
    &&& forall|i: int| 0 <= i < order.len() ==> (#[trigger] order[i]) < nodes
    &&& order.no_duplicates()
    &&& order.contains(root)
    &&& links_ranked(edges, order)
}

/// The table that gives each node its rank in `order`, and `None` to the others.
pub open spec fn ranks_match(ranks: Seq<Option<u32>>, order: Seq<usize>) -> bool {
    &&& forall|i: int| 0 <= i < order.len() ==> (#[trigger] order[i]) < ranks.len() && ranks[order[i] as int] == Some(i as u32)
    &&& forall|v: int| 0 <= v < ranks.len() ==> match #[trigger] ranks[v] {
        Some(r) => r < order.len() && order[r as int] == v,
        None => true,
    }
}

/// The ranks whose nodes the node of rank `from` reaches along the edges.
pub open spec fn reach_ranks(edges: Seq<(usize, usize)>, order: Seq<usize>, from: int) -> Set<u32> {
    Set::new(|t: u32| t < order.len() && reaches(edges, order[from], order[t as int]))
}

/// The nodes of a component that no edge enters, in the order of `component`.
pub open spec fn sources_of(edges: Seq<(usize, usize)>, nodes: nat, component: Seq<usize>) -> Seq<usize>
    decreases component.len(),
{
    if component.len() == 0 {
        Seq::empty()
    } else {
        let v = component.last();
        let rest = sources_of(edges, nodes, component.drop_last());
        if v < nodes && neighbors_of(edges, v, Direction::Incoming).len() == 0 {
            rest.push(v)
        } else {
            rest
        }
    }
}

/// The union of the sets that the ranks in `from` reach. A number that is no rank
/// adds nothing.
pub open spec fn union_of_closures(closures: Seq<Set<u32>>, from: Seq<u32>) -> Set<u32> {
    Set::new(
        |t: u32| exists|i: int| 0 <= i < from.len() && from[i] < closures.len() && (#[trigger] closures[from[i] as int]).contains(t),
    )
}

pub struct Subgraph {
    nodes: Vec<usize>,
    ranks: Vec<Option<u32>>,
    transitive_closure: Vec<RoaringBitmap>,
    edges: Ghost<Seq<(usize, usize)>>,
}

proof fn lemma_ranks_no_duplicates(ranks: Seq<Option<u32>>, order: Seq<usize>)
    requires
        ranks_match(ranks, order),
        order.len() <= u32::MAX,
    ensures
        order.no_duplicates(),
        forall|v: usize| v < ranks.len() && ranks[v as int] is None ==> !order.contains(v),
{
    assert forall|i: int, j: int| 0 <= i < order.len() && 0 <= j < order.len() && i != j implies order[i] != order[j] by {
        if order[i] == order[j] {
            assert(ranks[order[i] as int] == Some(i as u32));
            assert(ranks[order[j] as int] == Some(j as u32));
        }
    }
    assert forall|v: usize| v < ranks.len() && ranks[v as int] is None implies !order.contains(v) by {
        if order.contains(v) {
            let i = choose|i: int| 0 <= i < order.len() && order[i] == v;
            assert(ranks[order[i] as int] == Some(i as u32));
        }
    }
}

/// In a valid order every edge between ranked nodes climbs in rank.
proof fn lemma_edges_climb(edges: Seq<(usize, usize)>, order: Seq<usize>, i: int, j: int)
    requires
        order.no_duplicates(),
        links_ranked(edges, order),
        0 <= i < order.len(),
        0 <= j < order.len(),
        has_edge(edges, order[i], order[j]),
    ensures
        i < j,
{
    assert(ranked_before(order, order[i], j));
    let k = choose|k: int| 0 <= k < j && #[trigger] order[k] == order[i];
    assert(k == i);
}

proof fn lemma_ranked_closed(edges: Seq<(usize, usize)>, order: Seq<usize>)
    requires
        links_ranked(edges, order),
    ensures
        closed_under_links(edges, order.to_set()),
        closed_under_edges(edges, order.to_set()),
{
    let s = order.to_set();
    assert forall|a: usize, b: usize| s.contains(a) && #[trigger] linked(edges, a, b) implies s.contains(b) by {
        let i = choose|i: int| 0 <= i < order.len() && order[i] == a;
        if has_edge(edges, a, b) {
            assert(has_edge(edges, order[i], b));
        } else {
            assert(has_edge(edges, b, order[i]));
            assert(ranked_before(order, b, i));
            let j = choose|j: int| 0 <= j < i && #[trigger] order[j] == b;
            assert(order.contains(b));
        }
    }
    assert forall|a: usize, b: usize| s.contains(a) && #[trigger] has_edge(edges, a, b) implies s.contains(b) by {
        let i = choose|i: int| 0 <= i < order.len() && order[i] == a;
        assert(has_edge(edges, order[i], b));
    }
}

/// Gives each node of `order` its position, or `None` when a node is out of range
/// or stands twice.
fn build_ranks(nodes: usize, order: &Vec<usize>) -> (r: Option<Vec<Option<u32>>>)
    requires
        order@.len() <= u32::MAX,
    ensures
        match r {
            Some(ranks) => {
                &&& ranks@.len() == nodes
                &&& ranks_match(ranks@, order@)
                &&& order@.no_duplicates()
                &&& forall|i: int| 0 <= i < order@.len() ==> (#[trigger] order@[i]) < nodes
            },
            None => !(order@.no_duplicates() && forall|i: int| 0 <= i < order@.len() ==> (#[trigger] order@[i]) < nodes),
        },
{
    let mut ranks: Vec<Option<u32>> = Vec::new();
    let mut v: usize = 0;
    while v < nodes
        invariant
            v <= nodes,
            ranks@.len() == v,
            forall|w: int| 0 <= w < v ==> (#[trigger] ranks@[w]) is None,
        decreases nodes - v,
    {
        ranks.push(None);
        v += 1;
    }
    let n = order.len();
    let mut i: usize = 0;
    while i < n
        invariant
            i <= n,
            n == order@.len(),
            n <= u32::MAX,
            ranks@.len() == nodes,
            forall|j: int| 0 <= j < i ==> (#[trigger] order@[j]) < nodes && ranks@[order@[j] as int] == Some(j as u32),
            forall|w: int| 0 <= w < nodes ==> match #[trigger] ranks@[w] {
                Some(r) => r < i && order@[r as int] == w,
                None => true,
            },
        decreases n - i,
    {
        let node = order[i];
        if node >= nodes {
            return None;
        }
        if ranks[node].is_some() {
            proof {
                let r = ranks@[node as int]->0;
                assert(order@[r as int] == order@[i as int] && r as int != i as int);
            }
            return None;
        }
        ranks.set(node, Some(i as u32));
        i += 1;
    }
    proof {
        lemma_ranks_no_duplicates(ranks@, order@);
    }
    Some(ranks)
}

/// Checks every node of `order` against its neighbours in the graph.
fn check_links(graph: &DiGraph, order: &Vec<usize>, ranks: &Vec<Option<u32>>) -> (ok: bool)
    requires
        graph.wf(),
        order@.len() <= u32::MAX,
        ranks@.len() == graph.nodes(),
        ranks_match(ranks@, order@),
    ensures
        ok == links_ranked(graph.edges(), order@),
{
    let n = order.len();
    let mut i: usize = 0;
    while i < n
        invariant
            graph.wf(),
            i <= n,
            n == order@.len(),
            n <= u32::MAX,
            ranks@.len() == graph.nodes(),
            ranks_match(ranks@, order@),
            forall|k: int, v: usize| 0 <= k < i && #[trigger] has_edge(graph.edges(), v, order@[k]) ==> ranked_before(order@, v, k),
            forall|k: int, v: usize| 0 <= k < i && #[trigger] has_edge(graph.edges(), order@[k], v) ==> order@.contains(v),
        decreases n - i,
    {
        let node = order[i];
        assert(order@[i as int] < ranks@.len());
        let parents = graph.neighbors_directed(node, Direction::Incoming);
        let mut m: usize = 0;
        while m < parents.len()
            invariant
                m <= parents@.len(),
                i < n,
                n == order@.len(),
                n <= u32::MAX,
                node == order@[i as int],
                ranks@.len() == graph.nodes(),
                ranks_match(ranks@, order@),
                parents@ == neighbors_of(graph.edges(), node, Direction::Incoming),
                forall|k: int| 0 <= k < parents@.len() ==> (#[trigger] parents@[k]) < graph.nodes(),
                forall|k: int| 0 <= k < m ==> ranked_before(order@, #[trigger] parents@[k], i as int),
            decreases parents@.len() - m,
        {
            let p = parents[m];
            let placed = match ranks[p] {
                Some(rp) => (rp as usize) < i,
                None => false,
            };
            proof {
                assert(parents@.contains(p));
                lemma_neighbors_of_contains(graph.edges(), node, Direction::Incoming, p);
            }
            if !placed {
                proof {
                    if ranked_before(order@, p, i as int) {
                        let j = choose|j: int| 0 <= j < i && #[trigger] order@[j] == p;
                        assert(ranks@[order@[j] as int] == Some(j as u32));
                    }
                    assert(has_edge(graph.edges(), p, order@[i as int]));
                }
                return false;
            }
            proof {
                let rp = ranks@[p as int]->0;
                assert(order@[rp as int] == p);
            }
            m += 1;
        }
        let children = graph.neighbors_directed(node, Direction::Outgoing);
        let mut c: usize = 0;
        while c < children.len()
            invariant
                c <= children@.len(),
                i < n,
                n == order@.len(),
                node == order@[i as int],
                ranks@.len() == graph.nodes(),
                ranks_match(ranks@, order@),
                n <= u32::MAX,
                children@ == neighbors_of(graph.edges(), node, Direction::Outgoing),
                forall|k: int| 0 <= k < children@.len() ==> (#[trigger] children@[k]) < graph.nodes(),
                forall|k: int| 0 <= k < c ==> order@.contains(#[trigger] children@[k]),
            decreases children@.len() - c,
        {
            let ch = children[c];
            proof {
                assert(children@.contains(ch));
                lemma_neighbors_of_contains(graph.edges(), node, Direction::Outgoing, ch);
            }
            match ranks[ch] {
                Some(r) => {
                    assert(order@[r as int] == ch);
                },
                None => {
                    proof {
                        lemma_ranks_no_duplicates(ranks@, order@);
                        assert(has_edge(graph.edges(), order@[i as int], ch));
                    }
                    return false;
                },
            }
            c += 1;
        }
        proof {
            assert forall|v: usize| #[trigger] has_edge(graph.edges(), v, order@[i as int]) implies ranked_before(order@, v, i as int) by {
                lemma_neighbors_of_contains(graph.edges(), node, Direction::Incoming, v);
                let k = choose|k: int| 0 <= k < parents@.len() && parents@[k] == v;
                assert(ranked_before(order@, parents@[k], i as int));
            }
            assert forall|v: usize| #[trigger] has_edge(graph.edges(), order@[i as int], v) implies order@.contains(v) by {
                lemma_neighbors_of_contains(graph.edges(), node, Direction::Outgoing, v);
                let k = choose|k: int| 0 <= k < children@.len() && children@[k] == v;
                assert(order@.contains(children@[k]));
            }
        }
        i += 1;
    }
    true
}

/// Whether one of the first `c` nodes of `children` reaches the node of rank `t`.
spec fn via_children(edges: Seq<(usize, usize)>, order: Seq<usize>, children: Seq<usize>, c: int, t: u32) -> bool {
    t < order.len() && exists|j: int| 0 <= j < c && #[trigger] reaches(edges, children[j], order[t as int])
}

/// Computes for every rank the set of ranks that it reaches, highest rank first: a
/// rank reaches itself and all that the far ends of its outgoing edges reach, whose
/// sets are complete by then because every edge climbs.
fn close(graph: &DiGraph, order: &Vec<usize>, ranks: &Vec<Option<u32>>) -> (tc: Vec<RoaringBitmap>)
    requires
        graph.wf(),
        order@.len() <= u32::MAX,
        ranks@.len() == graph.nodes(),
        ranks_match(ranks@, order@),
        links_ranked(graph.edges(), order@),
    ensures
        tc@.len() == order@.len(),
        forall|from: int| 0 <= from < order@.len() ==> bitmap_set(#[trigger] tc@[from]) == reach_ranks(graph.edges(), order@, from),
{
    let n = order.len();
    let ghost edges = graph.edges();
    proof {
        lemma_ranks_no_duplicates(ranks@, order@);
    }
    let mut tc: Vec<RoaringBitmap> = Vec::new();
    let mut f: usize = 0;
    while f < n
        invariant
            f <= n,
            tc@.len() == f,
        decreases n - f,
    {
        tc.push(bitmap_new());
        f += 1;
    }
    let mut k: usize = n;
    while k > 0
        invariant
            graph.wf(),
            edges == graph.edges(),
            k <= n,
            n == order@.len(),
            n <= u32::MAX,
            tc@.len() == n,
            ranks@.len() == graph.nodes(),
            ranks_match(ranks@, order@),
            links_ranked(edges, order@),
            order@.no_duplicates(),
            forall|j: int| k <= j < n ==> bitmap_set(#[trigger] tc@[j]) == reach_ranks(edges, order@, j),
        decreases k,
    {
        k -= 1;
        let node = order[k];
        assert(order@[k as int] < ranks@.len());
        let mut cur = bitmap_new();
        bitmap_insert(&mut cur, k as u32);
        let children = graph.neighbors_directed(node, Direction::Outgoing);
        let mut c: usize = 0;
        while c < children.len()
            invariant
                c <= children@.len(),
                k < n,
                n == order@.len(),
                n <= u32::MAX,
                tc@.len() == n,
                node == order@[k as int],
                ranks@.len() == graph.nodes(),
                ranks_match(ranks@, order@),
                links_ranked(edges, order@),
                order@.no_duplicates(),
                children@ == neighbors_of(edges, node, Direction::Outgoing),
                forall|j: int| k < j < n ==> bitmap_set(#[trigger] tc@[j]) == reach_ranks(edges, order@, j),
                forall|t: u32| bitmap_set(cur).contains(t) <==> (t == k || via_children(edges, order@, children@, c as int, t)),
            decreases children@.len() - c,
        {
            let ch = children[c];
            proof {
                assert(children@.contains(ch));
                lemma_neighbors_of_contains(edges, node, Direction::Outgoing, ch);
                assert(has_edge(edges, order@[k as int], ch));
                assert(order@.contains(ch));
                lemma_ranks_no_duplicates(ranks@, order@);
                let j = choose|j: int| 0 <= j < order@.len() && order@[j] == ch;
                assert(order@[j] < ranks@.len());
            }
            match ranks[ch] {
                Some(rc) => {
                    proof {
                        assert(order@[rc as int] == ch);
                        lemma_edges_climb(edges, order@, k as int, rc as int);
                    }
                    let ghost before = bitmap_set(cur);
                    bitmap_union_with(&mut cur, &tc[rc as usize]);
                    proof {
                        let far = reach_ranks(edges, order@, rc as int);
                        assert forall|t: u32| bitmap_set(cur).contains(t) <==> (t == k || via_children(edges, order@, children@, c + 1, t)) by {
                            if before.contains(t) && t != k {
                                let j = choose|j: int| 0 <= j < c && #[trigger] reaches(edges, children@[j], order@[t as int]);
                                assert(via_children(edges, order@, children@, c + 1, t));
                            }
                            if far.contains(t) {
                                assert(reaches(edges, children@[c as int], order@[t as int]));
                            }
                            if via_children(edges, order@, children@, c + 1, t) {
                                let j = choose|j: int| 0 <= j < c + 1 && #[trigger] reaches(edges, children@[j], order@[t as int]);
                                if j < c {
                                    assert(via_children(edges, order@, children@, c as int, t));
                                } else {
                                    assert(far.contains(t));
                                }
                            }
                        }
                    }
                },
                None => {
                    assert(false);
                },
            }
            c += 1;
        }
        proof {
            let goal = reach_ranks(edges, order@, k as int);
            assert forall|t: u32| bitmap_set(cur).contains(t) == goal.contains(t) by {
                if t == k {
                    lemma_reaches_self(edges, node);
                } else if via_children(edges, order@, children@, children@.len() as int, t) {
                    let j = choose|j: int| 0 <= j < children@.len() && #[trigger] reaches(edges, children@[j], order@[t as int]);
                    assert(children@.contains(children@[j]));
                    lemma_neighbors_of_contains(edges, node, Direction::Outgoing, children@[j]);
                    lemma_reaches_step(edges, node, children@[j], order@[t as int]);
                } else if goal.contains(t) {
                    lemma_reaches_unfold(edges, node, order@[t as int]);
                    let far = choose|far: usize| #[trigger] has_edge(edges, node, far) && reaches(edges, far, order@[t as int]);
                    lemma_neighbors_of_contains(edges, node, Direction::Outgoing, far);
                    let j = choose|j: int| 0 <= j < children@.len() && children@[j] == far;
                    assert(reaches(edges, children@[j], order@[t as int]));
                }
            }
            assert(bitmap_set(cur) =~= goal);
        }
        tc.set(k, cur);
    }
    tc
}

/// The nodes of `component` that no edge enters.
fn collect_sources(graph: &DiGraph, component: &Vec<usize>) -> (sources: Vec<usize>)
    requires
        graph.wf(),
    ensures
        sources@ == sources_of(graph.edges(), graph.nodes(), component@),
        forall|i: int| 0 <= i < sources@.len() ==> (#[trigger] sources@[i]) < graph.nodes(),
{
    let nodes = graph.node_count();
    let mut sources: Vec<usize> = Vec::new();
    let mut i: usize = 0;
    while i < component.len()
        invariant
            graph.wf(),
            nodes == graph.nodes(),
            i <= component@.len(),
            sources@ == sources_of(graph.edges(), graph.nodes(), component@.take(i as int)),
            forall|k: int| 0 <= k < sources@.len() ==> (#[trigger] sources@[k]) < graph.nodes(),
        decreases component@.len() - i,
    {
        let v = component[i];
        proof {
            let next = component@.take(i + 1);
            assert(next.drop_last() =~= component@.take(i as int));
            assert(next.last() == v);
        }
        if v < nodes {
            let parents = graph.neighbors_directed(v, Direction::Incoming);
            if parents.len() == 0 {
                sources.push(v);
            }
        }
        i += 1;
    }
    proof {
        assert(component@.take(component@.len() as int) =~= component@);
    }
    sources
}

impl Subgraph {
    /// The nodes in the order of their ranks.
    pub closed spec fn ranked(&self) -> Seq<usize> {
        self.nodes@
    }

    /// The edges of the graph that the subgraph was built from.
    pub closed spec fn source_edges(&self) -> Seq<(usize, usize)> {
        self.edges@
    }

    /// For every rank the set of ranks that is stored as reached from it.
    pub closed spec fn closures(&self) -> Seq<Set<u32>> {
        Seq::new(self.transitive_closure@.len(), |i: int| bitmap_set(self.transitive_closure@[i]))
    }

    /// The ranks are dense and no node has two, every neighbour of a ranked node is
    /// ranked, every edge climbs in rank, and the stored sets are exact.
    pub closed spec fn wf(&self) -> bool {
        &&& self.nodes@.len() <= u32::MAX
        &&& self.transitive_closure@.len() == self.nodes@.len()
        &&& ranks_match(self.ranks@, self.nodes@)
        &&& links_ranked(self.edges@, self.nodes@)
        &&& forall|from: int| 0 <= from < self.nodes@.len() ==>
            bitmap_set(#[trigger] self.transitive_closure@[from]) == reach_ranks(self.edges@, self.nodes@, from)
    }

    /// Builds the subgraph of `order`, which must rank `root`'s component
    /// topologically; `None` for any other `order`.
    pub fn from_order(graph: &DiGraph, root: usize, order: Vec<usize>) -> (r: Option<Subgraph>)
        requires
            graph.wf(),
        ensures
            r is Some <==> valid_order(graph.nodes(), graph.edges(), root, order@),
            r matches Some(s) ==> s.wf() && s.ranked() == order@ && s.source_edges() == graph.edges(),
    {
        if order.len() > u32::MAX as usize {
            return None;
        }
        let nodes = graph.node_count();
        let ranks = match build_ranks(nodes, &order) {
            Some(ranks) => ranks,
            None => {
                return None;
            },
        };
        proof {
            lemma_ranks_no_duplicates(ranks@, order@);
        }
        if root >= nodes {
            proof {
                if order@.contains(root) {
                    let i = choose|i: int| 0 <= i < order@.len() && order@[i] == root;
                    assert(order@[i] < nodes);
                }
            }
            return None;
        }
        if ranks[root].is_none() {
            return None;
        }
        proof {
            let r = ranks@[root as int]->0;
            assert(order@[r as int] == root);
        }
        if !check_links(graph, &order, &ranks) {
            return None;
        }
        let transitive_closure = close(graph, &order, &ranks);
        Some(Subgraph { nodes: order, ranks, transitive_closure, edges: Ghost(graph.edges()) })
    }

    /// Builds the subgraph of the component of `node`: finds the component by an
    /// undirected depth-first walk, takes its nodes without incoming edges as
    /// sources, orders the component by a topological walk from them, and computes
    /// the closure. The graph is read, never changed.
    pub fn new(node: usize, graph: &DiGraph) -> (r: Result<Subgraph, SubgraphError>)
        requires
            graph.wf(),
        ensures
            ({
                let component = dfs_undirected_order(graph.nodes(), graph.edges(), node);
                let sources = sources_of(graph.edges(), graph.nodes(), component);
                let order = topo_order(graph.nodes(), graph.edges(), sources);
                match r {
                    Err(SubgraphError::UnknownRoot) => node >= graph.nodes(),
                    Err(SubgraphError::NoSource) => node < graph.nodes() && sources.len() == 0,
                    Err(SubgraphError::Cyclic) => {
                        &&& node < graph.nodes()
                        &&& sources.len() > 0
                        &&& !valid_order(graph.nodes(), graph.edges(), node, order)
                    },
                    Ok(s) => {
                        &&& node < graph.nodes()
                        &&& sources.len() > 0
                        &&& valid_order(graph.nodes(), graph.edges(), node, order)
                        &&& s.wf()
                        &&& s.ranked() == order
                        &&& s.source_edges() == graph.edges()
                    },
                }
            }),
    {
        if node >= graph.node_count() {
            return Err(SubgraphError::UnknownRoot);
        }
        let component = graph.dfs_undirected(node);
        let sources = collect_sources(graph, &component);
        if sources.len() == 0 {
            return Err(SubgraphError::NoSource);
        }
        let order = graph.topo(&sources);
        assert(crate::digraph::seeds_in_range(graph.nodes(), sources@));
        match Subgraph::from_order(graph, node, order) {
            Some(s) => Ok(s),
            None => Err(SubgraphError::Cyclic),
        }
    }

    /// The number of ranked nodes.
    pub fn len(&self) -> (n: usize)
        ensures
            n == self.ranked().len(),
    {
        self.nodes.len()
    }

    /// The nodes in the order of their ranks.
    pub fn nodes(&self) -> (r: &Vec<usize>)
        ensures
            r@ == self.ranked(),
    {
        &self.nodes
    }

    /// The rank of `node`, or `None` when the subgraph does not hold it.
    pub fn rank_of(&self, node: usize) -> (r: Option<u32>)
        requires
            self.wf(),
        ensures
            match r {
                Some(k) => k < self.ranked().len() && self.ranked()[k as int] == node,
                None => !self.ranked().contains(node),
            },
    {
        proof {
            lemma_ranks_no_duplicates(self.ranks@, self.nodes@);
            if node >= self.ranks@.len() && self.nodes@.contains(node) {
                let i = choose|i: int| 0 <= i < self.nodes@.len() && self.nodes@[i] == node;
                assert(self.nodes@[i] < self.ranks@.len());
            }
        }
        if node >= self.ranks.len() {
            None
        } else {
            self.ranks[node]
        }
    }

    /// Whether the node of rank `from` reaches the node of rank `to`; `false` for a
    /// rank that the subgraph does not have.
    pub fn in_transitive_closure(&self, from: u32, to: u32) -> (r: bool)
        requires
            self.wf(),
        ensures
            r == (from < self.ranked().len() && self.closures()[from as int].contains(to)),
            r == (from < self.ranked().len() && to < self.ranked().len() && reaches(
                self.source_edges(),
                self.ranked()[from as int],
                self.ranked()[to as int],
            )),
    {
        if from as usize >= self.transitive_closure.len() {
            false
        } else {
            let ghost _ = self.transitive_closure@[from as int];
            bitmap_contains(&self.transitive_closure[from as usize], to)
        }
    }

    /// The ranks that the node of rank `from` reaches, ascending; empty for a rank
    /// that the subgraph does not have.
    pub fn reachable_from(&self, from: u32) -> (r: Vec<u32>)
        requires
            self.wf(),
        ensures
            ascending(r@),
            r@.to_set() == if from < self.ranked().len() { self.closures()[from as int] } else { Set::empty() },
    {
        if from as usize >= self.transitive_closure.len() {
            let r: Vec<u32> = Vec::new();
            assert(r@.to_set() =~= Set::<u32>::empty());
            r
        } else {
            bitmap_to_vec(&self.transitive_closure[from as usize])
        }
    }

    /// The ranks that any of the ranks in `from` reaches. Ranks that the subgraph
    /// does not have add nothing.
    pub fn reachable_from_many(&self, from: &Vec<u32>) -> (reachable: RoaringBitmap)
        requires
            self.wf(),
        ensures
            bitmap_set(reachable) == union_of_closures(self.closures(), from@),
    {
        let mut reachable = bitmap_new();
        assert(bitmap_set(reachable) =~= union_of_closures(self.closures(), from@.take(0)));
        let mut i: usize = 0;
        while i < from.len()
            invariant
                self.wf(),
                i <= from@.len(),
                bitmap_set(reachable) == union_of_closures(self.closures(), from@.take(i as int)),
            decreases from@.len() - i,
        {
            let f = from[i];
            let ghost before = from@.take(i as int);
            let ghost after = from@.take(i + 1);
            let ghost old_set = bitmap_set(reachable);
            if (f as usize) < self.transitive_closure.len() {
                bitmap_union_with(&mut reachable, &self.transitive_closure[f as usize]);
            }
            proof {
                let goal = union_of_closures(self.closures(), after);
                assert forall|t: u32| bitmap_set(reachable).contains(t) == goal.contains(t) by {
                    if old_set.contains(t) {
                        let j = choose|j: int|
                            0 <= j < before.len() && before[j] < self.closures().len() && (#[trigger] self.closures()[before[j] as int]).contains(t);
                        assert(after[j] == before[j]);
                    }
                    if f < self.closures().len() && self.closures()[f as int].contains(t) {
                        assert(after[i as int] == f);
                    }
                    if goal.contains(t) {
                        let j = choose|j: int|
                            0 <= j < after.len() && after[j] < self.closures().len() && (#[trigger] self.closures()[after[j] as int]).contains(t);
                        if j < i {
                            assert(after[j] == before[j]);
                            assert(union_of_closures(self.closures(), before).contains(t));
                        }
                    }
                }
                assert(bitmap_set(reachable) =~= goal);
            }
            i += 1;
        }
        proof {
            assert(from@.take(from@.len() as int) =~= from@);
        }
        reachable
    }
}

/// The stored sets are exact: rank `to` is in the set of rank `from` exactly if a
/// directed walk leads from the node of rank `from` to the node of rank `to`.
pub proof fn lemma_closure_is_reachability(s: Subgraph, from: u32, to: u32)
    requires
        s.wf(),
        from < s.ranked().len(),
    ensures
        s.closures().len() == s.ranked().len(),
        s.closures()[from as int].contains(to) <==> to < s.ranked().len() && reaches(
            s.source_edges(),
            s.ranked()[from as int],
            s.ranked()[to as int],
        ),
{
    let _ = s.transitive_closure@[from as int];
}

/// Whatever a ranked node reaches has a rank, so the stored sets miss nothing that
/// a walk can reach.
pub proof fn lemma_reached_nodes_are_ranked(s: Subgraph, from: u32, v: usize)
    requires
        s.wf(),
        from < s.ranked().len(),
        reaches(s.source_edges(), s.ranked()[from as int], v),
    ensures
        s.ranked().contains(v),
{
    lemma_ranked_closed(s.edges@, s.nodes@);
    assert(s.nodes@.to_set().contains(s.nodes@[from as int]));
    lemma_closed_holds_reached(s.edges@, s.nodes@.to_set(), s.nodes@[from as int], v);
}

/// No node has two ranks.
pub proof fn lemma_each_node_ranked_once(s: Subgraph)
    requires
        s.wf(),
    ensures
        s.ranked().no_duplicates(),
        s.ranked().len() <= u32::MAX,
{
    lemma_ranks_no_duplicates(s.ranks@, s.nodes@);
}

/// Every node of the weakly connected component of a ranked node is ranked.
pub proof fn lemma_component_is_ranked(s: Subgraph, a: usize, v: usize)
    requires
        s.wf(),
        s.ranked().contains(a),
        connected(s.source_edges(), a, v),
    ensures
        s.ranked().contains(v),
{
    lemma_ranked_closed(s.edges@, s.nodes@);
    lemma_closed_holds_connected(s.edges@, s.nodes@.to_set(), a, v);
}

/// Every rank is in its own set.
pub proof fn lemma_closure_holds_self(s: Subgraph, i: u32)
    requires
        s.wf(),
        i < s.ranked().len(),
    ensures
        s.closures()[i as int].contains(i),
{
    lemma_reaches_self(s.edges@, s.nodes@[i as int]);
    lemma_closure_is_reachability(s, i, i);
}

/// The ranks are topological: every edge between ranked nodes leads from the lower
/// rank to the higher.
pub proof fn lemma_edges_climb_in_rank(s: Subgraph, i: int, j: int)
    requires
        s.wf(),
        0 <= i < s.ranked().len(),
        0 <= j < s.ranked().len(),
        has_edge(s.source_edges(), s.ranked()[i], s.ranked()[j]),
    ensures
        i < j,
{
    lemma_ranks_no_duplicates(s.ranks@, s.nodes@);
    lemma_edges_climb(s.edges@, s.nodes@, i, j);
}

/// What two ranks reach together is the union of what each reaches.
pub proof fn lemma_union_of_two(closures: Seq<Set<u32>>, a: u32, b: u32)
    requires
        a < closures.len(),
        b < closures.len(),
    ensures
        union_of_closures(closures, seq![a, b]) == closures[a as int].union(closures[b as int]),
{
    let from = seq![a, b];
    let both = union_of_closures(closures, from);
    let joint = closures[a as int].union(closures[b as int]);
    assert forall|t: u32| both.contains(t) == joint.contains(t) by {
        if closures[a as int].contains(t) {
            assert(from[0] == a);
        }
        if closures[b as int].contains(t) {
            assert(from[1] == b);
        }
    }
    assert(both =~= joint);
}

} // verus!
