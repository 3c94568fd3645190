//! The directed multigraph that stores the structure of an instantiation graph.
//!
//! The storage is `petgraph`'s adjacency-list `Graph`. Its node and edge weights are
//! unit values: everything that the engine knows of a node or an edge lives in vectors
//! indexed by the node's or edge's position, and the graph keeps the shape alone.
//! Nodes and edges are only ever added, so an index stays valid for the graph's life.

use petgraph::graph::Graph;
use petgraph::Directed;
use vstd::prelude::*;

verus! {

#[verifier::external_type_specification]
#[verifier::external_body]
#[verifier::reject_recursive_types(N)]
#[verifier::reject_recursive_types(E)]
#[verifier::reject_recursive_types(Ty)]
#[verifier::reject_recursive_types(Ix)]
pub struct ExGraph<N, E, Ty, Ix>(Graph<N, E, Ty, Ix>);

#[verifier::external_type_specification]
#[verifier::external_body]
pub struct ExDirected(Directed);

/// The side of a node that a walk or a query looks at.
#[derive(Clone, Copy, PartialEq, Eq, Structural, Debug, Hash)]
pub enum Direction {
    /// Along the edges that leave the node.
    Outgoing,
    /// Along the edges that enter the node.
    Incoming,
}

/// The number of nodes of a graph. Nodes are numbered from zero in the order in
/// which they were added. (This library only ever adds to a graph, so a number stays
/// with its node.)
pub uninterp spec fn graph_nodes(g: Graph<(), (), Directed, u32>) -> nat;

/// The edges of a graph as `(source, target)` pairs, in the order in which they
/// were added, which for a graph that was only ever added to is the order of their
/// numbers.
pub uninterp spec fn graph_edges(g: Graph<(), (), Directed, u32>) -> Seq<(usize, usize)>;

/// The order in which `petgraph`'s depth-first walk along the edges yields the nodes,
/// started at `root` in a graph of `nodes` nodes with the edge list `edges`.
pub uninterp spec fn dfs_order(nodes: nat, edges: Seq<(usize, usize)>, root: usize) -> Seq<usize>;

/// As `dfs_order`, for the walk against the edges.
pub uninterp spec fn dfs_reversed_order(nodes: nat, edges: Seq<(usize, usize)>, root: usize) -> Seq<usize>;

/// As `dfs_order`, for the walk that follows every edge in both directions.
pub uninterp spec fn dfs_undirected_order(nodes: nat, edges: Seq<(usize, usize)>, root: usize) -> Seq<usize>;

/// The order in which `petgraph`'s topological walk yields the nodes when it is
/// seeded with `initials`.
pub uninterp spec fn topo_order(nodes: nat, edges: Seq<(usize, usize)>, initials: Seq<usize>) -> Seq<usize>;

/// The neighbours of `a` along `dir` in the edge list `edges`: the far ends of the
/// edges that leave `a` (`Outgoing`) or enter it (`Incoming`), latest edge first.
pub open spec fn neighbors_of(edges: Seq<(usize, usize)>, a: usize, dir: Direction) -> Seq<usize>
    decreases edges.len(),
{
    if edges.len() == 0 {
        Seq::empty()
    } else {
        let e = edges.last();
        let rest = neighbors_of(edges.drop_last(), a, dir);
        match dir {
            Direction::Outgoing => if e.0 == a { seq![e.1] + rest } else { rest },
            Direction::Incoming => if e.1 == a { seq![e.0] + rest } else { rest },
        }
    }
}

/// Whether `edges` holds an edge from `a` to `b`.
pub open spec fn has_edge(edges: Seq<(usize, usize)>, a: usize, b: usize) -> bool {
    edges.contains((a, b))
}

/// Whether every end of every edge is one of the first `nodes` nodes.
pub open spec fn edges_in_range(nodes: nat, edges: Seq<(usize, usize)>) -> bool {
    forall|i: int| 0 <= i < edges.len() ==> (#[trigger] edges[i]).0 < nodes && edges[i].1 < nodes
}

/// Whether every seed is one of the first `nodes` nodes.
pub open spec fn seeds_in_range(nodes: nat, initials: Seq<usize>) -> bool {
    forall|i: int| 0 <= i < initials.len() ==> initials[i] < nodes
}

/// A node is a neighbour along `dir` exactly if an edge joins the two that way.
pub proof fn lemma_neighbors_of_contains(edges: Seq<(usize, usize)>, a: usize, dir: Direction, b: usize)
    ensures
        neighbors_of(edges, a, dir).contains(b) <==> match dir {
            Direction::Outgoing => has_edge(edges, a, b),
            Direction::Incoming => has_edge(edges, b, a),
        },
    decreases edges.len(),
{
    let wanted = match dir {
        Direction::Outgoing => (a, b),
        Direction::Incoming => (b, a),
    };
    if edges.len() == 0 {
        assert(!edges.contains(wanted));
    } else {
        let e = edges.last();
        let front = edges.drop_last();
        let rest = neighbors_of(front, a, dir);
        lemma_neighbors_of_contains(front, a, dir, b);
        let hit = match dir {
            Direction::Outgoing => e.0 == a,
            Direction::Incoming => e.1 == a,
        };
        let far = match dir {
            Direction::Outgoing => e.1,
            Direction::Incoming => e.0,
        };
        assert(edges =~= front.push(e));
        if edges.contains(wanted) {
            let i = choose|i: int| 0 <= i < edges.len() && edges[i] == wanted;
            if i < front.len() {
                assert(front[i] == wanted);
            }
        }
        if front.contains(wanted) {
            let i = choose|i: int| 0 <= i < front.len() && front[i] == wanted;
            assert(edges[i] == wanted);
        }
        if e == wanted {
            assert(edges[edges.len() - 1] == wanted);
        }
        if hit {
            let all = seq![far] + rest;
            assert(neighbors_of(edges, a, dir) == all);
            if all.contains(b) {
                let i = choose|i: int| 0 <= i < all.len() && all[i] == b;
                if i > 0 {
                    assert(rest[i - 1] == b);
                }
            }
            if rest.contains(b) {
                let i = choose|i: int| 0 <= i < rest.len() && rest[i] == b;
                assert(all[i + 1] == b);
            }
            if far == b {
                assert(all[0] == b);
            }
        }
    }
}

/// Every neighbour of a node is a node of the graph when the edges are in range.
pub proof fn lemma_neighbors_of_in_range(nodes: nat, edges: Seq<(usize, usize)>, a: usize, dir: Direction)
    requires
        edges_in_range(nodes, edges),
    ensures
        forall|i: int| 0 <= i < neighbors_of(edges, a, dir).len() ==> (#[trigger] neighbors_of(edges, a, dir)[i]) < nodes,
{
    let ns = neighbors_of(edges, a, dir);
    assert forall|i: int| 0 <= i < ns.len() implies (#[trigger] ns[i]) < nodes by {
        let b = ns[i];
        assert(ns.contains(b));
        lemma_neighbors_of_contains(edges, a, dir, b);
        match dir {
            Direction::Outgoing => {
                let k = choose|k: int| 0 <= k < edges.len() && edges[k] == (a, b);
                assert(edges[k].1 < nodes);
            },
            Direction::Incoming => {
                let k = choose|k: int| 0 <= k < edges.len() && edges[k] == (b, a);
                assert(edges[k].0 < nodes);
            },
        }
    }
}

/// `Graph::new`: a graph without nodes or edges.
#[verifier::external_body]
fn graph_new() -> (g: Graph<(), (), Directed, u32>)
    ensures
        graph_nodes(g) == 0,
        graph_edges(g) == Seq::<(usize, usize)>::empty(),
{
    Graph::new()
}

/// `Graph::node_count`.
#[verifier::external_body]
fn graph_node_count(g: &Graph<(), (), Directed, u32>) -> (n: usize)
    ensures
        n == graph_nodes(*g),
{
    g.node_count()
}

/// `Graph::edge_count`.
#[verifier::external_body]
fn graph_edge_count(g: &Graph<(), (), Directed, u32>) -> (n: usize)
    ensures
        n == graph_edges(*g).len(),
{
    g.edge_count()
}

/// `Graph::add_node`: the new node gets the next number and no edge changes. The
/// call panics on a graph that already holds as many nodes as its 32-bit index
/// can number, which the precondition leaves out.
#[verifier::external_body]
fn graph_add_node(g: &mut Graph<(), (), Directed, u32>) -> (idx: usize)
    requires
        graph_nodes(*old(g)) < u32::MAX,
    ensures
        idx == graph_nodes(*old(g)),
        graph_nodes(*final(g)) == graph_nodes(*old(g)) + 1,
        graph_edges(*final(g)) == graph_edges(*old(g)),
{
    g.add_node(()).index()
}

/// `Graph::add_edge`: the edge is appended and no node changes. The call panics
/// when an end is no node of the graph or the edge index is used up, which the
/// precondition leaves out.
#[verifier::external_body]
fn graph_add_edge(g: &mut Graph<(), (), Directed, u32>, a: usize, b: usize) -> (idx: usize)
    requires
        a < graph_nodes(*old(g)),
        b < graph_nodes(*old(g)),
        graph_edges(*old(g)).len() < u32::MAX,
    ensures
        idx == graph_edges(*old(g)).len(),
        graph_nodes(*final(g)) == graph_nodes(*old(g)),
        graph_edges(*final(g)) == graph_edges(*old(g)).push((a, b)),
{
    g.add_edge(petgraph::graph::NodeIndex::new(a), petgraph::graph::NodeIndex::new(b), ()).index()
}

/// `Graph::neighbors_directed`, collected. Its documentation promises for a directed
/// graph the neighbours "in reverse order of their addition to the graph".
#[verifier::external_body]
fn graph_neighbors(g: &Graph<(), (), Directed, u32>, a: usize, dir: Direction) -> (r: Vec<usize>)
    requires
        a < graph_nodes(*g),
    ensures
        r@ == neighbors_of(graph_edges(*g), a, dir),
{
    let dir = match dir {
        Direction::Outgoing => petgraph::Direction::Outgoing,
        Direction::Incoming => petgraph::Direction::Incoming,
    };
    g.neighbors_directed(petgraph::graph::NodeIndex::new(a), dir).map(|n| n.index()).collect()
}

/// `Graph::edge_endpoints` of an edge that the graph has: its source and target.
#[verifier::external_body]
fn graph_edge_endpoints(g: &Graph<(), (), Directed, u32>, e: usize) -> (r: (usize, usize))
    requires
        e < graph_edges(*g).len(),
    ensures
        r == graph_edges(*g)[e as int],
{
    let ends = g.edge_endpoints(petgraph::graph::EdgeIndex::new(e));
    let (a, b) = ends.unwrap();
    (a.index(), b.index())
}

/// `Dfs::new` and `Dfs::next` until the walk ends. The walk reads the graph and the
/// start node alone, so its order is a function of them. A start node outside the
/// graph makes the walk panic, which the precondition leaves out.
#[verifier::external_body]
fn graph_dfs(g: &Graph<(), (), Directed, u32>, root: usize) -> (r: Vec<usize>)
    requires
        root < graph_nodes(*g),
    ensures
        r@ == dfs_order(graph_nodes(*g), graph_edges(*g), root),
{
    let mut dfs = petgraph::visit::Dfs::new(g, petgraph::graph::NodeIndex::new(root));
    let mut out = Vec::new();
    while let Some(n) = dfs.next(g) {
        out.push(n.index());
    }
    out
}

/// `Dfs` over `Reversed`: the depth-first walk against the edges.
#[verifier::external_body]
fn graph_dfs_reversed(g: &Graph<(), (), Directed, u32>, root: usize) -> (r: Vec<usize>)
    requires
        root < graph_nodes(*g),
    ensures
        r@ == dfs_reversed_order(graph_nodes(*g), graph_edges(*g), root),
{
    let rev = petgraph::visit::Reversed(g);
    let mut dfs = petgraph::visit::Dfs::new(rev, petgraph::graph::NodeIndex::new(root));
    let mut out = Vec::new();
    while let Some(n) = dfs.next(rev) {
        out.push(n.index());
    }
    out
}

/// `Dfs` over a copy of the graph that `Graph::into_edge_type` reads as undirected:
/// the walk follows every edge both ways. The graph itself is left as it is.
#[verifier::external_body]
fn graph_dfs_undirected(g: &Graph<(), (), Directed, u32>, root: usize) -> (r: Vec<usize>)
    requires
        root < graph_nodes(*g),
    ensures
        r@ == dfs_undirected_order(graph_nodes(*g), graph_edges(*g), root),
{
    let un = g.clone().into_edge_type::<petgraph::Undirected>();
    let mut dfs = petgraph::visit::Dfs::new(&un, petgraph::graph::NodeIndex::new(root));
    let mut out = Vec::new();
    while let Some(n) = dfs.next(&un) {
        out.push(n.index());
    }
    out
}

/// `Topo::with_initials` and `Topo::next` until the walk ends. The walk reads the
/// graph and the seeds alone. A seed outside the graph makes the walk panic, which
/// the precondition leaves out.
#[verifier::external_body]
fn graph_topo(g: &Graph<(), (), Directed, u32>, initials: &Vec<usize>) -> (r: Vec<usize>)
    requires
        forall|i: int| 0 <= i < initials@.len() ==> initials@[i] < graph_nodes(*g),
    ensures
        r@ == topo_order(graph_nodes(*g), graph_edges(*g), initials@),
{
    let seeds = initials.iter().map(|&i| petgraph::graph::NodeIndex::new(i));
    let mut topo = petgraph::visit::Topo::with_initials(g, seeds);
    let mut out = Vec::new();
    while let Some(n) = topo.next(g) {
        out.push(n.index());
    }
    out
}

/// A directed multigraph over nodes `0 .. node_count()`.
pub struct DiGraph {
    inner: Graph<(), (), Directed, u32>,
}

impl DiGraph {
    /// The number of nodes.
    pub closed spec fn nodes(&self) -> nat {
        graph_nodes(self.inner)
    }

    /// The edges as `(source, target)` pairs in the order of their addition.
    pub closed spec fn edges(&self) -> Seq<(usize, usize)> {
        graph_edges(self.inner)
    }

    /// Every edge joins two nodes of the graph, and both counts fit the 32-bit
    /// indices of the storage.
    pub open spec fn wf(&self) -> bool {
        &&& self.nodes() <= u32::MAX
        &&& self.edges().len() <= u32::MAX
        &&& edges_in_range(self.nodes(), self.edges())
    }

    /// The graph without nodes.
    pub fn new() -> (g: Self)
        ensures
            g.wf(),
            g.nodes() == 0,
            g.edges() == Seq::<(usize, usize)>::empty(),
    {
        DiGraph { inner: graph_new() }
    }

    pub fn node_count(&self) -> (n: usize)
        ensures
            n == self.nodes(),
    {
        graph_node_count(&self.inner)
    }

    pub fn edge_count(&self) -> (n: usize)
        ensures
            n == self.edges().len(),
    {
        graph_edge_count(&self.inner)
    }

    /// Adds a node and returns its number, or `None` when the graph is full.
    pub fn add_node(&mut self) -> (r: Option<usize>)
        requires
            old(self).wf(),
        ensures
            final(self).wf(),
            final(self).edges() == old(self).edges(),
            match r {
                Some(idx) => idx == old(self).nodes() && final(self).nodes() == old(self).nodes() + 1,
                None => old(self).nodes() == u32::MAX && final(self).nodes() == old(self).nodes(),
            },
    {
        if graph_node_count(&self.inner) >= u32::MAX as usize {
            None
        } else {
            Some(graph_add_node(&mut self.inner))
        }
    }

    /// Adds an edge from `a` to `b` and returns its number, or `None` when an end
    /// is no node of the graph or the graph is full.
    pub fn add_edge(&mut self, a: usize, b: usize) -> (r: Option<usize>)
        requires
            old(self).wf(),
        ensures
            final(self).wf(),
            final(self).nodes() == old(self).nodes(),
            match r {
                Some(idx) => {
                    &&& a < old(self).nodes()
                    &&& b < old(self).nodes()
                    &&& idx == old(self).edges().len()
                    &&& final(self).edges() == old(self).edges().push((a, b))
                },
                None => {
                    &&& a >= old(self).nodes() || b >= old(self).nodes() || old(self).edges().len() == u32::MAX
                    &&& final(self).edges() == old(self).edges()
                },
            },
    {
        let n = graph_node_count(&self.inner);
        if a >= n || b >= n || graph_edge_count(&self.inner) >= u32::MAX as usize {
            None
        } else {
            Some(graph_add_edge(&mut self.inner, a, b))
        }
    }

    /// The source and the target of edge `e`, or `None` for a number that is no edge
    /// of the graph.
    pub fn edge_endpoints(&self, e: usize) -> (r: Option<(usize, usize)>)
        ensures
            r == if e < self.edges().len() { Some(self.edges()[e as int]) } else { None },
    {
        if e >= graph_edge_count(&self.inner) {
            None
        } else {
            Some(graph_edge_endpoints(&self.inner, e))
        }
    }

    /// The neighbours of `a` along `dir`, latest edge first; none for a number
    /// that is no node of the graph.
    pub fn neighbors_directed(&self, a: usize, dir: Direction) -> (r: Vec<usize>)
        requires
            self.wf(),
        ensures
            r@ == if a < self.nodes() { neighbors_of(self.edges(), a, dir) } else { Seq::empty() },
            forall|i: int| 0 <= i < r@.len() ==> (#[trigger] r@[i]) < self.nodes(),
    {
        if a >= graph_node_count(&self.inner) {
            Vec::new()
        } else {
            proof {
                lemma_neighbors_of_in_range(self.nodes(), self.edges(), a, dir);
            }
            graph_neighbors(&self.inner, a, dir)
        }
    }

    /// The nodes that a depth-first walk along the edges from `root` visits, in the
    /// order of the visits; none for a `root` that is no node of the graph.
    pub fn dfs(&self, root: usize) -> (r: Vec<usize>)
        ensures
            r@ == if root < self.nodes() { dfs_order(self.nodes(), self.edges(), root) } else { Seq::empty() },
    {
        if root >= graph_node_count(&self.inner) {
            Vec::new()
        } else {
            graph_dfs(&self.inner, root)
        }
    }

    /// As `dfs`, against the edges.
    pub fn dfs_reversed(&self, root: usize) -> (r: Vec<usize>)
        ensures
            r@ == if root < self.nodes() { dfs_reversed_order(self.nodes(), self.edges(), root) } else { Seq::empty() },
    {
        if root >= graph_node_count(&self.inner) {
            Vec::new()
        } else {
            graph_dfs_reversed(&self.inner, root)
        }
    }

    /// As `dfs`, following every edge both ways.
    pub fn dfs_undirected(&self, root: usize) -> (r: Vec<usize>)
        ensures
            r@ == if root < self.nodes() { dfs_undirected_order(self.nodes(), self.edges(), root) } else { Seq::empty() },
    {
        if root >= graph_node_count(&self.inner) {
            Vec::new()
        } else {
            graph_dfs_undirected(&self.inner, root)
        }
    }

    /// The order of a topological walk seeded with `initials`; empty where a seed is
    /// no node of the graph.
    pub fn topo(&self, initials: &Vec<usize>) -> (r: Vec<usize>)
        ensures
            r@ == if seeds_in_range(self.nodes(), initials@) {
                topo_order(self.nodes(), self.edges(), initials@)
            } else {
                Seq::empty()
            },
    {
        let n = graph_node_count(&self.inner);
        let mut i: usize = 0;
        while i < initials.len()
            invariant
                i <= initials@.len(),
                n == self.nodes(),
                forall|k: int| 0 <= k < i ==> initials@[k] < n,
            decreases initials@.len() - i,
        {
            if initials[i] >= n {
                return Vec::new();
            }
            i += 1;
        }
        graph_topo(&self.inner, initials)
    }
}

} // verus!
