//! The graph model: the nodes and edges of one analysis session, each node with the
//! facts that the trace gave it and with two independent visibility flags.
//!
//! Nodes and edges are added once and keep their numbers. Filters write the first
//! flag (`hidden`), the disabler pass writes the second (`disabled`); a node is
//! visible while neither is set, and that is computed on every read.

use crate::digraph::{edges_in_range, has_edge, lemma_neighbors_of_contains, neighbors_of, DiGraph, Direction};
use crate::items::{ENodeIdx, EqGivenIdx, EqTransIdx, InstIdx};
use vstd::prelude::*;

verus! {

/// The units in which a node's cost is kept: a real-valued cost is stored as the
/// nearest whole number of thousandths.
pub const COST_UNIT: u64 = 1000;

/// The handle of a node: its number in the graph that handed it out.
#[derive(Clone, Copy, PartialEq, Eq, Structural, Debug, Hash)]
pub struct NodeIndex(pub usize);

/// The handle of an edge: its number in the graph that handed it out.
#[derive(Clone, Copy, PartialEq, Eq, Structural, Debug, Hash)]
pub struct EdgeIndex(pub usize);

impl NodeIndex {
    pub fn new(x: usize) -> (r: Self)
        ensures
            r == NodeIndex(x),
    {
        NodeIndex(x)
    }

    pub fn index(self) -> (r: usize)
        ensures
            r == self.0,
    {
        self.0
    }
}

impl EdgeIndex {
    pub fn new(x: usize) -> (r: Self)
        ensures
            r == EdgeIndex(x),
    {
        EdgeIndex(x)
    }

    pub fn index(self) -> (r: usize)
        ensures
            r == self.0,
    {
        self.0
    }
}

/// The shortest and the longest distance of a node to an end of the graph.
#[derive(Clone, Copy, PartialEq, Eq, Structural, Debug)]
pub struct Depth {
    pub min: u32,
    pub max: u32,
}

impl Depth {
    /// The shortest distance is not above the longest.
    pub open spec fn wf(self) -> bool {
        self.min <= self.max
    }

    /// The two distances as a depth, or `None` where the shortest is above the
    /// longest.
    pub fn new(min: u32, max: u32) -> (r: Option<Depth>)
        ensures
            r == if min <= max { Some(Depth { min, max }) } else { None::<Depth> },
    {
        if min <= max {
            Some(Depth { min, max })
        } else {
            None
        }
    }
}

/// What a node stands for.
#[derive(Clone, Copy, PartialEq, Eq, Structural, Debug)]
pub enum NodeKind {
    /// A term of the congruence closure.
    ENode(ENodeIdx),
    /// An equality that was asserted.
    GivenEquality(EqGivenIdx),
    /// An equality that follows by transitivity.
    TransEquality(EqTransIdx),
    /// One instantiation of a quantifier.
    Instantiation(InstIdx),
}

/// How an edge's source caused its target.
#[derive(Clone, Copy, PartialEq, Eq, Structural, Debug)]
pub enum EdgeKind {
    /// An instantiation produced a term.
    Yield,
    /// A term matched the trigger with the given number.
    Blame { trigger_term: u16 },
    /// An equality was needed for a match.
    BlameEq,
    /// An equality was asserted by an instantiation.
    EqualityFact,
    /// An equality follows from the congruence of subterms.
    EqualityCongruence,
    /// A transitive equality of one step.
    TEqualitySimple,
    /// A step of a transitive equality.
    TEqualityTransitive,
    /// A step of a transitive equality, used backwards.
    TEqualityTransitiveBwd,
}

impl NodeKind {
    pub fn enode(&self) -> (r: Option<ENodeIdx>)
        ensures
            r == match *self {
                NodeKind::ENode(e) => Some(e),
                _ => None,
            },
    {
        match self {
            NodeKind::ENode(e) => Some(*e),
            _ => None,
        }
    }

    pub fn eq_given(&self) -> (r: Option<EqGivenIdx>)
        ensures
            r == match *self {
                NodeKind::GivenEquality(e) => Some(e),
                _ => None,
            },
    {
        match self {
            NodeKind::GivenEquality(e) => Some(*e),
            _ => None,
        }
    }

    pub fn eq_trans(&self) -> (r: Option<EqTransIdx>)
        ensures
            r == match *self {
                NodeKind::TransEquality(e) => Some(e),
                _ => None,
            },
    {
        match self {
            NodeKind::TransEquality(e) => Some(*e),
            _ => None,
        }
    }

    pub fn inst(&self) -> (r: Option<InstIdx>)
        ensures
            r == match *self {
                NodeKind::Instantiation(i) => Some(i),
                _ => None,
            },
    {
        match self {
            NodeKind::Instantiation(i) => Some(*i),
            _ => None,
        }
    }
}

/// A node: what the trace says of it, and the two visibility flags.
#[derive(Clone, Copy, Debug)]
pub struct Node {
    pub kind: NodeKind,
    /// The weight of the node, in `COST_UNIT`s.
    pub cost: u64,
    /// The distances to a root, along incoming edges.
    pub fwd_depth: Depth,
    /// The distances to a leaf, along outgoing edges.
    pub bwd_depth: Depth,
    pub generation: Option<u32>,
    /// Set by filters.
    pub hidden: bool,
    /// Set by the disabler pass.
    pub disabled: bool,
}

impl Node {
    /// The node with its filter flag set to `hidden`.
    pub open spec fn with_hidden(self, hidden: bool) -> Node {
        Node { hidden, ..self }
    }

    /// The node with its disabler flag set to `disabled`.
    pub open spec fn with_disabled(self, disabled: bool) -> Node {
        Node { disabled, ..self }
    }

    /// Both depths are well-formed.
    pub open spec fn wf(self) -> bool {
        self.fwd_depth.wf() && self.bwd_depth.wf()
    }

    /// Whether neither flag hides the node.
    pub open spec fn spec_visible(self) -> bool {
        !self.hidden && !self.disabled
    }

    pub fn kind(&self) -> (r: &NodeKind)
        ensures
            *r == self.kind,
    {
        &self.kind
    }

    pub fn hidden(&self) -> (r: bool)
        ensures
            r == self.hidden,
    {
        self.hidden
    }

    pub fn disabled(&self) -> (r: bool)
        ensures
            r == self.disabled,
    {
        self.disabled
    }

    pub fn visible(&self) -> (r: bool)
        ensures
            r == self.spec_visible(),
    {
        !self.hidden && !self.disabled
    }
}

/// The nodes after a total re-evaluation of the filter flag: where `p` holds of a
/// node the flag becomes `hide`, everywhere else it becomes the opposite.
pub open spec fn visibility_when(nodes: Seq<Node>, hide: bool, p: spec_fn(NodeIndex, Node) -> bool) -> Seq<Node> {
    Seq::new(nodes.len(), |i: int| nodes[i].with_hidden(p(NodeIndex(i as usize), nodes[i]) == hide))
}

/// The nodes after the filter flag of the `chosen` ones was set to `hide`.
pub open spec fn visibility_many(nodes: Seq<Node>, hide: bool, chosen: Seq<NodeIndex>) -> Seq<Node> {
    Seq::new(
        nodes.len(),
        |i: int| if chosen.contains(NodeIndex(i as usize)) { nodes[i].with_hidden(hide) } else { nodes[i] },
    )
}

/// The nodes after the disabler flag of each was written from `flags`; a node
/// beyond the end of `flags` keeps its flag.
pub open spec fn disabled_as(nodes: Seq<Node>, flags: Seq<bool>) -> Seq<Node> {
    Seq::new(nodes.len(), |i: int| if i < flags.len() { nodes[i].with_disabled(flags[i]) } else { nodes[i] })
}

/// Whether every answer that `f` can give on a node is the value of `p` there.
pub open spec fn describes<F: Fn(NodeIndex, &Node) -> bool>(f: F, p: spec_fn(NodeIndex, Node) -> bool) -> bool {
    forall|i: NodeIndex, n: Node, b: bool| #![trigger call_ensures(f, (i, &n), b)] call_ensures(f, (i, &n), b) ==> b == p(i, n)
}

/// Whether `f` may be called on every node.
pub open spec fn total<F: Fn(NodeIndex, &Node) -> bool>(f: F) -> bool {
    forall|i: NodeIndex, n: Node| #![trigger call_requires(f, (i, &n))] call_requires(f, (i, &n))
}

/// Whether `p` does not read the filter flag.
pub open spec fn ignores_hidden(p: spec_fn(NodeIndex, Node) -> bool) -> bool {
    forall|i: NodeIndex, n: Node, h: bool| #[trigger] p(i, n.with_hidden(h)) == p(i, n)
}

/// The handles of the nodes with the numbers in `s`.
pub open spec fn handles(s: Seq<usize>) -> Seq<NodeIndex> {
    Seq::new(s.len(), |i: int| NodeIndex(s[i]))
}

/// A total re-evaluation keeps no history: after two of them with one predicate the
/// flags are those of the second alone, whatever the first one wrote. This needs a
/// predicate that does not itself read the flag.
pub proof fn lemma_visibility_when_last_wins(nodes: Seq<Node>, first: bool, second: bool, p: spec_fn(NodeIndex, Node) -> bool)
    requires
        ignores_hidden(p),
    ensures
        visibility_when(visibility_when(nodes, first, p), second, p) == visibility_when(nodes, second, p),
{
    let once = visibility_when(nodes, first, p);
    let twice = visibility_when(once, second, p);
    let only = visibility_when(nodes, second, p);
    assert forall|i: int| 0 <= i < nodes.len() implies twice[i] == only[i] by {
        let idx = NodeIndex(i as usize);
        assert(p(idx, nodes[i].with_hidden(p(idx, nodes[i]) == first)) == p(idx, nodes[i]));
    }
    assert(twice =~= only);
}

/// The handles of the nodes with the numbers in `v`.
pub fn node_indices(v: &Vec<usize>) -> (r: Vec<NodeIndex>)
    ensures
        r@ == handles(v@),
{
    let mut r: Vec<NodeIndex> = Vec::new();
    let mut i: usize = 0;
    while i < v.len()
        invariant
            i <= v@.len(),
            r@.len() == i,
            forall|k: int| 0 <= k < i ==> r@[k] == NodeIndex(v@[k]),
        decreases v@.len() - i,
    {
        r.push(NodeIndex(v[i]));
        i += 1;
    }
    assert(r@ =~= handles(v@));
    r
}

/// The depth that a walk along `dir` goes by: towards the roots the longest distance
/// to a root, towards the leaves the longest distance to a leaf.
pub open spec fn depth_key(n: Node, dir: Direction) -> u32 {
    match dir {
        Direction::Incoming => n.fwd_depth.max,
        Direction::Outgoing => n.bwd_depth.max,
    }
}

/// Whether a walk along `dir` prefers `v` to `b`: the greater depth, and on equal
/// depths the lower number.
pub open spec fn deeper(nodes: Seq<Node>, v: usize, b: usize, dir: Direction) -> bool {
    let kv = depth_key(nodes[v as int], dir);
    let kb = depth_key(nodes[b as int], dir);
    kv > kb || (kv == kb && v < b)
}

/// The node of `ns` that a walk along `dir` steps to: among those whose depth is
/// below `bound`, the one that `deeper` prefers to all others.
pub open spec fn pick_next(nodes: Seq<Node>, ns: Seq<usize>, dir: Direction, bound: u32) -> Option<usize>
    decreases ns.len(),
{
    if ns.len() == 0 {
        None
    } else {
        let rest = pick_next(nodes, ns.drop_last(), dir, bound);
        let v = ns.last();
        if v < nodes.len() && depth_key(nodes[v as int], dir) < bound {
            match rest {
                Some(b) => if deeper(nodes, v, b, dir) { Some(v) } else { Some(b) },
                None => Some(v),
            }
        } else {
            rest
        }
    }
}

/// The nodes that a walk along `dir` passes after `cur`: at each node it steps to the
/// deepest neighbour whose depth is below the node's own, and it ends where there is
/// none.
pub open spec fn trail(nodes: Seq<Node>, edges: Seq<(usize, usize)>, cur: usize, dir: Direction) -> Seq<usize>
    decreases (if cur < nodes.len() { depth_key(nodes[cur as int], dir) + 1 } else { 0 }),
{
    if cur >= nodes.len() {
        Seq::empty()
    } else {
        match pick_next(nodes, neighbors_of(edges, cur, dir), dir, depth_key(nodes[cur as int], dir)) {
            Some(next) => if next < nodes.len() && depth_key(nodes[next as int], dir) < depth_key(nodes[cur as int], dir) {
                seq![next] + trail(nodes, edges, next, dir)
            } else {
                Seq::empty()
            },
            None => Seq::empty(),
        }
    }
}

/// The longest path through `node` as the depths tell it: the walk towards the
/// roots, turned round, then `node`, then the walk towards the leaves. Empty for a
/// number that is no node.
pub open spec fn longest_path(nodes: Seq<Node>, edges: Seq<(usize, usize)>, node: usize) -> Seq<usize> {
    if node >= nodes.len() {
        Seq::empty()
    } else {
        trail(nodes, edges, node, Direction::Incoming).reverse() + seq![node] + trail(nodes, edges, node, Direction::Outgoing)
    }
}

/// What a walk picks is a neighbour below the bound that it prefers to every other
/// such neighbour; it picks none only where there is none.
pub proof fn lemma_pick_next(nodes: Seq<Node>, ns: Seq<usize>, dir: Direction, bound: u32)
    ensures
        match pick_next(nodes, ns, dir, bound) {
            Some(v) => {
                &&& ns.contains(v)
                &&& v < nodes.len()
                &&& depth_key(nodes[v as int], dir) < bound
                &&& forall|w: usize|
                    #![trigger ns.contains(w)]
                    ns.contains(w) && w < nodes.len() && depth_key(nodes[w as int], dir) < bound ==> w == v || deeper(nodes, v, w, dir)
            },
            None => forall|w: usize| #![trigger ns.contains(w)] ns.contains(w) ==> !(w < nodes.len() && depth_key(nodes[w as int], dir) < bound),
        },
    decreases ns.len(),
{
    if ns.len() > 0 {
        let front = ns.drop_last();
        let last = ns.last();
        lemma_pick_next(nodes, front, dir, bound);
        assert(ns =~= front.push(last));
        assert forall|w: usize| ns.contains(w) implies front.contains(w) || w == last by {
            let i = choose|i: int| 0 <= i < ns.len() && ns[i] == w;
            if i < front.len() {
                assert(front[i] == w);
            }
        }
        assert forall|w: usize| front.contains(w) implies ns.contains(w) by {
            let i = choose|i: int| 0 <= i < front.len() && front[i] == w;
            assert(ns[i] == w);
        }
        assert(ns[ns.len() - 1] == last);
        assert(ns.contains(last));
    }
}

/// Every step of a walk follows an edge, and leads to a node of lesser depth.
pub proof fn lemma_trail_follows_edges(nodes: Seq<Node>, edges: Seq<(usize, usize)>, cur: usize, dir: Direction, k: int)
    requires
        0 <= k < trail(nodes, edges, cur, dir).len(),
    ensures
        ({
            let t = trail(nodes, edges, cur, dir);
            let prev = if k == 0 { cur } else { t[k - 1] };
            &&& prev < nodes.len()
            &&& t[k] < nodes.len()
            &&& depth_key(nodes[t[k] as int], dir) < depth_key(nodes[prev as int], dir)
            &&& match dir {
                Direction::Outgoing => has_edge(edges, prev, t[k]),
                Direction::Incoming => has_edge(edges, t[k], prev),
            }
        }),
    decreases k,
{
    let ns = neighbors_of(edges, cur, dir);
    let bound = depth_key(nodes[cur as int], dir);
    lemma_pick_next(nodes, ns, dir, bound);
    let next = pick_next(nodes, ns, dir, bound)->0;
    let rest = trail(nodes, edges, next, dir);
    assert(trail(nodes, edges, cur, dir) == seq![next] + rest);
    if k == 0 {
        lemma_neighbors_of_contains(edges, cur, dir, next);
    } else {
        lemma_trail_follows_edges(nodes, edges, next, dir, k - 1);
    }
}

fn depth_of(node: &Node, dir: Direction) -> (k: u32)
    ensures
        k == depth_key(*node, dir),
{
    match dir {
        Direction::Incoming => node.fwd_depth.max,
        Direction::Outgoing => node.bwd_depth.max,
    }
}

/// The nodes and edges of one session.
pub struct RawInstGraph {
    graph: DiGraph,
    nodes: Vec<Node>,
    edge_kinds: Vec<EdgeKind>,
}

impl RawInstGraph {
    /// The nodes by their numbers.
    pub closed spec fn nodes(&self) -> Seq<Node> {
        self.nodes@
    }

    /// The edges as `(source, target)` pairs by their numbers.
    pub closed spec fn edges(&self) -> Seq<(usize, usize)> {
        self.graph.edges()
    }

    /// The kinds of the edges by their numbers.
    pub closed spec fn kinds(&self) -> Seq<EdgeKind> {
        self.edge_kinds@
    }

    /// The three tables agree with each other, every edge joins two nodes, and
    /// the depths of every node are well-formed.
    pub closed spec fn wf(&self) -> bool {
        &&& self.graph.wf()
        &&& self.graph.nodes() == self.nodes@.len()
        &&& self.graph.edges().len() == self.edge_kinds@.len()
        &&& forall|i: int| 0 <= i < self.nodes@.len() ==> (#[trigger] self.nodes@[i]).wf()
    }

    /// What a well-formed graph promises of its tables.
    pub proof fn lemma_wf(&self)
        requires
            self.wf(),
        ensures
            self.kinds().len() == self.edges().len(),
            edges_in_range(self.nodes().len(), self.edges()),
            self.nodes().len() <= u32::MAX,
            self.edges().len() <= u32::MAX,
            forall|i: int| 0 <= i < self.nodes().len() ==> (#[trigger] self.nodes()[i]).wf(),
    {
    }

    /// The graph without nodes.
    pub fn new() -> (g: Self)
        ensures
            g.wf(),
            g.nodes().len() == 0,
            g.edges().len() == 0,
    {
        RawInstGraph { graph: DiGraph::new(), nodes: Vec::new(), edge_kinds: Vec::new() }
    }

    /// Adds a visible node with the given facts and returns its handle, or `None`
    /// when a depth is not well-formed or the graph is full.
    pub fn add_node(&mut self, kind: NodeKind, cost: u64, fwd_depth: Depth, bwd_depth: Depth, generation: Option<u32>) -> (r: Option<NodeIndex>)
        requires
            old(self).wf(),
        ensures
            final(self).wf(),
            final(self).edges() == old(self).edges(),
            final(self).kinds() == old(self).kinds(),
            r is Some <==> fwd_depth.wf() && bwd_depth.wf() && old(self).nodes().len() < u32::MAX,
            match r {
                Some(idx) => {
                    &&& idx.0 == old(self).nodes().len()
                    &&& final(self).nodes() == old(self).nodes().push(
                        (Node { kind, cost, fwd_depth, bwd_depth, generation, hidden: false, disabled: false }),
                    )
                },
                None => final(self).nodes() == old(self).nodes(),
            },
    {
        if fwd_depth.min > fwd_depth.max || bwd_depth.min > bwd_depth.max {
            return None;
        }
        match self.graph.add_node() {
            Some(idx) => {
                self.nodes.push(Node { kind, cost, fwd_depth, bwd_depth, generation, hidden: false, disabled: false });
                Some(NodeIndex(idx))
            },
            None => None,
        }
    }

    /// Adds an edge and returns its handle, or `None` when an end is no node of this
    /// graph or the graph is full.
    pub fn add_edge(&mut self, from: NodeIndex, to: NodeIndex, kind: EdgeKind) -> (r: Option<EdgeIndex>)
        requires
            old(self).wf(),
        ensures
            final(self).wf(),
            final(self).nodes() == old(self).nodes(),
            match r {
                Some(idx) => {
                    &&& from.0 < old(self).nodes().len()
                    &&& to.0 < old(self).nodes().len()
                    &&& idx.0 == old(self).edges().len()
                    &&& final(self).edges() == old(self).edges().push((from.0, to.0))
                    &&& final(self).kinds() == old(self).kinds().push(kind)
                },
                None => {
                    &&& from.0 >= old(self).nodes().len() || to.0 >= old(self).nodes().len() || old(self).edges().len() == u32::MAX
                    &&& final(self).edges() == old(self).edges()
                    &&& final(self).kinds() == old(self).kinds()
                },
            },
    {
        match self.graph.add_edge(from.0, to.0) {
            Some(idx) => {
                self.edge_kinds.push(kind);
                Some(EdgeIndex(idx))
            },
            None => None,
        }
    }

    pub fn node_count(&self) -> (n: usize)
        ensures
            n == self.nodes().len(),
    {
        self.nodes.len()
    }

    pub fn edge_count(&self) -> (n: usize)
        requires
            self.wf(),
        ensures
            n == self.edges().len(),
    {
        self.edge_kinds.len()
    }

    /// The structure of the graph, for walks over it.
    pub fn structure(&self) -> (g: &DiGraph)
        requires
            self.wf(),
        ensures
            g.wf(),
            g.nodes() == self.nodes().len(),
            g.edges() == self.edges(),
    {
        &self.graph
    }

    /// The node behind a handle, or `None` for a handle of another graph that is
    /// out of this graph's bounds.
    pub fn node(&self, idx: NodeIndex) -> (r: Option<&Node>)
        ensures
            r == if idx.0 < self.nodes().len() { Some(&self.nodes()[idx.0 as int]) } else { None },
    {
        if idx.0 < self.nodes.len() {
            Some(&self.nodes[idx.0])
        } else {
            None
        }
    }

    /// The kind of an edge, or `None` for a handle out of bounds.
    pub fn edge_kind(&self, idx: EdgeIndex) -> (r: Option<EdgeKind>)
        ensures
            r == if idx.0 < self.kinds().len() { Some(self.kinds()[idx.0 as int]) } else { None },
    {
        if idx.0 < self.edge_kinds.len() {
            Some(self.edge_kinds[idx.0])
        } else {
            None
        }
    }

    /// The ends of an edge, or `None` for a handle out of bounds.
    pub fn edge_endpoints(&self, idx: EdgeIndex) -> (r: Option<(NodeIndex, NodeIndex)>)
        ensures
            r == if idx.0 < self.edges().len() {
                Some((NodeIndex(self.edges()[idx.0 as int].0), NodeIndex(self.edges()[idx.0 as int].1)))
            } else {
                None
            },
    {
        match self.graph.edge_endpoints(idx.0) {
            Some((a, b)) => Some((NodeIndex(a), NodeIndex(b))),
            None => None,
        }
    }

    /// The direct neighbours of a node along `dir`, latest edge first; none for a
    /// handle out of bounds.
    pub fn neighbors_directed(&self, idx: NodeIndex, dir: Direction) -> (r: Vec<NodeIndex>)
        requires
            self.wf(),
        ensures
            r@ == handles(if idx.0 < self.nodes().len() { neighbors_of(self.edges(), idx.0, dir) } else { Seq::empty() }),
            forall|i: int| 0 <= i < r@.len() ==> (#[trigger] r@[i]).0 < self.nodes().len(),
    {
        let ns = self.graph.neighbors_directed(idx.0, dir);
        node_indices(&ns)
    }

    /// Re-evaluates the filter flag of every node: where `predicate` answers `true`
    /// the flag becomes `hide_when_true`, everywhere else the opposite. So `true`
    /// hides what matches and shows the rest, `false` keeps what matches and hides
    /// the rest. Nothing else changes.
    pub fn set_visibility_when<F: Fn(NodeIndex, &Node) -> bool>(&mut self, hide_when_true: bool, predicate: F)
        requires
            old(self).wf(),
            total(predicate),
        ensures
            final(self).wf(),
            final(self).edges() == old(self).edges(),
            final(self).kinds() == old(self).kinds(),
            final(self).nodes().len() == old(self).nodes().len(),
            forall|i: int| 0 <= i < old(self).nodes().len() ==> {
                &&& call_ensures(predicate, (NodeIndex(i as usize), &old(self).nodes()[i]), (#[trigger] final(self).nodes()[i]).hidden == hide_when_true)
                &&& final(self).nodes()[i] == old(self).nodes()[i].with_hidden(final(self).nodes()[i].hidden)
            },
            forall|p: spec_fn(NodeIndex, Node) -> bool| describes(predicate, p) ==> final(self).nodes() == #[trigger] visibility_when(old(self).nodes(), hide_when_true, p),
    {
        let n = self.nodes.len();
        let mut i: usize = 0;
        while i < n
            invariant
                total(predicate),
                n == self.nodes@.len(),
                n == old(self).nodes@.len(),
                i <= n,
                self.graph == old(self).graph,
                self.edge_kinds == old(self).edge_kinds,
                forall|j: int| 0 <= j < i ==> {
                    &&& call_ensures(predicate, (NodeIndex(j as usize), &old(self).nodes@[j]), (#[trigger] self.nodes@[j]).hidden == hide_when_true)
                    &&& self.nodes@[j] == old(self).nodes@[j].with_hidden(self.nodes@[j].hidden)
                },
                forall|j: int| i <= j < n ==> self.nodes@[j] == old(self).nodes@[j],
            decreases n - i,
        {
            let matched = predicate(NodeIndex(i), &self.nodes[i]);
            let mut node = self.nodes[i];
            node.hidden = if matched { hide_when_true } else { !hide_when_true };
            self.nodes.set(i, node);
            i += 1;
        }
        assert forall|p: spec_fn(NodeIndex, Node) -> bool| describes(predicate, p) implies self.nodes@ == #[trigger] visibility_when(
            old(self).nodes@,
            hide_when_true,
            p,
        ) by {
            assert forall|j: int| 0 <= j < n implies self.nodes@[j] == visibility_when(old(self).nodes@, hide_when_true, p)[j] by {
                let _ = self.nodes@[j].hidden;
            }
            assert(self.nodes@ =~= visibility_when(old(self).nodes@, hide_when_true, p));
        }
        assert forall|j: int| 0 <= j < n implies (#[trigger] self.nodes@[j]).wf() by {
            assert(old(self).nodes@[j].wf());
        }
    }

    /// Sets the filter flag of the given nodes to `hide` and leaves every other
    /// node as it is. Handles out of bounds are passed over.
    pub fn set_visibility_many(&mut self, hide: bool, nodes: &Vec<NodeIndex>)
        requires
            old(self).wf(),
        ensures
            final(self).wf(),
            final(self).edges() == old(self).edges(),
            final(self).kinds() == old(self).kinds(),
            final(self).nodes() == visibility_many(old(self).nodes(), hide, nodes@),
    {
        let n = self.nodes.len();
        let mut k: usize = 0;
        while k < nodes.len()
            invariant
                k <= nodes@.len(),
                n == self.nodes@.len(),
                n == old(self).nodes@.len(),
                self.graph == old(self).graph,
                self.edge_kinds == old(self).edge_kinds,
                self.nodes@ == visibility_many(old(self).nodes@, hide, nodes@.take(k as int)),
            decreases nodes@.len() - k,
        {
            let idx = nodes[k];
            let ghost before = nodes@.take(k as int);
            let ghost after = nodes@.take(k + 1);
            if idx.0 < n {
                let mut node = self.nodes[idx.0];
                node.hidden = hide;
                self.nodes.set(idx.0, node);
            }
            proof {
                assert(after =~= before.push(idx));
                let goal = visibility_many(old(self).nodes@, hide, after);
                assert forall|i: int| 0 <= i < n implies self.nodes@[i] == goal[i] by {
                    let h = NodeIndex(i as usize);
                    if before.contains(h) {
                        let j = choose|j: int| 0 <= j < before.len() && before[j] == h;
                        assert(after[j] == h);
                    }
                    if h == idx {
                        assert(after[k as int] == h);
                    }
                    if after.contains(h) {
                        let j = choose|j: int| 0 <= j < after.len() && after[j] == h;
                        if j < k {
                            assert(before[j] == h);
                        }
                    }
                }
                assert(self.nodes@ =~= goal);
            }
            k += 1;
        }
        proof {
            assert(nodes@.take(nodes@.len() as int) =~= nodes@);
            assert(visibility_many(old(self).nodes@, hide, nodes@.take(0)) =~= old(self).nodes@);
            assert forall|j: int| 0 <= j < n implies (#[trigger] self.nodes@[j]).wf() by {
                assert(old(self).nodes@[j].wf());
            }
        }
    }

    /// Writes the disabler flag of every node from `flags`, by the nodes' numbers.
    /// Nothing else changes.
    pub fn set_disabled_all(&mut self, flags: &Vec<bool>)
        requires
            old(self).wf(),
        ensures
            final(self).wf(),
            final(self).edges() == old(self).edges(),
            final(self).kinds() == old(self).kinds(),
            final(self).nodes() == disabled_as(old(self).nodes(), flags@),
    {
        let n = self.nodes.len();
        let mut i: usize = 0;
        while i < n && i < flags.len()
            invariant
                n == self.nodes@.len(),
                n == old(self).nodes@.len(),
                i <= n,
                i <= flags@.len(),
                self.graph == old(self).graph,
                self.edge_kinds == old(self).edge_kinds,
                forall|j: int| 0 <= j < i ==> self.nodes@[j] == old(self).nodes@[j].with_disabled(flags@[j]),
                forall|j: int| i <= j < n ==> self.nodes@[j] == old(self).nodes@[j],
            decreases n - i,
        {
            let mut node = self.nodes[i];
            node.disabled = flags[i];
            self.nodes.set(i, node);
            i += 1;
        }
        assert(self.nodes@ =~= disabled_as(old(self).nodes@, flags@));
        assert forall|j: int| 0 <= j < n implies (#[trigger] self.nodes@[j]).wf() by {
            assert(old(self).nodes@[j].wf());
        }
    }

    fn pick(&self, ns: &Vec<usize>, dir: Direction, bound: u32) -> (r: Option<usize>)
        ensures
            r == pick_next(self.nodes(), ns@, dir, bound),
    {
        let mut best: Option<usize> = None;
        let mut i: usize = 0;
        while i < ns.len()
            invariant
                i <= ns@.len(),
                best == pick_next(self.nodes@, ns@.take(i as int), dir, bound),
                best matches Some(b) ==> b < self.nodes@.len(),
            decreases ns@.len() - i,
        {
            let v = ns[i];
            proof {
                let next = ns@.take(i + 1);
                assert(next.drop_last() =~= ns@.take(i as int));
                assert(next.last() == v);
            }
            if v < self.nodes.len() {
                let key = depth_of(&self.nodes[v], dir);
                if key < bound {
                    best = match best {
                        Some(b) => {
                            let other = depth_of(&self.nodes[b], dir);
                            if key > other || (key == other && v < b) {
                                Some(v)
                            } else {
                                Some(b)
                            }
                        },
                        None => Some(v),
                    };
                }
            }
            i += 1;
        }
        proof {
            assert(ns@.take(ns@.len() as int) =~= ns@);
        }
        best
    }

    fn trail_from(&self, start: usize, dir: Direction) -> (r: Vec<usize>)
        requires
            self.wf(),
        ensures
            r@ == trail(self.nodes(), self.edges(), start, dir),
    {
        let mut out: Vec<usize> = Vec::new();
        let mut cur = start;
        let mut go = cur < self.nodes.len();
        while go
            invariant
                self.wf(),
                go ==> cur < self.nodes@.len(),
                !go ==> trail(self.nodes@, self.graph.edges(), cur, dir) =~= Seq::<usize>::empty(),
                out@ + trail(self.nodes@, self.graph.edges(), cur, dir) == trail(self.nodes@, self.graph.edges(), start, dir),
            decreases (if go { depth_key(self.nodes@[cur as int], dir) + 1 } else { 0 }),
        {
            let bound = depth_of(&self.nodes[cur], dir);
            let ns = self.graph.neighbors_directed(cur, dir);
            let ghost before = out@;
            let ghost rest = trail(self.nodes@, self.graph.edges(), cur, dir);
            match self.pick(&ns, dir, bound) {
                Some(next) => {
                    if next < self.nodes.len() && depth_of(&self.nodes[next], dir) < bound {
                        out.push(next);
                        proof {
                            let tail = trail(self.nodes@, self.graph.edges(), next, dir);
                            assert(rest == seq![next] + tail);
                            assert(out@ + tail =~= before + rest);
                        }
                        cur = next;
                    } else {
                        go = false;
                    }
                },
                None => {
                    go = false;
                },
            }
        }
        proof {
            assert(out@ + Seq::<usize>::empty() =~= out@);
        }
        out
    }

    /// The longest path through `node`, told from the depths that the nodes carry
    /// and without a walk over the whole graph: the way up to a root, `node`, and
    /// the way down to a leaf. No visibility changes. The path is empty for a
    /// handle out of bounds.
    pub fn show_longest_path_through(&self, node: NodeIndex) -> (r: Vec<NodeIndex>)
        requires
            self.wf(),
        ensures
            r@ == handles(longest_path(self.nodes(), self.edges(), node.0)),
    {
        if node.0 >= self.nodes.len() {
            return node_indices(&Vec::new());
        }
        let up = self.trail_from(node.0, Direction::Incoming);
        let down = self.trail_from(node.0, Direction::Outgoing);
        let mut path: Vec<usize> = Vec::new();
        let mut i: usize = up.len();
        while i > 0
            invariant
                i <= up@.len(),
                path@.len() == up@.len() - i,
                forall|k: int| 0 <= k < path@.len() ==> path@[k] == up@[up@.len() - 1 - k],
            decreases i,
        {
            i -= 1;
            path.push(up[i]);
        }
        assert(path@ =~= up@.reverse());
        path.push(node.0);
        let mut j: usize = 0;
        while j < down.len()
            invariant
                j <= down@.len(),
                path@ == up@.reverse() + seq![node.0] + down@.take(j as int),
            decreases down@.len() - j,
        {
            path.push(down[j]);
            assert(down@.take(j + 1) =~= down@.take(j as int).push(down@[j as int]));
            j += 1;
        }
        assert(down@.take(down@.len() as int) =~= down@);
        node_indices(&path)
    }
}

} // verus!
