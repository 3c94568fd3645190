//! The visibility filters and the disablers.
//!
//! A filter is one step of a chain that is applied from left to right, each step on
//! what the steps before it left. A disabler is a rule that elides nodes by what they
//! are and how they are connected; several disablers elide what any of them elides.

use crate::digraph::{dfs_order, dfs_reversed_order, neighbors_of, Direction};
use crate::display::DisplayConfiguration;
use crate::inst_graph::{cap_children, keep_top, InstGraph};
use crate::items::{Match, QuantIdx, Z3Parser};
use crate::raw::{describes, handles, longest_path, node_indices, visibility_many, visibility_when, Node, NodeIndex, NodeKind, RawInstGraph};
use vstd::prelude::*;

verus! {

/// One step of the visibility pipeline.
#[derive(Debug, Clone, PartialEq, Hash)]
pub enum Filter {
    /// Hides the nodes with this number and above.
    MaxNodeIdx(usize),
    /// Hides the nodes below this number.
    MinNodeIdx(usize),
    /// Hides the instantiations that the solver's theories produced.
    IgnoreTheorySolving,
    /// Hides the instantiations of this quantifier; `None` stands for those that
    /// have no quantifier.
    IgnoreQuantifier(Option<QuantIdx>),
    /// Hides the instantiations of every quantifier but this.
    IgnoreAllButQuantifier(Option<QuantIdx>),
    /// Keeps the costliest visible nodes, this many.
    MaxInsts(usize),
    /// Caps the number of children shown per node.
    MaxBranching(usize),
    /// Hides the direct neighbours of a node in one direction.
    ShowNeighbours(NodeIndex, Direction),
    /// Visits what leads to a node, and shows it (`true`) or hides it (`false`).
    VisitSourceTree(NodeIndex, bool),
    /// Visits what a node leads to, and shows it (`true`) or hides it (`false`).
    VisitSubTreeWithRoot(NodeIndex, bool),
    /// Hides the nodes whose shortest distance to a root is above this.
    MaxDepth(usize),
    /// Changes nothing and hands out the longest path through a node.
    ShowLongestPath(NodeIndex),
    /// Keeps the instantiations of the quantifiers with this name and hides all else.
    ShowNamedQuantifier(String),
    /// Reserved; changes nothing.
    SelectNthMatchingLoop(usize),
    /// Reserved; changes nothing.
    ShowMatchingLoopSubgraph,
}

/// What a filter hands out beside its effect on the graph.
pub enum FilterOutput {
    LongestPath(Vec<NodeIndex>),
    MatchingLoopGeneralizedTerms(Vec<String>),
    /// Nothing is handed out.
    Nothing,
}

/// The match behind a node, for an instantiation whose match the trace holds.
pub open spec fn inst_match(parser: &Z3Parser, n: Node) -> Option<Match> {
    match n.kind {
        NodeKind::Instantiation(i) => parser.spec_match_of(i),
        _ => None,
    }
}

pub open spec fn at_or_above(max: usize) -> spec_fn(NodeIndex, Node) -> bool {
    |i: NodeIndex, n: Node| i.0 >= max
}

pub open spec fn below(min: usize) -> spec_fn(NodeIndex, Node) -> bool {
    |i: NodeIndex, n: Node| i.0 < min
}

pub open spec fn deeper_than(depth: usize) -> spec_fn(NodeIndex, Node) -> bool {
    |i: NodeIndex, n: Node| n.fwd_depth.min > depth
}

pub open spec fn from_theory(parser: &Z3Parser) -> spec_fn(NodeIndex, Node) -> bool {
    |i: NodeIndex, n: Node| inst_match(parser, n) matches Some(m) && m.kind is TheorySolving
}

pub open spec fn of_quant(parser: &Z3Parser, q: Option<QuantIdx>) -> spec_fn(NodeIndex, Node) -> bool {
    |i: NodeIndex, n: Node| inst_match(parser, n) matches Some(m) && m.kind.spec_quant_idx() == q
}

pub open spec fn of_other_quant(parser: &Z3Parser, q: Option<QuantIdx>) -> spec_fn(NodeIndex, Node) -> bool {
    |i: NodeIndex, n: Node| inst_match(parser, n) matches Some(m) && m.kind.spec_quant_idx() != q
}

/// Whether the match is of a quantifier that the trace holds under the name `name`.
pub open spec fn match_named(parser: &Z3Parser, m: Match, name: Seq<char>) -> bool {
    m.kind.spec_quant_idx() matches Some(q) && q.0 < parser.quantifiers@.len() && parser.quantifiers@[q.0 as int].name@ == name
}

pub open spec fn of_named_quant(parser: &Z3Parser, name: Seq<char>) -> spec_fn(NodeIndex, Node) -> bool {
    |i: NodeIndex, n: Node| inst_match(parser, n) matches Some(m) && match_named(parser, m, name)
}

/// The nodes that a walk from `v` finds, as handles; none for a handle out of bounds.
pub open spec fn found_from(nodes: Seq<Node>, v: NodeIndex, walk: Seq<usize>) -> Seq<NodeIndex> {
    handles(if v.0 < nodes.len() { walk } else { Seq::empty() })
}

/// The nodes after a filter was applied to them.
pub open spec fn filtered(f: Filter, nodes: Seq<Node>, edges: Seq<(usize, usize)>, parser: &Z3Parser) -> Seq<Node> {
    match f {
        Filter::MaxNodeIdx(max) => visibility_when(nodes, true, at_or_above(max)),
        Filter::MinNodeIdx(min) => visibility_when(nodes, true, below(min)),
        Filter::IgnoreTheorySolving => visibility_when(nodes, true, from_theory(parser)),
        Filter::IgnoreQuantifier(q) => visibility_when(nodes, true, of_quant(parser, q)),
        Filter::IgnoreAllButQuantifier(q) => visibility_when(nodes, true, of_other_quant(parser, q)),
        Filter::MaxInsts(n) => keep_top(nodes, n),
        Filter::MaxBranching(n) => cap_children(nodes, edges, n),
        Filter::ShowNeighbours(v, dir) => visibility_many(nodes, true, found_from(nodes, v, neighbors_of(edges, v.0, dir))),
        Filter::VisitSourceTree(v, retain) => visibility_many(
            nodes,
            !retain,
            found_from(nodes, v, dfs_reversed_order(nodes.len(), edges, v.0)),
        ),
        Filter::VisitSubTreeWithRoot(v, retain) => visibility_many(nodes, !retain, found_from(nodes, v, dfs_order(nodes.len(), edges, v.0))),
        Filter::MaxDepth(depth) => visibility_when(nodes, true, deeper_than(depth)),
        Filter::ShowLongestPath(_) => nodes,
        Filter::ShowNamedQuantifier(name) => visibility_when(nodes, false, of_named_quant(parser, name@)),
        Filter::SelectNthMatchingLoop(_) => nodes,
        Filter::ShowMatchingLoopSubgraph => nodes,
    }
}

/// Whether `out` is what a filter hands out on these nodes: the longest path for
/// `ShowLongestPath`, nothing for every other filter.
pub open spec fn hands_out(f: Filter, nodes: Seq<Node>, edges: Seq<(usize, usize)>, out: FilterOutput) -> bool {
    match f {
        Filter::ShowLongestPath(v) => out matches FilterOutput::LongestPath(path) && path@ == handles(longest_path(nodes, edges, v.0)),
        _ => out is Nothing,
    }
}

/// The nodes after a chain of filters was applied to them from left to right.
pub open spec fn chain_filtered(chain: Seq<Filter>, nodes: Seq<Node>, edges: Seq<(usize, usize)>, parser: &Z3Parser) -> Seq<Node>
    decreases chain.len(),
{
    if chain.len() == 0 {
        nodes
    } else {
        filtered(chain.last(), chain_filtered(chain.drop_last(), nodes, edges, parser), edges, parser)
    }
}

/// A chain of filters is a function of the graph and the chain: from equal nodes
/// and edges, equal chains lead to equal nodes.
pub proof fn lemma_chain_is_deterministic(
    chain: Seq<Filter>,
    again: Seq<Filter>,
    nodes: Seq<Node>,
    nodes_again: Seq<Node>,
    edges: Seq<(usize, usize)>,
    parser: &Z3Parser,
)
    requires
        chain == again,
        nodes == nodes_again,
    ensures
        chain_filtered(chain, nodes, edges, parser) == chain_filtered(again, nodes_again, edges, parser),
{
}

/// No filter adds or drops a node, and none touches what a node is or its
/// disabler flag.
pub proof fn lemma_filtered_keeps_facts(f: Filter, nodes: Seq<Node>, edges: Seq<(usize, usize)>, parser: &Z3Parser, i: int)
    requires
        0 <= i < nodes.len(),
    ensures
        filtered(f, nodes, edges, parser).len() == nodes.len(),
        filtered(f, nodes, edges, parser)[i] == nodes[i].with_hidden(filtered(f, nodes, edges, parser)[i].hidden),
{
}

fn match_of_node<'a>(parser: &'a Z3Parser, node: &Node) -> (r: Option<&'a Match>)
    ensures
        r == match inst_match(parser, *node) {
            Some(m) => Some(&m),
            None => None,
        },
{
    match node.kind {
        NodeKind::Instantiation(i) => parser.match_of(i),
        _ => None,
    }
}

fn same_quant(a: Option<QuantIdx>, b: Option<QuantIdx>) -> (r: bool)
    ensures
        r == (a == b),
{
    match (a, b) {
        (Some(x), Some(y)) => x.0 == y.0,
        (None, None) => true,
        _ => false,
    }
}

fn node_from_theory(parser: &Z3Parser, idx: NodeIndex, node: &Node) -> (b: bool)
    ensures
        b == from_theory(parser)(idx, *node),
{
    match match_of_node(parser, node) {
        Some(m) => m.kind.is_discovered(),
        None => false,
    }
}

fn node_of_quant(parser: &Z3Parser, q: Option<QuantIdx>, idx: NodeIndex, node: &Node) -> (b: bool)
    ensures
        b == of_quant(parser, q)(idx, *node),
{
    match match_of_node(parser, node) {
        Some(m) => same_quant(m.kind.quant_idx(), q),
        None => false,
    }
}

fn node_of_other_quant(parser: &Z3Parser, q: Option<QuantIdx>, idx: NodeIndex, node: &Node) -> (b: bool)
    ensures
        b == of_other_quant(parser, q)(idx, *node),
{
    match match_of_node(parser, node) {
        Some(m) => !same_quant(m.kind.quant_idx(), q),
        None => false,
    }
}

fn node_of_named_quant(parser: &Z3Parser, name: &String, idx: NodeIndex, node: &Node) -> (b: bool)
    ensures
        b == of_named_quant(parser, name@)(idx, *node),
{
    match match_of_node(parser, node) {
        Some(m) => match m.kind.quant_idx() {
            Some(q) => match parser.quantifier(q) {
                Some(quant) => quant.name == *name,
                None => false,
            },
            None => false,
        },
        None => false,
    }
}

impl Filter {
    /// A hash of the filter's content, the same for equal filters on every run and
    /// every machine.
    pub fn get_hash(&self) -> (h: u64)
        ensures
            h == hash_of(words_of(*self), words_of(*self).len() as int),
    {
        let mut words: Vec<u64> = Vec::new();
        match self {
            Filter::MaxNodeIdx(n) => {
                words.push(0);
                words.push(*n as u64);
            },
            Filter::MinNodeIdx(n) => {
                words.push(1);
                words.push(*n as u64);
            },
            Filter::IgnoreTheorySolving => {
                words.push(2);
            },
            Filter::IgnoreQuantifier(q) => {
                words.push(3);
                words_of_quant(&mut words, *q);
            },
            Filter::IgnoreAllButQuantifier(q) => {
                words.push(4);
                words_of_quant(&mut words, *q);
            },
            Filter::MaxInsts(n) => {
                words.push(5);
                words.push(*n as u64);
            },
            Filter::MaxBranching(n) => {
                words.push(6);
                words.push(*n as u64);
            },
            Filter::ShowNeighbours(v, dir) => {
                words.push(7);
                words.push(v.0 as u64);
                words.push(
                    match dir {
                        Direction::Outgoing => 0,
                        Direction::Incoming => 1,
                    },
                );
            },
            Filter::VisitSourceTree(v, retain) => {
                words.push(8);
                words.push(v.0 as u64);
                words.push(if *retain { 1 } else { 0 });
            },
            Filter::VisitSubTreeWithRoot(v, retain) => {
                words.push(9);
                words.push(v.0 as u64);
                words.push(if *retain { 1 } else { 0 });
            },
            Filter::MaxDepth(n) => {
                words.push(10);
                words.push(*n as u64);
            },
            Filter::ShowLongestPath(v) => {
                words.push(11);
                words.push(v.0 as u64);
            },
            Filter::ShowNamedQuantifier(name) => {
                words.push(12);
                let text = name.as_str();
                let len = text.unicode_len();
                let mut i: usize = 0;
                while i < len
                    invariant
                        i <= len,
                        len == text@.len(),
                        text@ == name@,
                        words@.len() == 1 + i,
                        words@[0] == 12,
                        forall|k: int| 0 <= k < i ==> words@[1 + k] == name@[k] as u64,
                    decreases len - i,
                {
                    words.push(text.get_char(i) as u64);
                    i += 1;
                }
            },
            Filter::SelectNthMatchingLoop(n) => {
                words.push(13);
                words.push(*n as u64);
            },
            Filter::ShowMatchingLoopSubgraph => {
                words.push(14);
            },
        }
        assert(words@ =~= words_of(*self));
        let mut h: u64 = 0xcbf2_9ce4_8422_2325;
        let mut k: usize = 0;
        while k < words.len()
            invariant
                k <= words@.len(),
                h == hash_of(words@, k as int),
            decreases words@.len() - k,
        {
            h = mix_in(h, words[k]);
            k += 1;
        }
        h
    }

    /// Applies the filter to the graph and returns what it hands out. Only the
    /// filter flags of nodes change. A handle that is out of the graph's bounds
    /// selects no node, and a reserved filter changes nothing.
    pub fn apply(self, graph: &mut InstGraph, parser: &Z3Parser, _config: DisplayConfiguration) -> (out: FilterOutput)
        requires
            old(graph).raw.wf(),
        ensures
            final(graph).raw.wf(),
            final(graph).raw.edges() == old(graph).raw.edges(),
            final(graph).raw.kinds() == old(graph).raw.kinds(),
            final(graph).raw.nodes() == filtered(self, old(graph).raw.nodes(), old(graph).raw.edges(), parser),
            hands_out(self, old(graph).raw.nodes(), old(graph).raw.edges(), out),
    {
        match self {
            Filter::MaxNodeIdx(max) => {
                let p = |idx: NodeIndex, node: &Node| -> (b: bool)
                    ensures
                        b == at_or_above(max)(idx, *node),
                    { idx.index() >= max };
                assert(describes(p, at_or_above(max)));
                graph.raw.set_visibility_when(true, p);
            },
            Filter::MinNodeIdx(min) => {
                let p = |idx: NodeIndex, node: &Node| -> (b: bool)
                    ensures
                        b == below(min)(idx, *node),
                    { idx.index() < min };
                assert(describes(p, below(min)));
                graph.raw.set_visibility_when(true, p);
            },
            Filter::IgnoreTheorySolving => {
                let p = |idx: NodeIndex, node: &Node| -> (b: bool)
                    ensures
                        b == from_theory(parser)(idx, *node),
                    { node_from_theory(parser, idx, node) };
                assert(describes(p, from_theory(parser)));
                graph.raw.set_visibility_when(true, p);
            },
            Filter::IgnoreQuantifier(qidx) => {
                let p = |idx: NodeIndex, node: &Node| -> (b: bool)
                    ensures
                        b == of_quant(parser, qidx)(idx, *node),
                    { node_of_quant(parser, qidx, idx, node) };
                assert(describes(p, of_quant(parser, qidx)));
                graph.raw.set_visibility_when(true, p);
            },
            Filter::IgnoreAllButQuantifier(qidx) => {
                let p = |idx: NodeIndex, node: &Node| -> (b: bool)
                    ensures
                        b == of_other_quant(parser, qidx)(idx, *node),
                    { node_of_other_quant(parser, qidx, idx, node) };
                assert(describes(p, of_other_quant(parser, qidx)));
                graph.raw.set_visibility_when(true, p);
            },
            Filter::MaxInsts(n) => graph.keep_first_n_cost(n),
            Filter::MaxBranching(n) => graph.keep_first_n_children(n),
            Filter::ShowNeighbours(nidx, direction) => {
                let nodes = graph.raw.neighbors_directed(nidx, direction);
                graph.raw.set_visibility_many(true, &nodes);
            },
            Filter::VisitSubTreeWithRoot(nidx, retain) => {
                let nodes = node_indices(&graph.raw.structure().dfs(nidx.index()));
                graph.raw.set_visibility_many(!retain, &nodes);
            },
            Filter::VisitSourceTree(nidx, retain) => {
                let nodes = node_indices(&graph.raw.structure().dfs_reversed(nidx.index()));
                graph.raw.set_visibility_many(!retain, &nodes);
            },
            Filter::MaxDepth(depth) => {
                let p = |idx: NodeIndex, node: &Node| -> (b: bool)
                    ensures
                        b == deeper_than(depth)(idx, *node),
                    { node.fwd_depth.min as usize > depth };
                assert(describes(p, deeper_than(depth)));
                graph.raw.set_visibility_when(true, p);
            },
            Filter::ShowLongestPath(nidx) => {
                return FilterOutput::LongestPath(graph.raw.show_longest_path_through(nidx));
            },
            Filter::ShowNamedQuantifier(name) => {
                let wanted = &name;
                let p = |idx: NodeIndex, node: &Node| -> (b: bool)
                    ensures
                        b == of_named_quant(parser, wanted@)(idx, *node),
                    { node_of_named_quant(parser, wanted, idx, node) };
                assert(describes(p, of_named_quant(parser, name@)));
                graph.raw.set_visibility_when(false, p);
            },
            Filter::SelectNthMatchingLoop(_) => (),
            Filter::ShowMatchingLoopSubgraph => (),
        }
        FilterOutput::Nothing
    }
}

/// The numbers that stand for a filter: one for its variant, then its fields.
pub open spec fn words_of(f: Filter) -> Seq<u64> {
    match f {
        Filter::MaxNodeIdx(n) => seq![0u64, n as u64],
        Filter::MinNodeIdx(n) => seq![1u64, n as u64],
        Filter::IgnoreTheorySolving => seq![2u64],
        Filter::IgnoreQuantifier(q) => seq![3u64] + quant_words(q),
        Filter::IgnoreAllButQuantifier(q) => seq![4u64] + quant_words(q),
        Filter::MaxInsts(n) => seq![5u64, n as u64],
        Filter::MaxBranching(n) => seq![6u64, n as u64],
        Filter::ShowNeighbours(v, dir) => seq![
            7u64,
            v.0 as u64,
            match dir {
                Direction::Outgoing => 0u64,
                Direction::Incoming => 1u64,
            },
        ],
        Filter::VisitSourceTree(v, retain) => seq![8u64, v.0 as u64, if retain { 1u64 } else { 0u64 }],
        Filter::VisitSubTreeWithRoot(v, retain) => seq![9u64, v.0 as u64, if retain { 1u64 } else { 0u64 }],
        Filter::MaxDepth(n) => seq![10u64, n as u64],
        Filter::ShowLongestPath(v) => seq![11u64, v.0 as u64],
        Filter::ShowNamedQuantifier(name) => seq![12u64] + Seq::new(name@.len(), |i: int| name@[i] as u64),
        Filter::SelectNthMatchingLoop(n) => seq![13u64, n as u64],
        Filter::ShowMatchingLoopSubgraph => seq![14u64],
    }
}

pub open spec fn quant_words(q: Option<QuantIdx>) -> Seq<u64> {
    match q {
        Some(q) => seq![1u64, q.0 as u64],
        None => seq![0u64],
    }
}

/// One step of the hash: the word is mixed in and the sum multiplied, modulo 2^64.
pub open spec fn mix(h: u64, w: u64) -> u64 {
    (((h ^ w) as int * 0x0000_0100_0000_01b3) % 0x1_0000_0000_0000_0000) as u64
}

/// The hash of the first `upto` words.
pub open spec fn hash_of(words: Seq<u64>, upto: int) -> u64
    decreases upto,
{
    if upto <= 0 {
        0xcbf2_9ce4_8422_2325
    } else {
        mix(hash_of(words, upto - 1), words[upto - 1])
    }
}

/// Filters with the same content have the same hash.
pub proof fn lemma_equal_filters_hash_equally(a: Filter, b: Filter)
    requires
        a == b,
    ensures
        hash_of(words_of(a), words_of(a).len() as int) == hash_of(words_of(b), words_of(b).len() as int),
{
}

fn mix_in(h: u64, w: u64) -> (r: u64)
    ensures
        r == mix(h, w),
{
    let x: u128 = (h ^ w) as u128;
    assert(x * 0x0000_0100_0000_01b3 <= 0xffff_ffff_ffff_ffff * 0x0000_0100_0000_01b3) by (nonlinear_arith)
        requires
            x <= 0xffff_ffff_ffff_ffff,
    ;
    let product: u128 = x * 0x0000_0100_0000_01b3u128;
    (product % 0x1_0000_0000_0000_0000u128) as u64
}

fn words_of_quant(words: &mut Vec<u64>, q: Option<QuantIdx>)
    ensures
        final(words)@ == old(words)@ + quant_words(q),
{
    match q {
        Some(q) => {
            words.push(1);
            words.push(q.0 as u64);
            assert(words@ =~= old(words)@ + quant_words(Some(q)));
        },
        None => {
            words.push(0);
            assert(words@ =~= old(words)@ + quant_words(None));
        },
    }
}

/// The chain that a fresh view starts with: the theories' instantiations are
/// hidden, and of the others the `max_insts` costliest are kept.
pub fn default_filter_chain(max_insts: usize) -> (chain: Vec<Filter>)
    ensures
        chain@ == seq![Filter::IgnoreTheorySolving, Filter::MaxInsts(max_insts)],
{
    let mut chain: Vec<Filter> = Vec::new();
    chain.push(Filter::IgnoreTheorySolving);
    chain.push(Filter::MaxInsts(max_insts));
    assert(chain@ =~= seq![Filter::IgnoreTheorySolving, Filter::MaxInsts(max_insts)]);
    chain
}

/// Applies a chain of filters from left to right, each on what those before it
/// left, and returns what each handed out.
pub fn apply_chain(chain: Vec<Filter>, graph: &mut InstGraph, parser: &Z3Parser, config: DisplayConfiguration) -> (outs: Vec<FilterOutput>)
    requires
        old(graph).raw.wf(),
    ensures
        final(graph).raw.wf(),
        final(graph).raw.edges() == old(graph).raw.edges(),
        final(graph).raw.kinds() == old(graph).raw.kinds(),
        final(graph).raw.nodes() == chain_filtered(chain@, old(graph).raw.nodes(), old(graph).raw.edges(), parser),
        outs@.len() == chain@.len(),
        forall|k: int| 0 <= k < chain@.len() ==> hands_out(
            chain@[k],
            chain_filtered(chain@.take(k), old(graph).raw.nodes(), old(graph).raw.edges(), parser),
            old(graph).raw.edges(),
            #[trigger] outs@[k],
        ),
{
    let ghost all = chain@;
    let ghost nodes = graph.raw.nodes();
    let ghost edges = graph.raw.edges();
    let mut rest = chain;
    let mut outs: Vec<FilterOutput> = Vec::new();
    while rest.len() > 0
        invariant
            graph.raw.wf(),
            graph.raw.edges() == edges,
            graph.raw.kinds() == old(graph).raw.kinds(),
            outs@.len() <= all.len(),
            rest@ == all.skip(outs@.len() as int),
            graph.raw.nodes() == chain_filtered(all.take(outs@.len() as int), nodes, edges, parser),
            forall|k: int| 0 <= k < outs@.len() ==> hands_out(all[k], chain_filtered(all.take(k), nodes, edges, parser), edges, #[trigger] outs@[k]),
        decreases rest@.len(),
    {
        let ghost done = outs@.len() as int;
        let filter = rest.remove(0);
        proof {
            assert(filter == all[done]);
            assert(rest@ =~= all.skip(done + 1));
            assert(all.take(done + 1).drop_last() =~= all.take(done));
            assert(all.take(done + 1).last() == all[done]);
        }
        let out = filter.apply(graph, parser, config);
        outs.push(out);
    }
    proof {
        assert(all.take(all.len() as int) =~= all);
    }
    outs
}

/// A rule that elides nodes by what they are and how they are connected.
#[derive(Debug, Clone, Copy, PartialEq, Eq, Structural)]
pub enum Disabler {
    /// Elides terms and asserted equalities that lead nowhere or only pass one
    /// cause on to one effect, and transitive equalities that have no cause or
    /// only pass one on. Never elides an instantiation.
    Smart,
    /// Elides every term.
    ENodes,
    /// Elides every asserted equality.
    GivenEqualities,
    /// Elides every equality, asserted or transitive.
    AllEqualities,
}

/// Whether the rule `d` elides node `i`. The degrees are those of the whole graph,
/// whatever is hidden. No rule elides a number that is no node.
pub open spec fn disables(d: Disabler, nodes: Seq<Node>, edges: Seq<(usize, usize)>, i: usize) -> bool {
    i < nodes.len() && match d {
        Disabler::ENodes => nodes[i as int].kind is ENode,
        Disabler::GivenEqualities => nodes[i as int].kind is GivenEquality,
        Disabler::AllEqualities => nodes[i as int].kind is GivenEquality || nodes[i as int].kind is TransEquality,
        Disabler::Smart => {
            let parents = neighbors_of(edges, i, Direction::Incoming).len();
            let children = neighbors_of(edges, i, Direction::Outgoing).len();
            match nodes[i as int].kind {
                NodeKind::ENode(_) => children == 0 || (parents == 1 && children == 1),
                NodeKind::GivenEquality(_) => children == 0 || (parents == 1 && children == 1),
                NodeKind::TransEquality(_) => parents == 0 || (parents == 1 && children == 1),
                NodeKind::Instantiation(_) => false,
            }
        },
    }
}

/// Whether any rule of `many` elides node `i`.
pub open spec fn any_disables(many: Seq<Disabler>, nodes: Seq<Node>, edges: Seq<(usize, usize)>, i: usize) -> bool {
    exists|k: int| 0 <= k < many.len() && disables(#[trigger] many[k], nodes, edges, i)
}

/// The nodes after a disabler pass with the rules of `many`.
pub open spec fn disabled_by(many: Seq<Disabler>, nodes: Seq<Node>, edges: Seq<(usize, usize)>) -> Seq<Node> {
    Seq::new(nodes.len(), |i: int| nodes[i].with_disabled(any_disables(many, nodes, edges, i as usize)))
}

/// A rule reads what a node is and the edges, never a visibility flag.
pub proof fn lemma_disables_ignores_flags(d: Disabler, nodes: Seq<Node>, other: Seq<Node>, edges: Seq<(usize, usize)>, i: usize)
    requires
        nodes.len() == other.len(),
        i < nodes.len() ==> nodes[i as int].kind == other[i as int].kind,
    ensures
        disables(d, nodes, edges, i) == disables(d, other, edges, i),
{
}

/// A disabler pass is idempotent: a second pass with the same rules changes nothing.
pub proof fn lemma_disabler_pass_idempotent(many: Seq<Disabler>, nodes: Seq<Node>, edges: Seq<(usize, usize)>)
    ensures
        disabled_by(many, disabled_by(many, nodes, edges), edges) == disabled_by(many, nodes, edges),
{
    let once = disabled_by(many, nodes, edges);
    let twice = disabled_by(many, once, edges);
    assert forall|i: int| 0 <= i < nodes.len() implies twice[i] == once[i] by {
        let a = any_disables(many, nodes, edges, i as usize);
        let b = any_disables(many, once, edges, i as usize);
        if a {
            let k = choose|k: int| 0 <= k < many.len() && disables(#[trigger] many[k], nodes, edges, i as usize);
            lemma_disables_ignores_flags(many[k], nodes, once, edges, i as usize);
        }
        if b {
            let k = choose|k: int| 0 <= k < many.len() && disables(#[trigger] many[k], once, edges, i as usize);
            lemma_disables_ignores_flags(many[k], nodes, once, edges, i as usize);
        }
    }
    assert(twice =~= once);
}

/// The smart rule never elides an instantiation, however it is connected.
pub proof fn lemma_smart_spares_instantiations(nodes: Seq<Node>, edges: Seq<(usize, usize)>, i: usize)
    requires
        i < nodes.len(),
        nodes[i as int].kind is Instantiation,
    ensures
        !disables(Disabler::Smart, nodes, edges, i),
{
}

/// The smart rule elides a term or an equality that only passes one cause on to one
/// effect.
pub proof fn lemma_smart_elides_pass_through(nodes: Seq<Node>, edges: Seq<(usize, usize)>, i: usize)
    requires
        i < nodes.len(),
        !(nodes[i as int].kind is Instantiation),
        neighbors_of(edges, i, Direction::Incoming).len() == 1,
        neighbors_of(edges, i, Direction::Outgoing).len() == 1,
    ensures
        disables(Disabler::Smart, nodes, edges, i),
{
}

impl Disabler {
    /// Whether this rule elides the node behind `idx`. A handle out of bounds is
    /// elided by no rule.
    pub fn disable(self, idx: NodeIndex, graph: &RawInstGraph, _parser: &Z3Parser) -> (r: bool)
        requires
            graph.wf(),
        ensures
            r == disables(self, graph.nodes(), graph.edges(), idx.0),
    {
        let node = match graph.node(idx) {
            Some(node) => node,
            None => {
                return false;
            },
        };
        match self {
            Disabler::ENodes => node.kind().enode().is_some(),
            Disabler::GivenEqualities => node.kind().eq_given().is_some(),
            Disabler::AllEqualities => node.kind().eq_given().is_some() || node.kind().eq_trans().is_some(),
            Disabler::Smart => {
                let parents = graph.neighbors_directed(idx, Direction::Incoming).len();
                let children = graph.neighbors_directed(idx, Direction::Outgoing).len();
                match node.kind() {
                    NodeKind::ENode(_) => children == 0 || (parents == 1 && children == 1),
                    NodeKind::GivenEquality(_) => children == 0 || (parents == 1 && children == 1),
                    NodeKind::TransEquality(_) => parents == 0 || (parents == 1 && children == 1),
                    NodeKind::Instantiation(_) => false,
                }
            },
        }
    }

    /// Whether any rule of `many` elides the node behind `idx`.
    pub fn any(many: &Vec<Disabler>, idx: NodeIndex, graph: &RawInstGraph, parser: &Z3Parser) -> (r: bool)
        requires
            graph.wf(),
        ensures
            r == any_disables(many@, graph.nodes(), graph.edges(), idx.0),
    {
        let mut k: usize = 0;
        while k < many.len()
            invariant
                graph.wf(),
                k <= many@.len(),
                forall|j: int| 0 <= j < k ==> !disables(#[trigger] many@[j], graph.nodes(), graph.edges(), idx.0),
            decreases many@.len() - k,
        {
            if many[k].disable(idx, graph, parser) {
                return true;
            }
            k += 1;
        }
        false
    }

    /// Runs a disabler pass: the disabler flag of every node is set to whether any
    /// rule of `many` elides it, whatever the flag was before.
    pub fn apply(many: &Vec<Disabler>, graph: &mut InstGraph, parser: &Z3Parser)
        requires
            old(graph).raw.wf(),
        ensures
            final(graph).raw.wf(),
            final(graph).raw.edges() == old(graph).raw.edges(),
            final(graph).raw.kinds() == old(graph).raw.kinds(),
            final(graph).raw.nodes() == disabled_by(many@, old(graph).raw.nodes(), old(graph).raw.edges()),
    {
        let p = |node: NodeIndex, g: &RawInstGraph| -> (b: bool)
            requires
                g.wf(),
            ensures
                b == any_disables(many@, g.nodes(), g.edges(), node.0),
            { Disabler::any(many, node, g, parser) };
        graph.reset_disabled_to(parser, p);
        proof {
            let goal = disabled_by(many@, old(graph).raw.nodes(), old(graph).raw.edges());
            assert forall|i: int| 0 <= i < goal.len() implies graph.raw.nodes()[i] == goal[i] by {
                let _ = graph.raw.nodes()[i].disabled;
            }
            assert(graph.raw.nodes() =~= goal);
        }
    }

    pub fn description(&self) -> (r: &'static str)
        ensures
            r@ == match *self {
                Disabler::Smart => "trivial nodes"@,
                Disabler::ENodes => "yield terms"@,
                Disabler::GivenEqualities => "yield equalities"@,
                Disabler::AllEqualities => "all equalities"@,
            },
    {
        match self {
            Disabler::Smart => "trivial nodes",
            Disabler::ENodes => "yield terms",
            Disabler::GivenEqualities => "yield equalities",
            Disabler::AllEqualities => "all equalities",
        }
    }

    pub fn icon(&self) -> (r: &'static str)
        ensures
            r@ == match *self {
                Disabler::Smart => "low_priority"@,
                Disabler::ENodes => "functions"@,
                Disabler::GivenEqualities => "compare_arrows"@,
                Disabler::AllEqualities => "compare_arrows"@,
            },
    {
        match self {
            Disabler::Smart => "low_priority",
            Disabler::ENodes => "functions",
            Disabler::GivenEqualities => "compare_arrows",
            Disabler::AllEqualities => "compare_arrows",
        }
    }
}

/// The disablers that a fresh view offers, each with whether it starts switched on.
pub fn default_disabler_chain() -> (chain: Vec<(Disabler, bool)>)
    ensures
        chain@ == seq![
            (Disabler::Smart, true),
            (Disabler::ENodes, false),
            (Disabler::GivenEqualities, false),
            (Disabler::AllEqualities, false),
        ],
{
    let mut chain: Vec<(Disabler, bool)> = Vec::new();
    chain.push((Disabler::Smart, true));
    chain.push((Disabler::ENodes, false));
    chain.push((Disabler::GivenEqualities, false));
    chain.push((Disabler::AllEqualities, false));
    assert(chain@ =~= seq![
        (Disabler::Smart, true),
        (Disabler::ENodes, false),
        (Disabler::GivenEqualities, false),
        (Disabler::AllEqualities, false),
    ]);
    chain
}

} // verus!
