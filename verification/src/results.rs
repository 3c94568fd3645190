//! The graph of the instantiations that a log recorded, by the lines of the log:
//! a node for a line, and an edge from the line of a cause to the line of its effect.

use crate::digraph::DiGraph;
use crate::items::{Dependency, InstIdx, Instantiation, Z3Parser};
use crate::order::{key_order, lemma_key_order_total, lemma_ranking, ranking, top_of};
use std::collections::BTreeMap;
use std::collections::HashSet;
use typed_index_collections::TiVec;
use vstd::prelude::*;
use vstd::relations::sorted_by;

verus! {

broadcast use {
    vstd::std_specs::btree::group_btree_axioms,
    vstd::laws_cmp::group_laws_cmp,
    vstd::std_specs::hash::group_hash_axioms,
};

#[verifier::external_type_specification]
#[verifier::external_body]
#[verifier::reject_recursive_types(K)]
#[verifier::reject_recursive_types(V)]
pub struct ExTiVec<K, V>(TiVec<K, V>);

/// The entries of a vector of ranking keys, by their positions.
pub uninterp spec fn tivec_items(v: TiVec<InstIdx, (u64, usize)>) -> Seq<(u64, usize)>;

/// `TiVec::new`: the empty vector.
#[verifier::external_body]
fn tivec_new() -> (v: TiVec<InstIdx, (u64, usize)>)
    ensures
        tivec_items(v) == Seq::<(u64, usize)>::empty(),
{
    TiVec::new()
}

/// `TiVec::push`: the entry is appended.
#[verifier::external_body]
fn tivec_push(v: &mut TiVec<InstIdx, (u64, usize)>, value: (u64, usize))
    ensures
        tivec_items(*final(v)) == tivec_items(*old(v)).push(value),
{
    v.push(value);
}

/// `TiVec::len`.
#[verifier::external_body]
fn tivec_len(v: &TiVec<InstIdx, (u64, usize)>) -> (n: usize)
    ensures
        n == tivec_items(*v).len(),
{
    v.len()
}

/// `TiSlice::sort_unstable`, which hands on to the slice's sort: the same entries
/// in the ascending order of tuples.
#[verifier::external_body]
fn tivec_sort(v: &mut TiVec<InstIdx, (u64, usize)>)
    ensures
        tivec_items(*final(v)).to_multiset() == tivec_items(*old(v)).to_multiset(),
        sorted_by(tivec_items(*final(v)), key_order()),
{
    v.sort_unstable();
}

/// `TiVec::truncate`: the first `len` entries stay, or all where there are fewer.
#[verifier::external_body]
fn tivec_truncate(v: &mut TiVec<InstIdx, (u64, usize)>, len: usize)
    ensures
        tivec_items(*final(v)) == top_of(tivec_items(*old(v)), len),
{
    v.truncate(len);
}

/// Indexing a `TiVec` by its key: the entry at the key's position. The call panics
/// for a position past the end, which the precondition leaves out.
#[verifier::external_body]
fn tivec_get(v: &TiVec<InstIdx, (u64, usize)>, k: InstIdx) -> (r: (u64, usize))
    requires
        k.0 < tivec_items(*v).len(),
    ensures
        r == tivec_items(*v)[k.0 as int],
{
    v[k]
}

/// What of a log goes into its graph.
pub struct RenderSettings {
    /// Instantiations from later lines are left out.
    pub max_line_nr: usize,
    /// Whether the instantiations that the solver's theories found are left out.
    pub exclude_theory_solving_inst: bool,
    /// Of the rest, only this many of the costliest stay.
    pub max_instantiations: usize,
}

impl Default for RenderSettings {
    fn default() -> (r: Self)
        ensures
            r.max_line_nr == usize::MAX,
            r.exclude_theory_solving_inst,
            r.max_instantiations == 100,
    {
        RenderSettings { max_line_nr: usize::MAX, exclude_theory_solving_inst: true, max_instantiations: 100 }
    }
}

/// The lines after a node for `line` was asked for: a line gets one node, and a
/// full graph takes no more.
pub open spec fn with_node(lines: Seq<usize>, line: usize) -> Seq<usize> {
    if lines.contains(line) || lines.len() >= u32::MAX {
        lines
    } else {
        lines.push(line)
    }
}

/// The edges after an edge between the nodes of two lines was asked for: both lines
/// must have nodes, and a full graph takes no more.
pub open spec fn with_edge(lines: Seq<usize>, edges: Seq<(usize, usize)>, from: usize, to: usize) -> Seq<(usize, usize)> {
    if lines.contains(from) && lines.contains(to) && edges.len() < u32::MAX {
        edges.push((lines.index_of(from) as usize, lines.index_of(to) as usize))
    } else {
        edges
    }
}

pub struct InstGraph {
    inst_graph: DiGraph,
    line_nr_of_node: BTreeMap<usize, usize>,
    node_of_line_nr: BTreeMap<usize, usize>,
}

impl InstGraph {
    /// The line of each node, by the nodes' numbers.
    pub closed spec fn lines(&self) -> Seq<usize> {
        Seq::new(self.inst_graph.nodes(), |i: int| self.line_nr_of_node@[i as usize])
    }

    /// The edges as pairs of node numbers.
    pub closed spec fn edges(&self) -> Seq<(usize, usize)> {
        self.inst_graph.edges()
    }

    /// No line has two nodes, and both tables agree with the graph.
    pub closed spec fn wf(&self) -> bool {
        &&& self.inst_graph.wf()
        &&& forall|i: int| 0 <= i < self.inst_graph.nodes() ==> #[trigger] self.line_nr_of_node@.contains_key(i as usize)
        &&& forall|i: int|
            0 <= i < self.inst_graph.nodes() ==> self.node_of_line_nr@.contains_key(#[trigger] self.line_nr_of_node@[i as usize])
                && self.node_of_line_nr@[self.line_nr_of_node@[i as usize]] == i
        &&& forall|l: usize| #[trigger]
            self.node_of_line_nr@.contains_key(l) ==> self.node_of_line_nr@[l] < self.inst_graph.nodes()
                && self.line_nr_of_node@[self.node_of_line_nr@[l]] == l
    }

    /// What a well-formed graph promises: no line has two nodes, and every edge
    /// joins two nodes.
    pub proof fn lemma_wf(&self)
        requires
            self.wf(),
        ensures
            self.lines().no_duplicates(),
            self.lines().len() <= u32::MAX,
            crate::digraph::edges_in_range(self.lines().len(), self.edges()),
    {
        let lines = self.lines();
        assert forall|i: int, j: int| 0 <= i < lines.len() && 0 <= j < lines.len() && i != j implies lines[i] != lines[j] by {
            let _ = self.line_nr_of_node@[i as usize];
            let _ = self.line_nr_of_node@[j as usize];
        }
    }

    /// The graph without nodes.
    pub fn new() -> (g: Self)
        ensures
            g.wf(),
            g.lines().len() == 0,
            g.edges().len() == 0,
    {
        InstGraph { inst_graph: DiGraph::new(), line_nr_of_node: BTreeMap::new(), node_of_line_nr: BTreeMap::new() }
    }

    fn fresh_line_nr(&self, line_nr: usize) -> (fresh: bool)
        requires
            self.wf(),
        ensures
            fresh == !self.lines().contains(line_nr),
    {
        let known = self.node_of_line_nr.contains_key(&line_nr);
        proof {
            let lines = self.lines();
            if known {
                let v = self.node_of_line_nr@[line_nr];
                assert(lines[v as int] == line_nr);
            }
            if lines.contains(line_nr) {
                let i = choose|i: int| 0 <= i < lines.len() && lines[i] == line_nr;
                let _ = self.line_nr_of_node@[i as usize];
            }
        }
        !known
    }

    /// Gives `line_nr` a node unless it has one.
    pub fn add_node(&mut self, line_nr: usize)
        requires
            old(self).wf(),
        ensures
            final(self).wf(),
            final(self).lines() == with_node(old(self).lines(), line_nr),
            final(self).edges() == old(self).edges(),
    {
        if self.fresh_line_nr(line_nr) {
            let ghost before = self.lines();
            match self.inst_graph.add_node() {
                Some(node) => {
                    self.node_of_line_nr.insert(line_nr, node);
                    self.line_nr_of_node.insert(node, line_nr);
                    proof {
                        assert forall|i: int| 0 <= i < self.inst_graph.nodes() implies #[trigger] self.line_nr_of_node@.contains_key(i as usize) by {
                            if i < node {
                                assert(old(self).line_nr_of_node@.contains_key(i as usize));
                            }
                        }
                        assert forall|i: int| 0 <= i < self.inst_graph.nodes() implies self.node_of_line_nr@.contains_key(
                            #[trigger] self.line_nr_of_node@[i as usize],
                        ) && self.node_of_line_nr@[self.line_nr_of_node@[i as usize]] == i by {
                            if i < node {
                                let l = old(self).line_nr_of_node@[i as usize];
                                assert(before[i] == l);
                                assert(l != line_nr);
                            }
                        }
                        assert(self.lines() =~= before.push(line_nr));
                    }
                },
                None => {
                    assert(self.lines() =~= before);
                },
            }
        }
    }

    /// Joins the nodes of two lines by an edge, where both lines have nodes.
    pub fn add_edge(&mut self, from: usize, to: usize)
        requires
            old(self).wf(),
        ensures
            final(self).wf(),
            final(self).lines() == old(self).lines(),
            final(self).edges() == with_edge(old(self).lines(), old(self).edges(), from, to),
    {
        let ghost lines = self.lines();
        let known_from = !self.fresh_line_nr(from);
        let known_to = !self.fresh_line_nr(to);
        if known_from && known_to {
            let from_node = self.node_of_line_nr.get(&from);
            let to_node = self.node_of_line_nr.get(&to);
            match (from_node, to_node) {
                (Some(a), Some(b)) => {
                    proof {
                        self.lemma_wf();
                        assert(lines[*a as int] == from);
                        assert(lines[*b as int] == to);
                        lines.index_of_first_ensures(from);
                        lines.index_of_first_ensures(to);
                        let i = lines.index_of(from);
                        let j = lines.index_of(to);
                        assert(lines.contains(from) && lines.contains(to));
                        assert(0 <= i < lines.len() && lines[i] == from);
                        assert(0 <= j < lines.len() && lines[j] == to);
                    }
                    let a = *a;
                    let b = *b;
                    let _ = self.inst_graph.add_edge(a, b);
                    assert(self.lines() =~= lines);
                },
                _ => {
                    assert(false);
                },
            }
        }
    }

    /// The number of nodes.
    pub fn node_count(&self) -> (n: usize)
        ensures
            n == self.lines().len(),
    {
        self.inst_graph.node_count()
    }

    /// The line of a node, or `None` for a number that is no node.
    pub fn line_of(&self, node: usize) -> (r: Option<usize>)
        requires
            self.wf(),
        ensures
            r == if node < self.lines().len() { Some(self.lines()[node as int]) } else { None },
    {
        if node >= self.inst_graph.node_count() {
            return None;
        }
        match self.line_nr_of_node.get(&node) {
            Some(l) => Some(*l),
            None => {
                assert(self.line_nr_of_node@.contains_key(node));
                None
            },
        }
    }

    /// The structure of the graph.
    pub fn structure(&self) -> (g: &DiGraph)
        requires
            self.wf(),
        ensures
            g.wf(),
            g.nodes() == self.lines().len(),
            g.edges() == self.edges(),
    {
        &self.inst_graph
    }
}

/// Whether an instantiation goes into the ranking: the log gives its line, the
/// line is not past the limit, and it is not one that the settings leave out.
pub open spec fn passes(inst: Instantiation, s: RenderSettings) -> bool {
    inst.line_no matches Some(l) && l <= s.max_line_nr && (!s.exclude_theory_solving_inst || !inst.quant_discovered)
}

/// The ranking keys of those of the first `upto` instantiations that pass: the
/// costlier first, and of equal costs the earlier.
pub open spec fn candidate_keys(insts: Seq<Instantiation>, s: RenderSettings, upto: int) -> Seq<(u64, usize)>
    decreases upto,
{
    if upto <= 0 {
        Seq::empty()
    } else {
        let rest = candidate_keys(insts, s, upto - 1);
        if passes(insts[upto - 1], s) {
            rest.push(((u64::MAX - insts[upto - 1].cost) as u64, (upto - 1) as usize))
        } else {
            rest
        }
    }
}

/// The keys of the instantiations that stay: the costliest of those that pass, as
/// many as the settings allow.
pub open spec fn kept_keys(insts: Seq<Instantiation>, s: RenderSettings) -> Seq<(u64, usize)> {
    top_of(ranking(candidate_keys(insts, s, insts.len() as int)), s.max_instantiations)
}

/// Whether one of the first `upto` instantiations that stay is from line `l`.
pub open spec fn kept_line(insts: Seq<Instantiation>, s: RenderSettings, upto: int, l: usize) -> bool {
    exists|j: int| 0 <= j < upto && j < kept_keys(insts, s).len() && insts[(#[trigger] kept_keys(insts, s)[j]).1 as int].line_no == Some(l)
}

/// Whether a dependency goes into the graph: it has both ends, its cause is a real
/// line, and both lines are of instantiations that stay.
pub open spec fn links_kept(d: Dependency, insts: Seq<Instantiation>, s: RenderSettings) -> bool {
    let n = kept_keys(insts, s).len() as int;
    &&& d.from > 0
    &&& d.to matches Some(to)
    &&& kept_line(insts, s, n, d.from)
    &&& kept_line(insts, s, n, to)
}

/// The lines and edges of the graph of the first `upto` dependencies.
pub open spec fn graph_of(deps: Seq<Dependency>, upto: int, insts: Seq<Instantiation>, s: RenderSettings) -> (Seq<usize>, Seq<(usize, usize)>)
    decreases upto,
{
    if upto <= 0 {
        (Seq::empty(), Seq::empty())
    } else {
        let before = graph_of(deps, upto - 1, insts, s);
        let d = deps[upto - 1];
        if links_kept(d, insts, s) {
            let lines = with_node(with_node(before.0, d.from), d.to->0);
            (lines, with_edge(lines, before.1, d.from, d.to->0))
        } else {
            before
        }
    }
}

proof fn lemma_candidate_keys(insts: Seq<Instantiation>, s: RenderSettings, upto: int)
    requires
        0 <= upto <= insts.len(),
        insts.len() <= usize::MAX,
    ensures
        forall|e: (u64, usize)| #[trigger] candidate_keys(insts, s, upto).contains(e) ==> e.1 < upto && passes(insts[e.1 as int], s),
    decreases upto,
{
    let keys = candidate_keys(insts, s, upto);
    if upto > 0 {
        lemma_candidate_keys(insts, s, upto - 1);
        let rest = candidate_keys(insts, s, upto - 1);
        assert forall|e: (u64, usize)| #[trigger] keys.contains(e) implies e.1 < upto && passes(insts[e.1 as int], s) by {
            let i = choose|i: int| 0 <= i < keys.len() && keys[i] == e;
            if i < rest.len() {
                assert(rest[i] == e);
                assert(rest.contains(e));
            }
        }
    }
}

fn inst_passes(inst: &Instantiation, s: &RenderSettings) -> (r: bool)
    ensures
        r == passes(*inst, *s),
{
    match inst.line_no {
        Some(l) => l <= s.max_line_nr && (!s.exclude_theory_solving_inst || !inst.quant_discovered),
        None => false,
    }
}

impl Z3Parser {
    /// The graph of the log under the default settings: of the instantiations that
    /// pass, the costliest stay, and every dependency between two that stay becomes
    /// an edge between the nodes of their lines.
    pub fn get_instantiation_graph(&self) -> (graph: InstGraph)
        ensures
            graph.wf(),
            ({
                let s = RenderSettings { max_line_nr: usize::MAX, exclude_theory_solving_inst: true, max_instantiations: 100 };
                let g = graph_of(self.dependencies@, self.dependencies@.len() as int, self.instantiations@, s);
                graph.lines() == g.0 && graph.edges() == g.1
            }),
    {
        let settings = RenderSettings::default();
        let ghost s = settings;
        let ghost all = self.instantiations@;
        let total = self.instantiations.len();
        let mut insts = tivec_new();
        let mut k: usize = 0;
        while k < total
            invariant
                k <= total,
                total == all.len(),
                all == self.instantiations@,
                s == settings,
                tivec_items(insts) == candidate_keys(all, s, k as int),
            decreases total - k,
        {
            let inst = &self.instantiations[k];
            if inst_passes(inst, &settings) {
                tivec_push(&mut insts, (u64::MAX - inst.cost, k));
            }
            k += 1;
        }
        let ghost candidates = tivec_items(insts);
        tivec_sort(&mut insts);
        proof {
            lemma_key_order_total();
            lemma_ranking(candidates);
            vstd::seq_lib::lemma_sorted_unique(tivec_items(insts), ranking(candidates), key_order());
        }
        tivec_truncate(&mut insts, settings.max_instantiations);
        let ghost kept = tivec_items(insts);
        proof {
            lemma_candidate_keys(all, s, total as int);
            assert(kept == kept_keys(all, s));
            assert forall|j: int| 0 <= j < kept.len() implies (#[trigger] kept[j]).1 < total && passes(all[kept[j].1 as int], s) by {
                let e = kept[j];
                assert(ranking(candidates)[j] == e);
                assert(ranking(candidates).contains(e));
                assert(candidates.contains(e));
            }
        }
        let n = tivec_len(&insts);
        let mut insts_lines: HashSet<usize> = HashSet::new();
        let mut j: usize = 0;
        while j < n
            invariant
                j <= n,
                n == kept.len(),
                kept == tivec_items(insts),
                kept == kept_keys(all, s),
                total == all.len(),
                all == self.instantiations@,
                forall|i: int| 0 <= i < kept.len() ==> (#[trigger] kept[i]).1 < total && passes(all[kept[i].1 as int], s),
                forall|l: usize| insts_lines@.contains(l) <==> kept_line(all, s, j as int, l),
            decreases n - j,
        {
            let key = tivec_get(&insts, InstIdx(j));
            let ghost before = insts_lines@;
            let ghost _ = kept[j as int];
            match self.instantiations[key.1].line_no {
                Some(line) => {
                    insts_lines.insert(line);
                    proof {
                        assert forall|l: usize| insts_lines@.contains(l) <==> kept_line(all, s, j + 1, l) by {
                            if before.contains(l) {
                                let w = choose|w: int| 0 <= w < j && w < kept.len() && all[(#[trigger] kept[w]).1 as int].line_no == Some(l);
                                assert(kept_line(all, s, j + 1, l));
                            }
                            if l == line {
                                assert(all[kept[j as int].1 as int].line_no == Some(l));
                            }
                            if kept_line(all, s, j + 1, l) {
                                let w = choose|w: int| 0 <= w < j + 1 && w < kept.len() && all[(#[trigger] kept[w]).1 as int].line_no == Some(l);
                                if w < j {
                                    assert(kept_line(all, s, j as int, l));
                                }
                            }
                        }
                    }
                },
                None => {
                    assert(false);
                },
            }
            j += 1;
        }
        let mut graph = InstGraph::new();
        let deps = self.dependencies.len();
        let mut d: usize = 0;
        proof {
            assert(graph.lines() =~= Seq::<usize>::empty());
            assert(graph.edges() =~= Seq::<(usize, usize)>::empty());
        }
        while d < deps
            invariant
                d <= deps,
                deps == self.dependencies@.len(),
                all == self.instantiations@,
                n == kept_keys(all, s).len(),
                graph.wf(),
                forall|l: usize| insts_lines@.contains(l) <==> kept_line(all, s, n as int, l),
                graph.lines() == graph_of(self.dependencies@, d as int, all, s).0,
                graph.edges() == graph_of(self.dependencies@, d as int, all, s).1,
            decreases deps - d,
        {
            let dep = self.dependencies[d];
            if dep.from > 0 {
                let from = dep.from;
                match dep.to {
                    Some(to) => {
                        if insts_lines.contains(&from) && insts_lines.contains(&to) {
                            graph.add_node(from);
                            graph.add_node(to);
                            graph.add_edge(from, to);
                        }
                    },
                    None => {},
                }
            }
            d += 1;
        }
        graph
    }
}

} // verus!
