//! The instantiation graph of a session, with the operations that bound what is
//! shown by cost and that recompute the disabler flags.

use crate::digraph::{neighbors_of, Direction};
use crate::items::Z3Parser;
use crate::order::{beyond, key_le, lemma_ranking, rank_keys, ranking, top_of};
use crate::raw::{handles, visibility_many, Node, NodeIndex, RawInstGraph};
use vstd::prelude::*;

verus! {

/// The key that ranks a node by cost: a lower key is a higher cost, and among equal
/// costs a lower number.
pub open spec fn cost_key(nodes: Seq<Node>, i: usize) -> (u64, usize) {
    ((u64::MAX - nodes[i as int].cost) as u64, i)
}

/// The keys of the visible nodes among the first `k`.
pub open spec fn visible_keys(nodes: Seq<Node>, k: int) -> Seq<(u64, usize)>
    decreases k,
{
    if k <= 0 {
        Seq::empty()
    } else {
        let rest = visible_keys(nodes, k - 1);
        if nodes[k - 1].spec_visible() {
            rest.push(cost_key(nodes, (k - 1) as usize))
        } else {
            rest
        }
    }
}

/// The keys of the `n` costliest visible nodes, costliest first.
pub open spec fn top_keys(nodes: Seq<Node>, n: usize) -> Seq<(u64, usize)> {
    top_of(ranking(visible_keys(nodes, nodes.len() as int)), n)
}

/// The nodes after all visible ones but the `n` costliest were hidden.
pub open spec fn keep_top(nodes: Seq<Node>, n: usize) -> Seq<Node> {
    Seq::new(
        nodes.len(),
        |i: int| if nodes[i].spec_visible() && !top_keys(nodes, n).contains(cost_key(nodes, i as usize)) {
            nodes[i].with_hidden(true)
        } else {
            nodes[i]
        },
    )
}

/// The keys of the nodes in `children`.
pub open spec fn child_keys(nodes: Seq<Node>, children: Seq<usize>) -> Seq<(u64, usize)> {
    Seq::new(children.len(), |k: int| cost_key(nodes, children[k]))
}

/// The keys of the children of `u` that are over the limit of `n`: all but the `n`
/// costliest of the far ends of the edges that leave `u`.
pub open spec fn excess_of(nodes: Seq<Node>, edges: Seq<(usize, usize)>, u: usize, n: usize) -> Seq<(u64, usize)> {
    beyond(ranking(child_keys(nodes, neighbors_of(edges, u, Direction::Outgoing))), n)
}

/// Whether `c` is over the limit of `n` children at one of the first `parents` nodes.
pub open spec fn is_excess(nodes: Seq<Node>, edges: Seq<(usize, usize)>, n: usize, parents: int, c: usize) -> bool {
    exists|u: usize| u < parents && (#[trigger] excess_of(nodes, edges, u, n)).contains(cost_key(nodes, c))
}

/// The nodes after every node that is over the limit at some parent was hidden.
pub open spec fn cap_children(nodes: Seq<Node>, edges: Seq<(usize, usize)>, n: usize) -> Seq<Node> {
    Seq::new(
        nodes.len(),
        |i: int| if is_excess(nodes, edges, n, nodes.len() as int, i as usize) { nodes[i].with_hidden(true) } else { nodes[i] },
    )
}

proof fn lemma_visible_keys(nodes: Seq<Node>, k: int)
    requires
        0 <= k <= nodes.len(),
        nodes.len() <= usize::MAX,
    ensures
        forall|e: (u64, usize)| #[trigger] visible_keys(nodes, k).contains(e) <==> e.1 < k && nodes[e.1 as int].spec_visible() && e == cost_key(nodes, e.1),
    decreases k,
{
    let s = visible_keys(nodes, k);
    if k > 0 {
        lemma_visible_keys(nodes, k - 1);
        let rest = visible_keys(nodes, k - 1);
        let last = cost_key(nodes, (k - 1) as usize);
        assert forall|e: (u64, usize)| #[trigger] s.contains(e) <==> e.1 < k && nodes[e.1 as int].spec_visible() && e == cost_key(nodes, e.1) by {
            if nodes[k - 1].spec_visible() {
                assert(s == rest.push(last));
                if s.contains(e) {
                    let i = choose|i: int| 0 <= i < s.len() && s[i] == e;
                    if i < rest.len() {
                        assert(rest[i] == e);
                        assert(rest.contains(e));
                    }
                }
                if rest.contains(e) {
                    let i = choose|i: int| 0 <= i < rest.len() && rest[i] == e;
                    assert(s[i] == e);
                }
                if e == last {
                    assert(s[rest.len() as int] == e);
                }
            }
        }
    } else {
        assert forall|e: (u64, usize)| !(#[trigger] s.contains(e)) by {}
    }
}

/// Keeping by cost prefers the costlier: a node that stays visible costs more than
/// any node that the same call hides, or as much and has the lower number.
pub proof fn lemma_keep_top_prefers_costlier(nodes: Seq<Node>, n: usize, i: int, j: int)
    requires
        nodes.len() <= usize::MAX,
        0 <= i < nodes.len(),
        0 <= j < nodes.len(),
        nodes[i].spec_visible(),
        nodes[j].spec_visible(),
        keep_top(nodes, n)[i].spec_visible(),
        !keep_top(nodes, n)[j].spec_visible(),
    ensures
        nodes[i].cost > nodes[j].cost || (nodes[i].cost == nodes[j].cost && i < j),
{
    let all = visible_keys(nodes, nodes.len() as int);
    let ranked = ranking(all);
    let top = top_keys(nodes, n);
    let ki = cost_key(nodes, i as usize);
    let kj = cost_key(nodes, j as usize);
    lemma_visible_keys(nodes, nodes.len() as int);
    lemma_ranking(all);
    assert(top.contains(ki));
    assert(!top.contains(kj));
    let w = choose|w: int| 0 <= w < top.len() && top[w] == ki;
    assert(ranked[w] == ki);
    assert(all.contains(kj));
    assert(ranked.contains(kj));
    let v = choose|v: int| 0 <= v < ranked.len() && ranked[v] == kj;
    if v < top.len() {
        assert(top[v] == kj);
    }
    assert(w < v);
    assert(key_le(ranked[w], ranked[v])) by {
        assert(crate::order::key_order()(ranked[w], ranked[v]));
    }
}

/// Keeping by cost shows nothing and hides only what was visible: the keys that
/// stay are at most `n`.
pub proof fn lemma_keep_top_only_hides(nodes: Seq<Node>, n: usize, i: int)
    requires
        0 <= i < nodes.len(),
    ensures
        top_keys(nodes, n).len() <= n,
        keep_top(nodes, n)[i].hidden ==> nodes[i].hidden || nodes[i].spec_visible(),
        nodes[i].hidden ==> keep_top(nodes, n)[i].hidden,
        keep_top(nodes, n)[i] == nodes[i].with_hidden(keep_top(nodes, n)[i].hidden),
{
}

/// Whether one of the first `k` keys of `ranked` is the key of node `i`.
spec fn marked(ranked: Seq<(u64, usize)>, k: int, i: int) -> bool {
    exists|j: int| 0 <= j < k && (#[trigger] ranked[j]).1 == i
}

pub struct InstGraph {
    pub raw: RawInstGraph,
}

impl InstGraph {
    /// The graph without nodes.
    pub fn new() -> (g: Self)
        ensures
            g.raw.wf(),
            g.raw.nodes().len() == 0,
            g.raw.edges().len() == 0,
    {
        InstGraph { raw: RawInstGraph::new() }
    }

    /// Keeps of the visible nodes the `n` with the highest cost, among equal costs
    /// those with the lower numbers, and hides the rest. Nodes that were not
    /// visible stay as they are.
    pub fn keep_first_n_cost(&mut self, n: usize)
        requires
            old(self).raw.wf(),
        ensures
            final(self).raw.wf(),
            final(self).raw.edges() == old(self).raw.edges(),
            final(self).raw.kinds() == old(self).raw.kinds(),
            final(self).raw.nodes() == keep_top(old(self).raw.nodes(), n),
    {
        let ghost nodes = self.raw.nodes();
        let len = self.raw.node_count();
        let mut keys: Vec<(u64, usize)> = Vec::new();
        let mut i: usize = 0;
        while i < len
            invariant
                i <= len,
                len == nodes.len(),
                nodes == self.raw.nodes(),
                keys@ == visible_keys(nodes, i as int),
            decreases len - i,
        {
            match self.raw.node(NodeIndex(i)) {
                Some(node) => {
                    if node.visible() {
                        keys.push((u64::MAX - node.cost, i));
                    }
                },
                None => {},
            }
            i += 1;
        }
        let ghost all = keys@;
        let ranked = rank_keys(keys);
        let m = if n < ranked.len() { n } else { ranked.len() };
        proof {
            lemma_visible_keys(nodes, len as int);
            lemma_ranking(all);
        }
        let mut keep: Vec<bool> = Vec::new();
        let mut f: usize = 0;
        while f < len
            invariant
                f <= len,
                keep@.len() == f,
                forall|j: int| 0 <= j < f ==> !(#[trigger] keep@[j]),
            decreases len - f,
        {
            keep.push(false);
            f += 1;
        }
        let mut k: usize = 0;
        while k < m
            invariant
                k <= m,
                m <= ranked@.len(),
                keep@.len() == len,
                len == nodes.len(),
                ranked@ == ranking(all),
                all == visible_keys(nodes, len as int),
                forall|e: (u64, usize)| ranking(all).contains(e) <==> all.contains(e),
                forall|e: (u64, usize)| #[trigger] all.contains(e) <==> e.1 < len && nodes[e.1 as int].spec_visible() && e == cost_key(nodes, e.1),
                forall|j: int| 0 <= j < len ==> (#[trigger] keep@[j] <==> marked(ranked@, k as int, j)),
            decreases m - k,
        {
            let key = ranked[k];
            proof {
                assert(ranked@.contains(key));
                assert(all.contains(key));
            }
            let ghost before = keep@;
            keep.set(key.1, true);
            proof {
                assert forall|j: int| 0 <= j < len implies (#[trigger] keep@[j] <==> marked(ranked@, k + 1, j)) by {
                    if before[j] {
                        let w = choose|w: int| 0 <= w < k && (#[trigger] ranked@[w]).1 == j;
                        assert(marked(ranked@, k + 1, j));
                    }
                    if j == key.1 {
                        assert(ranked@[k as int].1 == j);
                    }
                    if marked(ranked@, k + 1, j) {
                        let w = choose|w: int| 0 <= w < k + 1 && (#[trigger] ranked@[w]).1 == j;
                        if w < k {
                            assert(marked(ranked@, k as int, j));
                        }
                    }
                }
            }
            k += 1;
        }
        let mut to_hide: Vec<NodeIndex> = Vec::new();
        let mut h: usize = 0;
        while h < len
            invariant
                h <= len,
                len == nodes.len(),
                keep@.len() == len,
                nodes == self.raw.nodes(),
                forall|j: int| #![trigger to_hide@.contains(NodeIndex(j as usize))] 0 <= j < len ==> (to_hide@.contains(NodeIndex(j as usize)) <==> j < h && nodes[j].spec_visible() && !keep@[j]),
                forall|w: int| 0 <= w < to_hide@.len() ==> (#[trigger] to_hide@[w]).0 < h,
            decreases len - h,
        {
            let ghost before = to_hide@;
            let mut pushed = false;
            match self.raw.node(NodeIndex(h)) {
                Some(node) => {
                    if node.visible() && !keep[h] {
                        to_hide.push(NodeIndex(h));
                        pushed = true;
                    }
                },
                None => {},
            }
            proof {
                assert forall|j: int| #![trigger to_hide@.contains(NodeIndex(j as usize))] 0 <= j < len implies (to_hide@.contains(NodeIndex(j as usize)) <==> j < h + 1 && nodes[j].spec_visible() && !keep@[j]) by {
                    let x = NodeIndex(j as usize);
                    if before.contains(x) {
                        let w = choose|w: int| 0 <= w < before.len() && before[w] == x;
                        assert(to_hide@[w] == x);
                    }
                    if to_hide@.contains(x) {
                        let w = choose|w: int| 0 <= w < to_hide@.len() && to_hide@[w] == x;
                        if w < before.len() {
                            assert(before[w] == x);
                            assert(before.contains(x));
                        }
                    }
                    if pushed && j == h {
                        assert(to_hide@[before.len() as int] == x);
                    }
                }
            }
            h += 1;
        }
        self.raw.set_visibility_many(true, &to_hide);
        proof {
            let top = top_keys(nodes, n);
            let goal = keep_top(nodes, n);
            assert(top == top_of(ranked@, n));
            assert forall|j: int| 0 <= j < len implies self.raw.nodes()[j] == goal[j] by {
                let key = cost_key(nodes, j as usize);
                if top.contains(key) {
                    let w = choose|w: int| 0 <= w < top.len() && top[w] == key;
                    assert(ranked@[w] == key);
                    assert(marked(ranked@, m as int, j));
                }
                if marked(ranked@, m as int, j) {
                    let w = choose|w: int| 0 <= w < m && (#[trigger] ranked@[w]).1 == j;
                    assert(ranked@.contains(ranked@[w]));
                    assert(all.contains(ranked@[w]));
                    assert(top[w] == key);
                }
            }
            assert(self.raw.nodes() =~= goal);
        }
    }

    /// The children of `u` that are over the limit of `n`.
    fn excess_children(&self, u: usize, n: usize) -> (out: Vec<NodeIndex>)
        requires
            self.raw.wf(),
            u < self.raw.nodes().len(),
        ensures
            forall|c: usize| #![trigger out@.contains(NodeIndex(c))]
                out@.contains(NodeIndex(c)) <==> excess_of(self.raw.nodes(), self.raw.edges(), u, n).contains(cost_key(self.raw.nodes(), c)),
    {
        let ghost nodes = self.raw.nodes();
        let ghost ns = neighbors_of(self.raw.edges(), u, Direction::Outgoing);
        let ghost ck = child_keys(nodes, ns);
        let children = self.raw.neighbors_directed(NodeIndex(u), Direction::Outgoing);
        let mut out: Vec<NodeIndex> = Vec::new();
        proof {
            lemma_ranking(ck);
        }
        if children.len() <= n {
            assert forall|c: usize| !(#[trigger] out@.contains(NodeIndex(c))) by {}
            return out;
        }
        let mut keys: Vec<(u64, usize)> = Vec::new();
        let mut j: usize = 0;
        while j < children.len()
            invariant
                j <= children@.len(),
                children@ == handles(ns),
                nodes == self.raw.nodes(),
                forall|i: int| 0 <= i < children@.len() ==> (#[trigger] children@[i]).0 < nodes.len(),
                keys@.len() == j,
                forall|i: int| 0 <= i < j ==> keys@[i] == cost_key(nodes, ns[i]),
            decreases children@.len() - j,
        {
            let child = children[j];
            match self.raw.node(child) {
                Some(node) => {
                    keys.push((u64::MAX - node.cost, child.0));
                },
                None => {
                    assert(false);
                },
            }
            j += 1;
        }
        assert(keys@ =~= ck);
        let ranked = rank_keys(keys);
        let mut k: usize = n;
        while k < ranked.len()
            invariant
                n <= k <= ranked@.len(),
                out@.len() == k - n,
                forall|w: int| 0 <= w < out@.len() ==> out@[w] == NodeIndex(ranked@[n + w].1),
            decreases ranked@.len() - k,
        {
            out.push(NodeIndex(ranked[k].1));
            k += 1;
        }
        proof {
            let excess = excess_of(nodes, self.raw.edges(), u, n);
            assert(excess == ranked@.skip(n as int));
            assert forall|c: usize| #![trigger out@.contains(NodeIndex(c))] out@.contains(NodeIndex(c)) <==> excess.contains(cost_key(nodes, c)) by {
                let key = cost_key(nodes, c);
                if out@.contains(NodeIndex(c)) {
                    let w = choose|w: int| 0 <= w < out@.len() && out@[w] == NodeIndex(c);
                    let e = ranked@[n + w];
                    assert(ranked@.contains(e));
                    assert(ck.contains(e));
                    let i = choose|i: int| 0 <= i < ck.len() && ck[i] == e;
                    assert(e == key);
                    assert(excess[w] == key);
                }
                if excess.contains(key) {
                    let w = choose|w: int| 0 <= w < excess.len() && excess[w] == key;
                    assert(out@[w] == NodeIndex(c));
                }
            }
        }
        out
    }

    /// Bounds the branching: at every node with more than `n` outgoing edges, the
    /// far ends of its edges are ranked by cost, among equal costs by number, and
    /// all after the first `n` are hidden. A node is hidden if any parent ranks it
    /// so; no node is shown by this.
    pub fn keep_first_n_children(&mut self, n: usize)
        requires
            old(self).raw.wf(),
        ensures
            final(self).raw.wf(),
            final(self).raw.edges() == old(self).raw.edges(),
            final(self).raw.kinds() == old(self).raw.kinds(),
            final(self).raw.nodes() == cap_children(old(self).raw.nodes(), old(self).raw.edges(), n),
    {
        let ghost nodes = self.raw.nodes();
        let ghost edges = self.raw.edges();
        let len = self.raw.node_count();
        let mut to_hide: Vec<NodeIndex> = Vec::new();
        let mut u: usize = 0;
        while u < len
            invariant
                u <= len,
                len == nodes.len(),
                self.raw.wf(),
                nodes == self.raw.nodes(),
                edges == self.raw.edges(),
                forall|c: usize| #![trigger to_hide@.contains(NodeIndex(c))] to_hide@.contains(NodeIndex(c)) <==> is_excess(nodes, edges, n, u as int, c),
            decreases len - u,
        {
            let more = self.excess_children(u, n);
            let ghost before = to_hide@;
            let mut w: usize = 0;
            while w < more.len()
                invariant
                    w <= more@.len(),
                    to_hide@ == before + more@.take(w as int),
                decreases more@.len() - w,
            {
                to_hide.push(more[w]);
                assert(more@.take(w + 1) =~= more@.take(w as int).push(more@[w as int]));
                w += 1;
            }
            proof {
                assert(more@.take(more@.len() as int) =~= more@);
                assert forall|c: usize| #![trigger to_hide@.contains(NodeIndex(c))] to_hide@.contains(NodeIndex(c)) <==> is_excess(nodes, edges, n, u + 1, c) by {
                    let x = NodeIndex(c);
                    let key = cost_key(nodes, c);
                    if to_hide@.contains(x) {
                        let i = choose|i: int| 0 <= i < to_hide@.len() && to_hide@[i] == x;
                        if i < before.len() {
                            assert(before[i] == x);
                            assert(before.contains(x));
                            let p = choose|p: usize| p < u && (#[trigger] excess_of(nodes, edges, p, n)).contains(key);
                            assert(is_excess(nodes, edges, n, u + 1, c));
                        } else {
                            assert(more@[i - before.len()] == x);
                            assert(more@.contains(x));
                            assert(excess_of(nodes, edges, u, n).contains(key));
                        }
                    }
                    if is_excess(nodes, edges, n, u + 1, c) {
                        let p = choose|p: usize| p < u + 1 && (#[trigger] excess_of(nodes, edges, p, n)).contains(key);
                        if p < u {
                            assert(is_excess(nodes, edges, n, u as int, c));
                            assert(before.contains(x));
                            let i = choose|i: int| 0 <= i < before.len() && before[i] == x;
                            assert(to_hide@[i] == x);
                        } else {
                            assert(more@.contains(x));
                            let i = choose|i: int| 0 <= i < more@.len() && more@[i] == x;
                            assert(to_hide@[before.len() + i] == x);
                        }
                    }
                }
            }
            u += 1;
        }
        self.raw.set_visibility_many(true, &to_hide);
        proof {
            let goal = cap_children(nodes, edges, n);
            assert forall|j: int| 0 <= j < len implies self.raw.nodes()[j] == goal[j] by {
                let _ = to_hide@.contains(NodeIndex(j as usize));
            }
            assert(self.raw.nodes() =~= goal);
        }
    }

    /// Recomputes the disabler flag of every node from scratch: the flag of a node
    /// becomes what `predicate` answers for it on the graph as it was before the
    /// call, whatever the flag was. Nothing else changes.
    pub fn reset_disabled_to<F: Fn(NodeIndex, &RawInstGraph) -> bool>(&mut self, _parser: &Z3Parser, predicate: F)
        requires
            old(self).raw.wf(),
            forall|i: NodeIndex| #[trigger] call_requires(predicate, (i, &old(self).raw)),
        ensures
            final(self).raw.wf(),
            final(self).raw.edges() == old(self).raw.edges(),
            final(self).raw.kinds() == old(self).raw.kinds(),
            final(self).raw.nodes().len() == old(self).raw.nodes().len(),
            forall|i: int| 0 <= i < old(self).raw.nodes().len() ==> {
                &&& call_ensures(predicate, (NodeIndex(i as usize), &old(self).raw), (#[trigger] final(self).raw.nodes()[i]).disabled)
                &&& final(self).raw.nodes()[i] == old(self).raw.nodes()[i].with_disabled(final(self).raw.nodes()[i].disabled)
            },
    {
        let len = self.raw.node_count();
        let mut flags: Vec<bool> = Vec::new();
        let mut i: usize = 0;
        while i < len
            invariant
                i <= len,
                len == self.raw.nodes().len(),
                self.raw == old(self).raw,
                forall|x: NodeIndex| #[trigger] call_requires(predicate, (x, &old(self).raw)),
                flags@.len() == i,
                forall|j: int| 0 <= j < i ==> call_ensures(predicate, (NodeIndex(j as usize), &old(self).raw), #[trigger] flags@[j]),
            decreases len - i,
        {
            let d = predicate(NodeIndex(i), &self.raw);
            flags.push(d);
            i += 1;
        }
        self.raw.set_disabled_all(&flags);
        proof {
            assert forall|j: int| 0 <= j < len implies {
                &&& call_ensures(predicate, (NodeIndex(j as usize), &old(self).raw), (#[trigger] self.raw.nodes()[j]).disabled)
                &&& self.raw.nodes()[j] == old(self).raw.nodes()[j].with_disabled(self.raw.nodes()[j].disabled)
            } by {
                let _ = flags@[j];
            }
        }
    }
}

} // verus!
