//! The summary of a trace: how many nodes of each kind the graph has, and how often
//! each quantifier that the user named was instantiated.

use crate::items::{InstIdx, Z3Parser};
use crate::order::{lemma_ranking, rank_keys, ranking, top_of};
use crate::raw::{Node, NodeIndex, NodeKind, RawInstGraph};
use crate::text::{decimal, decimal_digits};
use vstd::prelude::*;

verus! {

/// How many nodes of each kind a graph has.
#[derive(Clone, Copy, PartialEq, Eq, Structural, Debug)]
pub struct KindCounts {
    pub enodes: usize,
    pub given_equalities: usize,
    pub trans_equalities: usize,
    pub instantiations: usize,
}

/// A number for each kind of node.
pub open spec fn kind_tag(kind: NodeKind) -> int {
    match kind {
        NodeKind::ENode(_) => 0,
        NodeKind::GivenEquality(_) => 1,
        NodeKind::TransEquality(_) => 2,
        NodeKind::Instantiation(_) => 3,
    }
}

/// How many of the first `upto` nodes are of the kind with the number `tag`.
pub open spec fn count_kind(nodes: Seq<Node>, upto: int, tag: int) -> nat
    decreases upto,
{
    if upto <= 0 {
        0
    } else {
        count_kind(nodes, upto - 1, tag) + if kind_tag(nodes[upto - 1].kind) == tag { 1nat } else { 0nat }
    }
}

/// The quantifier of instantiation `i`, where the trace holds it and the user named it.
pub open spec fn user_quant_of(parser: &Z3Parser, i: int) -> Option<usize> {
    if 0 <= i < parser.instantiations@.len() {
        match parser.spec_match_of(InstIdx(i as usize)) {
            Some(m) => match m.kind.spec_quant_idx() {
                Some(q) => if q.0 < parser.quantifiers@.len() && parser.quantifiers@[q.0 as int].user_named {
                    Some(q.0)
                } else {
                    None
                },
                None => None,
            },
            None => None,
        }
    } else {
        None
    }
}

/// Whether two quantifiers carry the same name and the user gave it to both.
pub open spec fn same_name(parser: &Z3Parser, a: int, b: int) -> bool {
    &&& parser.quantifiers@[a].user_named
    &&& parser.quantifiers@[b].user_named
    &&& parser.quantifiers@[a].name@ == parser.quantifiers@[b].name@
}

/// The first quantifier from `from` on that carries the name of `q`; `q` itself
/// where none before it does. Quantifiers of one name are counted under the first.
pub open spec fn first_named(parser: &Z3Parser, q: int, from: int) -> int
    decreases q - from,
{
    if from >= q {
        q
    } else if same_name(parser, from, q) {
        from
    } else {
        first_named(parser, q, from + 1)
    }
}

/// How many of the first `upto` instantiations are of a quantifier with the name of
/// quantifier `r`, where `r` is the first of that name.
pub open spec fn occurrences(parser: &Z3Parser, r: int, upto: int) -> nat
    decreases upto,
{
    if upto <= 0 {
        0
    } else {
        occurrences(parser, r, upto - 1) + match user_quant_of(parser, upto - 1) {
            Some(q) => if first_named(parser, q as int, 0) == r { 1nat } else { 0nat },
            None => 0nat,
        }
    }
}

/// For each of the first `upto` quantifiers that was instantiated under its name:
/// a key that ranks the more often instantiated first.
pub open spec fn occurrence_keys(parser: &Z3Parser, upto: int) -> Seq<(u64, usize)>
    decreases upto,
{
    if upto <= 0 {
        Seq::empty()
    } else {
        let rest = occurrence_keys(parser, upto - 1);
        let n = occurrences(parser, upto - 1, parser.instantiations@.len() as int);
        if n > 0 {
            rest.push(((u64::MAX - n) as u64, (upto - 1) as usize))
        } else {
            rest
        }
    }
}

/// The keys of the named quantifiers, the most often instantiated first and among
/// equals the earlier quantifier first; all of them, or the first `k`.
pub open spec fn top_keys(parser: &Z3Parser, top_k: Option<usize>) -> Seq<(u64, usize)> {
    let ranked = ranking(occurrence_keys(parser, parser.quantifiers@.len() as int));
    match top_k {
        Some(k) => top_of(ranked, k),
        None => ranked,
    }
}

/// Whether `e` names the quantifier of `key` and gives the number of its
/// instantiations.
pub open spec fn names_count(parser: &Z3Parser, key: (u64, usize), e: (String, usize)) -> bool {
    &&& key.1 < parser.quantifiers@.len()
    &&& e.0@ == parser.quantifiers@[key.1 as int].name@
    &&& e.1 == occurrences(parser, key.1 as int, parser.instantiations@.len() as int)
}

proof fn lemma_count_kind_bound(nodes: Seq<Node>, upto: int, tag: int)
    requires
        0 <= upto,
    ensures
        count_kind(nodes, upto, tag) <= upto,
    decreases upto,
{
    if upto > 0 {
        lemma_count_kind_bound(nodes, upto - 1, tag);
    }
}

proof fn lemma_count_kind_sum(nodes: Seq<Node>, upto: int)
    requires
        0 <= upto,
    ensures
        count_kind(nodes, upto, 0) + count_kind(nodes, upto, 1) + count_kind(nodes, upto, 2) + count_kind(nodes, upto, 3) == upto,
    decreases upto,
{
    if upto > 0 {
        lemma_count_kind_sum(nodes, upto - 1);
    }
}

proof fn lemma_occurrences_bound(parser: &Z3Parser, r: int, upto: int)
    requires
        0 <= upto,
    ensures
        occurrences(parser, r, upto) <= upto,
    decreases upto,
{
    if upto > 0 {
        lemma_occurrences_bound(parser, r, upto - 1);
    }
}

proof fn lemma_first_named_range(parser: &Z3Parser, q: int, from: int)
    requires
        0 <= from <= q,
    ensures
        from <= first_named(parser, q, from) <= q,
    decreases q - from,
{
    if from < q && !same_name(parser, from, q) {
        lemma_first_named_range(parser, q, from + 1);
    }
}

proof fn lemma_occurrence_keys(parser: &Z3Parser, upto: int)
    requires
        0 <= upto <= parser.quantifiers@.len(),
        parser.quantifiers@.len() <= usize::MAX,
        parser.instantiations@.len() <= usize::MAX,
    ensures
        forall|e: (u64, usize)| #[trigger] occurrence_keys(parser, upto).contains(e) ==> e.1 < upto && e.0 == u64::MAX - occurrences(
            parser,
            e.1 as int,
            parser.instantiations@.len() as int,
        ),
    decreases upto,
{
    let s = occurrence_keys(parser, upto);
    if upto > 0 {
        lemma_occurrence_keys(parser, upto - 1);
        lemma_occurrences_bound(parser, upto - 1, parser.instantiations@.len() as int);
        let rest = occurrence_keys(parser, upto - 1);
        assert forall|e: (u64, usize)| #[trigger] s.contains(e) implies e.1 < upto && e.0 == u64::MAX - occurrences(
            parser,
            e.1 as int,
            parser.instantiations@.len() as int,
        ) by {
            let i = choose|i: int| 0 <= i < s.len() && s[i] == e;
            if i < rest.len() {
                assert(rest[i] == e);
                assert(rest.contains(e));
            }
        }
    }
}

/// The line `key: n`.
pub open spec fn count_line(key: Seq<char>, n: nat) -> Seq<char> {
    key + ": "@ + decimal_digits(n)
}

/// The line `name = n`.
pub open spec fn top_line(name: Seq<char>, n: nat) -> Seq<char> {
    name + " = "@ + decimal_digits(n)
}

fn line_of_count(key: &str, n: usize) -> (r: String)
    ensures
        r@ == count_line(key@, n as nat),
{
    let mut r = String::from_str(key);
    r.append(": ");
    r.append(decimal(n).as_str());
    r
}

/// Counts the nodes of each kind.
pub fn count_kinds(graph: &RawInstGraph) -> (c: KindCounts)
    ensures
        c.enodes == count_kind(graph.nodes(), graph.nodes().len() as int, 0),
        c.given_equalities == count_kind(graph.nodes(), graph.nodes().len() as int, 1),
        c.trans_equalities == count_kind(graph.nodes(), graph.nodes().len() as int, 2),
        c.instantiations == count_kind(graph.nodes(), graph.nodes().len() as int, 3),
        c.enodes + c.given_equalities + c.trans_equalities + c.instantiations == graph.nodes().len(),
{
    let len = graph.node_count();
    let mut c = KindCounts { enodes: 0, given_equalities: 0, trans_equalities: 0, instantiations: 0 };
    let mut i: usize = 0;
    while i < len
        invariant
            i <= len,
            len == graph.nodes().len(),
            c.enodes == count_kind(graph.nodes(), i as int, 0),
            c.given_equalities == count_kind(graph.nodes(), i as int, 1),
            c.trans_equalities == count_kind(graph.nodes(), i as int, 2),
            c.instantiations == count_kind(graph.nodes(), i as int, 3),
        decreases len - i,
    {
        proof {
            lemma_count_kind_bound(graph.nodes(), i as int, 0);
            lemma_count_kind_bound(graph.nodes(), i as int, 1);
            lemma_count_kind_bound(graph.nodes(), i as int, 2);
            lemma_count_kind_bound(graph.nodes(), i as int, 3);
        }
        match graph.node(NodeIndex(i)) {
            Some(node) => match node.kind() {
                NodeKind::ENode(_) => {
                    c.enodes += 1;
                },
                NodeKind::GivenEquality(_) => {
                    c.given_equalities += 1;
                },
                NodeKind::TransEquality(_) => {
                    c.trans_equalities += 1;
                },
                NodeKind::Instantiation(_) => {
                    c.instantiations += 1;
                },
            },
            None => {},
        }
        i += 1;
    }
    proof {
        lemma_count_kind_sum(graph.nodes(), len as int);
    }
    c
}

fn user_quant(parser: &Z3Parser, i: usize) -> (r: Option<usize>)
    ensures
        r == user_quant_of(parser, i as int),
{
    if i >= parser.instantiations.len() {
        return None;
    }
    match parser.match_of(InstIdx(i)) {
        Some(m) => match m.kind.quant_idx() {
            Some(q) => match parser.quantifier(q) {
                Some(quant) => if quant.user_named {
                    Some(q.0)
                } else {
                    None
                },
                None => None,
            },
            None => None,
        },
        None => None,
    }
}

/// For every quantifier the first quantifier of its name.
fn first_of_each_name(parser: &Z3Parser) -> (firsts: Vec<usize>)
    ensures
        firsts@.len() == parser.quantifiers@.len(),
        forall|q: int| 0 <= q < firsts@.len() ==> (#[trigger] firsts@[q]) == first_named(parser, q, 0),
        forall|q: int| 0 <= q < firsts@.len() ==> (#[trigger] firsts@[q]) < firsts@.len(),
{
    let total = parser.quantifiers.len();
    let mut firsts: Vec<usize> = Vec::new();
    let mut q: usize = 0;
    while q < total
        invariant
            q <= total,
            total == parser.quantifiers@.len(),
            firsts@.len() == q,
            forall|k: int| 0 <= k < q ==> (#[trigger] firsts@[k]) == first_named(parser, k, 0),
            forall|k: int| 0 <= k < q ==> (#[trigger] firsts@[k]) < total,
        decreases total - q,
    {
        let mut j: usize = 0;
        let mut found = q;
        while j < q && found == q
            invariant
                j <= q,
                q < total,
                total == parser.quantifiers@.len(),
                found <= q,
                found == q ==> first_named(parser, q as int, 0) == first_named(parser, q as int, j as int),
                found != q ==> found == first_named(parser, q as int, 0),
            decreases q - j + (if found == q { 1int } else { 0int }),
        {
            let a = &parser.quantifiers[j];
            let b = &parser.quantifiers[q];
            if a.user_named && b.user_named && a.name == b.name {
                found = j;
            } else {
                j += 1;
            }
        }
        proof {
            lemma_first_named_range(parser, q as int, 0);
        }
        firsts.push(found);
        q += 1;
    }
    firsts
}

/// The quantifiers that the user named, each with the number of its
/// instantiations, the most often instantiated first; among equal numbers the
/// quantifier that the trace met first. Quantifiers of one name count as one.
/// With `top_k`, the list ends after that many.
pub fn top_instantiations(parser: &Z3Parser, top_k: Option<usize>) -> (out: Vec<(String, usize)>)
    ensures
        out@.len() == top_keys(parser, top_k).len(),
        forall|j: int| 0 <= j < out@.len() ==> names_count(parser, top_keys(parser, top_k)[j], #[trigger] out@[j]),
{
    let total = parser.quantifiers.len();
    let insts = parser.instantiations.len();
    let firsts = first_of_each_name(parser);
    let mut counts: Vec<usize> = Vec::new();
    let mut f: usize = 0;
    while f < total
        invariant
            f <= total,
            counts@.len() == f,
            forall|k: int| 0 <= k < f ==> (#[trigger] counts@[k]) == 0,
        decreases total - f,
    {
        counts.push(0);
        f += 1;
    }
    let mut i: usize = 0;
    while i < insts
        invariant
            i <= insts,
            insts == parser.instantiations@.len(),
            total == parser.quantifiers@.len(),
            counts@.len() == total,
            firsts@.len() == total,
            forall|q: int| 0 <= q < total ==> (#[trigger] firsts@[q]) == first_named(parser, q, 0),
            forall|q: int| 0 <= q < total ==> (#[trigger] firsts@[q]) < total,
            forall|r: int| 0 <= r < total ==> (#[trigger] counts@[r]) == occurrences(parser, r, i as int),
        decreases insts - i,
    {
        match user_quant(parser, i) {
            Some(q) => {
                let r = firsts[q];
                proof {
                    lemma_occurrences_bound(parser, r as int, i as int);
                }
                let n = counts[r];
                counts.set(r, n + 1);
            },
            None => {},
        }
        i += 1;
    }
    let mut keys: Vec<(u64, usize)> = Vec::new();
    let mut r: usize = 0;
    while r < total
        invariant
            r <= total,
            total == parser.quantifiers@.len(),
            insts == parser.instantiations@.len(),
            counts@.len() == total,
            forall|k: int| 0 <= k < total ==> (#[trigger] counts@[k]) == occurrences(parser, k, insts as int),
            keys@ == occurrence_keys(parser, r as int),
        decreases total - r,
    {
        let n = counts[r];
        if n > 0 {
            keys.push((u64::MAX - n as u64, r));
        }
        r += 1;
    }
    let ghost all = keys@;
    let ranked = rank_keys(keys);
    let m = match top_k {
        Some(k) => if k < ranked.len() {
            k
        } else {
            ranked.len()
        },
        None => ranked.len(),
    };
    proof {
        lemma_ranking(all);
        lemma_occurrence_keys(parser, total as int);
        assert forall|e: (u64, usize)| #[trigger] ranked@.contains(e) implies e.1 < total && e.0 == u64::MAX - occurrences(
            parser,
            e.1 as int,
            insts as int,
        ) by {
            assert(ranking(all).contains(e));
            assert(all.contains(e));
            assert(occurrence_keys(parser, total as int).contains(e));
        }
        let shown = top_keys(parser, top_k);
        assert(shown.len() == m);
        assert forall|k: int| 0 <= k < m implies shown[k] == ranked@[k] by {}
    }
    let mut out: Vec<(String, usize)> = Vec::new();
    let mut j: usize = 0;
    while j < m
        invariant
            j <= m,
            m <= ranked@.len(),
            m == top_keys(parser, top_k).len(),
            forall|k: int| 0 <= k < m ==> top_keys(parser, top_k)[k] == ranked@[k],
            total == parser.quantifiers@.len(),
            insts == parser.instantiations@.len(),
            counts@.len() == total,
            forall|k: int| 0 <= k < total ==> (#[trigger] counts@[k]) == occurrences(parser, k, insts as int),
            forall|e: (u64, usize)| #[trigger] ranked@.contains(e) ==> e.1 < total,
            out@.len() == j,
            forall|k: int| 0 <= k < j ==> names_count(parser, ranked@[k], #[trigger] out@[k]),
        decreases m - j,
    {
        let key = ranked[j];
        assert(ranked@.contains(key));
        out.push((parser.quantifiers[key.1].name.clone(), counts[key.1]));
        j += 1;
    }
    out
}

/// The lines of the summary: the count of each kind of node, the count of all
/// nodes, a heading, and one line for each named quantifier of
/// `top_instantiations`.
pub fn summary_lines(graph: &RawInstGraph, parser: &Z3Parser, top_k: Option<usize>) -> (lines: Vec<String>)
    ensures
        lines@.len() == 6 + top_keys(parser, top_k).len(),
        lines@[0]@ == count_line("no-enodes"@, count_kind(graph.nodes(), graph.nodes().len() as int, 0)),
        lines@[1]@ == count_line("no-given-equalities"@, count_kind(graph.nodes(), graph.nodes().len() as int, 1)),
        lines@[2]@ == count_line("no-trans-equalities"@, count_kind(graph.nodes(), graph.nodes().len() as int, 2)),
        lines@[3]@ == count_line("no-instantiations"@, count_kind(graph.nodes(), graph.nodes().len() as int, 3)),
        lines@[4]@ == count_line("nodes-count"@, graph.nodes().len()),
        lines@[5]@ == "top-instantiations="@,
        forall|j: int| 0 <= j < top_keys(parser, top_k).len() ==> {
            let key = top_keys(parser, top_k)[j];
            (#[trigger] lines@[6 + j])@ == top_line(
                parser.quantifiers@[key.1 as int].name@,
                occurrences(parser, key.1 as int, parser.instantiations@.len() as int),
            )
        },
{
    let c = count_kinds(graph);
    let top = top_instantiations(parser, top_k);
    let mut lines: Vec<String> = Vec::new();
    lines.push(line_of_count("no-enodes", c.enodes));
    lines.push(line_of_count("no-given-equalities", c.given_equalities));
    lines.push(line_of_count("no-trans-equalities", c.trans_equalities));
    lines.push(line_of_count("no-instantiations", c.instantiations));
    lines.push(line_of_count("nodes-count", graph.node_count()));
    lines.push(String::from_str("top-instantiations="));
    let mut j: usize = 0;
    while j < top.len()
        invariant
            j <= top@.len(),
            lines@.len() == 6 + j,
            top@.len() == top_keys(parser, top_k).len(),
            lines@[0]@ == count_line("no-enodes"@, count_kind(graph.nodes(), graph.nodes().len() as int, 0)),
            lines@[1]@ == count_line("no-given-equalities"@, count_kind(graph.nodes(), graph.nodes().len() as int, 1)),
            lines@[2]@ == count_line("no-trans-equalities"@, count_kind(graph.nodes(), graph.nodes().len() as int, 2)),
            lines@[3]@ == count_line("no-instantiations"@, count_kind(graph.nodes(), graph.nodes().len() as int, 3)),
            lines@[4]@ == count_line("nodes-count"@, graph.nodes().len()),
            lines@[5]@ == "top-instantiations="@,
            forall|k: int| 0 <= k < top@.len() ==> names_count(parser, top_keys(parser, top_k)[k], #[trigger] top@[k]),
            forall|k: int| 0 <= k < j ==> {
                let key = top_keys(parser, top_k)[k];
                (#[trigger] lines@[6 + k])@ == top_line(
                    parser.quantifiers@[key.1 as int].name@,
                    occurrences(parser, key.1 as int, parser.instantiations@.len() as int),
                )
            },
        decreases top@.len() - j,
    {
        let mut line = top[j].0.clone();
        line.append(" = ");
        line.append(decimal(top[j].1).as_str());
        let ghost before = lines@;
        lines.push(line);
        proof {
            assert forall|k: int| 0 <= k < j + 1 implies {
                let key = top_keys(parser, top_k)[k];
                (#[trigger] lines@[6 + k])@ == top_line(
                    parser.quantifiers@[key.1 as int].name@,
                    occurrences(parser, key.1 as int, parser.instantiations@.len() as int),
                )
            } by {
                if k < j {
                    assert(lines@[6 + k] == before[6 + k]);
                } else {
                    let _ = top@[k];
                }
            }
        }
        j += 1;
    }
    lines
}

} // verus!
