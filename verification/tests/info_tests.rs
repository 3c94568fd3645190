use axiom_profiler::display::{
    show_enode, show_eq_given, show_eq_trans, show_quant_body, show_quant_name, show_term, DisplayConfiguration, DisplayCtxt,
};
use axiom_profiler::inst_graph::InstGraph;
use axiom_profiler::items::{
    Dependency, ENodeIdx, EqGivenIdx, EqTransIdx, InstIdx, Instantiation, Match, MatchIdx, MatchKind, QuantIdx, Quantifier, Term, TermId,
    TermIdx, TriggerMatch, Z3Parser,
};
use axiom_profiler::node_info::{label_of, name_of, EdgeInfo, InfoLineProps, NodeInfo, VisibleEdge, VisibleEdgeKind};
use axiom_profiler::raw::{Depth, EdgeIndex, EdgeKind, Node, NodeIndex, NodeKind};
use axiom_profiler::results::RenderSettings;
use axiom_profiler::stats::{count_kinds, summary_lines, top_instantiations, KindCounts};
use axiom_profiler::text::cut;

fn plain() -> DisplayConfiguration {
    DisplayConfiguration { html: false, limit_enode_chars: false, enode_char_limit: 0 }
}

fn node_of(kind: NodeKind) -> Node {
    Node { kind, cost: 0, fwd_depth: Depth { min: 0, max: 0 }, bwd_depth: Depth { min: 0, max: 0 }, generation: None, hidden: false, disabled: false }
}

fn term(text: &str, children: &[usize]) -> Term {
    Term { text: text.to_string(), child_ids: children.iter().map(|&c| TermIdx(c)).collect() }
}

fn inst(m: usize) -> Instantiation {
    Instantiation {
        match_: MatchIdx(m),
        z3_generation: None,
        resulting_term: None,
        yields_terms: Vec::new(),
        line_no: None,
        cost: 0,
        quant_discovered: false,
    }
}

/// Terms: 0 `(f x)`, 1 `(g y)`, 2 the pattern of both, 3 `x`, 4 the instance,
/// 5 the negated quantifier, 6 the disjunction, 7 the whole `quant-inst`.
/// Quantifier 0 is `sum_pos` with the variables `a` and `b`, quantifier 1 is a
/// lambda without names, quantifier 2 is a second `sum_pos`.
fn trace() -> Z3Parser {
    let mut p = Z3Parser::new();
    p.terms.push(term("(f x)", &[3]));
    p.terms.push(term("(g y)", &[]));
    p.terms.push(term("(pattern (f x) (g y))", &[0, 1]));
    p.terms.push(term("x", &[]));
    p.terms.push(term("(> (+ 1 2) 0)", &[]));
    p.terms.push(term("(not (forall ...))", &[]));
    p.terms.push(term("(or ...)", &[5, 4]));
    p.terms.push(term("(quant-inst ...)", &[6]));
    p.enodes.push("(f 1)".to_string());
    p.enodes.push("(g 22)".to_string());
    p.enodes.push("a very long term".to_string());
    p.eq_givens.push("a = b".to_string());
    p.eq_transes.push("a = c".to_string());
    p.eq_transes.push("b = c".to_string());
    p.quantifiers.push(Quantifier {
        name: "sum_pos".to_string(),
        user_named: true,
        body: "(forall ((a Int) (b Int)) ...)".to_string(),
        vars: Some(vec!["a".to_string(), "b".to_string()]),
    });
    p.quantifiers.push(Quantifier { name: "<lambda>".to_string(), user_named: false, body: "(lambda ...)".to_string(), vars: None });
    p.quantifiers.push(Quantifier { name: "sum_pos".to_string(), user_named: true, body: "(forall ...)".to_string(), vars: None });
    // match 0: a pattern match of quantifier 0 with both triggers matched
    p.matches.push(Match {
        kind: MatchKind::Quantifier { quant: QuantIdx(0), pattern: TermIdx(2), bound_terms: vec![ENodeIdx(0), ENodeIdx(1)] },
        trigger_matches: vec![
            TriggerMatch { enode: ENodeIdx(1), equalities: vec![EqTransIdx(0), EqTransIdx(1)] },
            TriggerMatch { enode: ENodeIdx(0), equalities: Vec::new() },
        ],
    });
    // match 1: an instance that the theory of arithmetic found
    p.matches.push(Match {
        kind: MatchKind::TheorySolving { axiom_id: TermId { namespace: "arith".to_string(), id: Some(42) }, bound_terms: vec![TermIdx(3)] },
        trigger_matches: Vec::new(),
    });
    // match 2: a model-based instance of the lambda
    p.matches.push(Match { kind: MatchKind::MBQI { quant: QuantIdx(1), bound_terms: vec![ENodeIdx(2)] }, trigger_matches: Vec::new() });
    // match 3: an instance of the second sum_pos, with one trigger matched of two
    p.matches.push(Match {
        kind: MatchKind::Axiom { quant: QuantIdx(2), pattern: TermIdx(2), bound_terms: vec![TermIdx(0), TermIdx(1), TermIdx(3)] },
        trigger_matches: vec![TriggerMatch { enode: ENodeIdx(9), equalities: vec![EqTransIdx(5)] }],
    });
    // match 4: a theory's instance without a number
    p.matches.push(Match {
        kind: MatchKind::TheorySolving { axiom_id: TermId { namespace: "basic".to_string(), id: None }, bound_terms: Vec::new() },
        trigger_matches: Vec::new(),
    });
    let mut first = inst(0);
    first.resulting_term = Some(TermIdx(7));
    first.yields_terms = vec![ENodeIdx(2), ENodeIdx(0)];
    first.z3_generation = Some(3);
    p.instantiations.push(first);
    p.instantiations.push(inst(1));
    p.instantiations.push(inst(2));
    p.instantiations.push(inst(3));
    p.instantiations.push(inst(4));
    p.instantiations.push(inst(0));
    p.instantiations.push(inst(99));
    p
}

#[test]
fn texts_of_the_trace() {
    let p = trace();
    assert_eq!(show_term(&p, TermIdx(0)), "(f x)");
    assert_eq!(show_term(&p, TermIdx(50)), "");
    assert_eq!(show_enode(&p, ENodeIdx(1), &plain()), "(g 22)");
    assert_eq!(show_enode(&p, ENodeIdx(50), &plain()), "");
    assert_eq!(show_eq_given(&p, EqGivenIdx(0)), "a = b");
    assert_eq!(show_eq_given(&p, EqGivenIdx(1)), "");
    assert_eq!(show_eq_trans(&p, EqTransIdx(1)), "b = c");
    assert_eq!(show_eq_trans(&p, EqTransIdx(2)), "");
    assert_eq!(show_quant_name(&p, QuantIdx(1)), "<lambda>");
    assert_eq!(show_quant_name(&p, QuantIdx(3)), "");
    assert_eq!(show_quant_body(&p, QuantIdx(1)), "(lambda ...)");
    assert_eq!(show_quant_body(&p, QuantIdx(3)), "");
    assert!(p.term(TermIdx(8)).is_none());
    assert_eq!(p.term(TermIdx(6)).unwrap().child_ids, vec![TermIdx(5), TermIdx(4)]);
    assert!(p.quantifier(QuantIdx(2)).is_some());
    assert!(p.inst(InstIdx(7)).is_none());
    assert!(p.match_of(InstIdx(6)).is_none());
    assert!(p.match_of(InstIdx(1)).unwrap().kind.is_discovered());
    assert_eq!(p.match_of(InstIdx(1)).unwrap().kind.quant_idx(), None);
    assert_eq!(p.match_of(InstIdx(3)).unwrap().kind.quant_idx(), Some(QuantIdx(2)));
    assert_eq!(p.match_of(InstIdx(3)).unwrap().kind.pattern(), Some(TermIdx(2)));
    assert_eq!(p.match_of(InstIdx(2)).unwrap().kind.pattern(), None);
    assert!(!p.match_of(InstIdx(2)).unwrap().kind.is_discovered());
}

#[test]
fn texts_are_cut_to_the_limit() {
    let limit = |n: usize| DisplayConfiguration { html: false, limit_enode_chars: true, enode_char_limit: n };
    assert_eq!(cut(&"a very long term".to_string(), &limit(6)), "a very");
    assert_eq!(cut(&"a very long term".to_string(), &limit(16)), "a very long term");
    assert_eq!(cut(&"a very long term".to_string(), &limit(0)), "");
    assert_eq!(cut(&"a very long term".to_string(), &plain()), "a very long term");
    assert_eq!(cut(&"\u{3b1}\u{3b2}\u{3b3}".to_string(), &limit(2)), "\u{3b1}\u{3b2}");
    assert_eq!(show_enode(&trace(), ENodeIdx(2), &limit(4)), "a ve");
}

#[test]
fn short_names_of_nodes() {
    let p = trace();
    let ctxt = DisplayCtxt { parser: &p, config: plain() };
    let names: Vec<String> = [
        NodeKind::ENode(ENodeIdx(0)),
        NodeKind::GivenEquality(EqGivenIdx(12)),
        NodeKind::TransEquality(EqTransIdx(305)),
        NodeKind::Instantiation(InstIdx(18446744073709551615)),
    ]
    .iter()
    .map(|&k| NodeInfo { node: &node_of(k), ctxt: &ctxt }.index())
    .collect();
    assert_eq!(names, vec!["e0", "g12", "t305", "i18446744073709551615"]);
    assert_eq!(name_of(&NodeKind::ENode(ENodeIdx(10))), "e10");
}

#[test]
fn labels_of_nodes() {
    let p = trace();
    let ctxt = DisplayCtxt { parser: &p, config: plain() };
    let label = |k: NodeKind| NodeInfo { node: &node_of(k), ctxt: &ctxt }.kind();
    assert_eq!(label(NodeKind::ENode(ENodeIdx(0))), "ENode");
    assert_eq!(label(NodeKind::GivenEquality(EqGivenIdx(0))), "Equality");
    assert_eq!(label(NodeKind::TransEquality(EqTransIdx(0))), "Equality");
    assert_eq!(label(NodeKind::Instantiation(InstIdx(0))), "Quantifier");
    assert_eq!(label(NodeKind::Instantiation(InstIdx(1))), "Theory Solving");
    assert_eq!(label(NodeKind::Instantiation(InstIdx(2))), "MBQI");
    assert_eq!(label(NodeKind::Instantiation(InstIdx(3))), "Axiom");
    assert_eq!(label(NodeKind::Instantiation(InstIdx(6))), "Instantiation");
    assert_eq!(label(NodeKind::Instantiation(InstIdx(60))), "Instantiation");
    assert_eq!(label_of(&p, &NodeKind::Instantiation(InstIdx(4))), "Theory Solving");
}

#[test]
fn tooltips_of_nodes() {
    let p = trace();
    let ctxt = DisplayCtxt { parser: &p, config: DisplayConfiguration { html: false, limit_enode_chars: true, enode_char_limit: 3 } };
    let tip = |k: NodeKind, limit: Option<usize>| NodeInfo { node: &node_of(k), ctxt: &ctxt }.tooltip(true, limit);
    assert_eq!(tip(NodeKind::ENode(ENodeIdx(2)), None), "a very long term");
    assert_eq!(tip(NodeKind::ENode(ENodeIdx(2)), Some(3)), "a very");
    assert_eq!(tip(NodeKind::ENode(ENodeIdx(2)), Some(0)), "");
    assert_eq!(tip(NodeKind::ENode(ENodeIdx(2)), Some(usize::MAX)), "a very long term");
    assert_eq!(tip(NodeKind::ENode(ENodeIdx(7)), None), "");
    assert_eq!(tip(NodeKind::GivenEquality(EqGivenIdx(0)), Some(1)), "a = b");
    assert_eq!(tip(NodeKind::TransEquality(EqTransIdx(1)), Some(1)), "b = c");
    assert_eq!(tip(NodeKind::Instantiation(InstIdx(0)), Some(1)), "sum_pos");
    assert_eq!(tip(NodeKind::Instantiation(InstIdx(1)), None), "arith[42]");
    assert_eq!(tip(NodeKind::Instantiation(InstIdx(2)), None), "<lambda>");
    assert_eq!(tip(NodeKind::Instantiation(InstIdx(3)), None), "sum_pos");
    assert_eq!(tip(NodeKind::Instantiation(InstIdx(4)), None), "basic[]");
    assert_eq!(tip(NodeKind::Instantiation(InstIdx(6)), None), "");
}

#[test]
fn tooltip_settings_double_the_limit_for_terms() {
    let p = trace();
    let ctxt = DisplayCtxt { parser: &p, config: DisplayConfiguration { html: false, limit_enode_chars: true, enode_char_limit: 30 } };
    let enode = node_of(NodeKind::ENode(ENodeIdx(0)));
    let equality = node_of(NodeKind::GivenEquality(EqGivenIdx(0)));
    let of_enode = NodeInfo { node: &enode, ctxt: &ctxt };
    let of_equality = NodeInfo { node: &equality, ctxt: &ctxt };
    let s = of_enode.tooltip_settings(true, Some(10));
    assert!(s.html && s.limit_enode_chars);
    assert_eq!(s.enode_char_limit, 20);
    let s = of_enode.tooltip_settings(false, None);
    assert!(!s.html && !s.limit_enode_chars);
    assert_eq!(s.enode_char_limit, 60);
    let s = of_enode.tooltip_settings(false, Some(usize::MAX / 2 + 1));
    assert_eq!(s.enode_char_limit, usize::MAX);
    let s = of_enode.tooltip_settings(false, Some(usize::MAX / 2));
    assert_eq!(s.enode_char_limit, usize::MAX - 1);
    let s = of_equality.tooltip_settings(true, Some(10));
    assert_eq!(s.enode_char_limit, 10);
}

#[test]
fn quantifier_bodies() {
    let p = trace();
    let ctxt = DisplayCtxt { parser: &p, config: plain() };
    let body = |k: NodeKind| NodeInfo { node: &node_of(k), ctxt: &ctxt }.quantifier_body();
    assert_eq!(body(NodeKind::Instantiation(InstIdx(0))), Some("(forall ((a Int) (b Int)) ...)".to_string()));
    assert_eq!(body(NodeKind::Instantiation(InstIdx(2))), Some("(lambda ...)".to_string()));
    assert_eq!(body(NodeKind::Instantiation(InstIdx(1))), None);
    assert_eq!(body(NodeKind::Instantiation(InstIdx(6))), None);
    assert_eq!(body(NodeKind::ENode(ENodeIdx(0))), None);
}

#[test]
fn blame_lists_the_triggers_in_their_order() {
    let p = trace();
    let ctxt = DisplayCtxt { parser: &p, config: plain() };
    let blame = |k: NodeKind| NodeInfo { node: &node_of(k), ctxt: &ctxt }.blame();
    assert_eq!(
        blame(NodeKind::Instantiation(InstIdx(0))),
        Some(vec![
            ("(f x)".to_string(), "(f 1)".to_string(), Vec::new()),
            ("(g y)".to_string(), "(g 22)".to_string(), vec!["a = c".to_string(), "b = c".to_string()]),
        ])
    );
    // one match for two triggers belongs to the last trigger; names that the
    // trace does not hold show as empty texts
    assert_eq!(blame(NodeKind::Instantiation(InstIdx(3))), Some(vec![("(g y)".to_string(), "".to_string(), vec!["".to_string()])]));
    assert_eq!(blame(NodeKind::Instantiation(InstIdx(1))), None);
    assert_eq!(blame(NodeKind::Instantiation(InstIdx(2))), None);
    assert_eq!(blame(NodeKind::Instantiation(InstIdx(6))), None);
    assert_eq!(blame(NodeKind::TransEquality(EqTransIdx(0))), None);
}

#[test]
fn bound_terms_name_what_was_bound() {
    let p = trace();
    let ctxt = DisplayCtxt { parser: &p, config: plain() };
    let bound = |k: NodeKind| NodeInfo { node: &node_of(k), ctxt: &ctxt }.bound_terms();
    assert_eq!(bound(NodeKind::Instantiation(InstIdx(0))), Some(vec!["a \u{21a6} (f 1)".to_string(), "b \u{21a6} (g 22)".to_string()]));
    assert_eq!(bound(NodeKind::Instantiation(InstIdx(1))), Some(vec!["qvar_0 \u{21a6} x".to_string()]));
    assert_eq!(bound(NodeKind::Instantiation(InstIdx(2))), Some(vec!["qvar_0 \u{21a6} a very long term".to_string()]));
    assert_eq!(
        bound(NodeKind::Instantiation(InstIdx(3))),
        Some(vec!["qvar_0 \u{21a6} (f x)".to_string(), "qvar_1 \u{21a6} (g y)".to_string(), "qvar_2 \u{21a6} x".to_string()])
    );
    assert_eq!(bound(NodeKind::Instantiation(InstIdx(4))), Some(Vec::new()));
    assert_eq!(bound(NodeKind::Instantiation(InstIdx(6))), None);
    assert_eq!(bound(NodeKind::ENode(ENodeIdx(0))), None);
}

#[test]
fn resulting_term_is_the_instance() {
    let mut p = trace();
    {
        let ctxt = DisplayCtxt { parser: &p, config: plain() };
        let result = |k: NodeKind| NodeInfo { node: &node_of(k), ctxt: &ctxt }.resulting_term();
        assert_eq!(result(NodeKind::Instantiation(InstIdx(0))), Some("(> (+ 1 2) 0)".to_string()));
        assert_eq!(result(NodeKind::Instantiation(InstIdx(1))), None);
        assert_eq!(result(NodeKind::Instantiation(InstIdx(60))), None);
        assert_eq!(result(NodeKind::GivenEquality(EqGivenIdx(0))), None);
    }
    // a recorded term of another shape has no instance
    p.instantiations[1].resulting_term = Some(TermIdx(6));
    p.instantiations[2].resulting_term = Some(TermIdx(2));
    p.instantiations[3].resulting_term = Some(TermIdx(70));
    let ctxt = DisplayCtxt { parser: &p, config: plain() };
    let result = |k: NodeKind| NodeInfo { node: &node_of(k), ctxt: &ctxt }.resulting_term();
    assert_eq!(result(NodeKind::Instantiation(InstIdx(1))), None);
    assert_eq!(result(NodeKind::Instantiation(InstIdx(2))), None);
    assert_eq!(result(NodeKind::Instantiation(InstIdx(3))), None);
}

#[test]
fn yield_terms_of_an_instantiation() {
    let p = trace();
    let ctxt = DisplayCtxt { parser: &p, config: DisplayConfiguration { html: false, limit_enode_chars: true, enode_char_limit: 5 } };
    let yields = |k: NodeKind| NodeInfo { node: &node_of(k), ctxt: &ctxt }.yield_terms();
    assert_eq!(yields(NodeKind::Instantiation(InstIdx(0))), Some(vec!["a ver".to_string(), "(f 1)".to_string()]));
    assert_eq!(yields(NodeKind::Instantiation(InstIdx(1))), Some(Vec::new()));
    assert_eq!(yields(NodeKind::Instantiation(InstIdx(60))), None);
    assert_eq!(yields(NodeKind::ENode(ENodeIdx(0))), None);
}

#[test]
fn info_line_markup() {
    let code = InfoLineProps { header: "Body".to_string(), text: "(f x)".to_string(), code: true };
    let text = InfoLineProps { header: "Cost".to_string(), text: "1.5".to_string(), code: false };
    assert_eq!(code.markup(), "<code>(f x)</code>");
    assert_eq!(text.markup(), "1.5");
}

fn edge_graph() -> InstGraph {
    let mut graph = InstGraph::new();
    let d = Depth { min: 0, max: 0 };
    let a = graph.raw.add_node(NodeKind::Instantiation(InstIdx(0)), 0, d, d, None).unwrap();
    let b = graph.raw.add_node(NodeKind::ENode(ENodeIdx(1)), 0, d, d, None).unwrap();
    let c = graph.raw.add_node(NodeKind::GivenEquality(EqGivenIdx(0)), 0, d, d, None).unwrap();
    let e = graph.raw.add_node(NodeKind::Instantiation(InstIdx(1)), 0, d, d, None).unwrap();
    graph.raw.add_edge(a, b, EdgeKind::Yield).unwrap();
    graph.raw.add_edge(b, c, EdgeKind::EqualityFact).unwrap();
    graph.raw.add_edge(c, e, EdgeKind::BlameEq).unwrap();
    graph
}

#[test]
fn edges_are_indirect_over_hidden_nodes() {
    let mut graph = edge_graph();
    let path = VisibleEdge { edges: vec![EdgeIndex(0), EdgeIndex(1), EdgeIndex(2)] };
    let one = VisibleEdge { edges: vec![EdgeIndex(0)] };
    assert!(!path.is_indirect(&graph));
    graph.raw.set_visibility_many(true, &vec![NodeIndex(1)]);
    assert!(!path.is_indirect(&graph));
    graph.raw.set_disabled_all(&vec![false, false, true, false]);
    assert!(path.is_indirect(&graph));
    assert!(!one.is_indirect(&graph));
    assert!(!VisibleEdge { edges: Vec::new() }.is_indirect(&graph));
    assert!(!VisibleEdge { edges: vec![EdgeIndex(0), EdgeIndex(9)] }.is_indirect(&graph));
    assert!(VisibleEdge { edges: vec![EdgeIndex(0), EdgeIndex(1)] }.is_indirect(&graph));
}

#[test]
fn short_names_of_edges() {
    let p = trace();
    let ctxt = DisplayCtxt { parser: &p, config: plain() };
    let mut graph = edge_graph();
    let path = VisibleEdge { edges: vec![EdgeIndex(0), EdgeIndex(1), EdgeIndex(2)] };
    let kind = VisibleEdgeKind::YieldEq(NodeIndex(2));
    {
        let info = EdgeInfo { edge: &path, kind: &kind, from: NodeIndex(0), to: NodeIndex(3), graph: &graph, ctxt: &ctxt };
        assert_eq!(info.index(), "i0 \u{2192} i1");
        assert_eq!(info.tooltip(), "i0 \u{2192} i1");
    }
    graph.raw.set_visibility_many(true, &vec![NodeIndex(1), NodeIndex(2)]);
    let info = EdgeInfo { edge: &path, kind: &kind, from: NodeIndex(0), to: NodeIndex(3), graph: &graph, ctxt: &ctxt };
    assert_eq!(info.index(), "i0 \u{219d} i1");
    assert_eq!(info.tooltip(), "i0 \u{219d} i1");
    let dangling = EdgeInfo { edge: &path, kind: &kind, from: NodeIndex(1), to: NodeIndex(30), graph: &graph, ctxt: &ctxt };
    assert_eq!(dangling.index(), "e1 \u{219d} ");
}

#[test]
fn labels_of_edges() {
    let p = trace();
    let ctxt = DisplayCtxt { parser: &p, config: plain() };
    let graph = edge_graph();
    let edge = VisibleEdge { edges: vec![EdgeIndex(0)] };
    let label = |kind: VisibleEdgeKind| EdgeInfo { edge: &edge, kind: &kind, from: NodeIndex(0), to: NodeIndex(1), graph: &graph, ctxt: &ctxt }.kind();
    let e = EdgeIndex(0);
    let n = NodeIndex(0);
    assert_eq!(label(VisibleEdgeKind::Direct(e, EdgeKind::Yield)), "Yield");
    assert_eq!(label(VisibleEdgeKind::Direct(e, EdgeKind::Blame { trigger_term: 3 })), "Blame trigger #3");
    assert_eq!(label(VisibleEdgeKind::Direct(e, EdgeKind::Blame { trigger_term: 65535 })), "Blame trigger #65535");
    assert_eq!(label(VisibleEdgeKind::Direct(e, EdgeKind::BlameEq)), "Blame Equality");
    assert_eq!(label(VisibleEdgeKind::Direct(e, EdgeKind::EqualityFact)), "Equality Fact");
    assert_eq!(label(VisibleEdgeKind::Direct(e, EdgeKind::EqualityCongruence)), "Equality Congruence");
    assert_eq!(label(VisibleEdgeKind::Direct(e, EdgeKind::TEqualitySimple)), "Simple Equality");
    assert_eq!(label(VisibleEdgeKind::Direct(e, EdgeKind::TEqualityTransitive)), "Transitive Equality");
    assert_eq!(label(VisibleEdgeKind::Direct(e, EdgeKind::TEqualityTransitiveBwd)), "Transitive Reverse Equality");
    assert_eq!(label(VisibleEdgeKind::YieldBlame { enode: n, trigger_term: 0 }), "Yield/Blame trigger #0");
    assert_eq!(label(VisibleEdgeKind::YieldEq(n)), "Yield Equality");
    assert_eq!(label(VisibleEdgeKind::YieldBlameEq { given_eq: n }), "Yield/Blame Equality");
    assert_eq!(label(VisibleEdgeKind::YieldEqOther(n, Vec::new())), "Yield Equality Other");
    assert_eq!(label(VisibleEdgeKind::ENodeEq(n)), "ENode Equality");
    assert_eq!(label(VisibleEdgeKind::ENodeBlameEq { given_eq: n }), "ENode/Blame Equality");
    assert_eq!(label(VisibleEdgeKind::ENodeEqOther(n, Vec::new())), "ENode Equality Other");
    assert_eq!(label(VisibleEdgeKind::Unknown(EdgeIndex(0), Vec::new(), EdgeIndex(2))), "Compound ENode to Equality");
    assert_eq!(label(VisibleEdgeKind::Unknown(EdgeIndex(2), Vec::new(), EdgeIndex(0))), "Compound Theory Solving to Quantifier");
    assert_eq!(label(VisibleEdgeKind::Unknown(EdgeIndex(7), Vec::new(), EdgeIndex(1))), "Compound Unknown to ENode");
}

#[test]
fn kinds_are_counted() {
    let mut graph = InstGraph::new();
    let d = Depth { min: 0, max: 0 };
    let kinds = [
        NodeKind::ENode(ENodeIdx(0)),
        NodeKind::Instantiation(InstIdx(0)),
        NodeKind::ENode(ENodeIdx(1)),
        NodeKind::GivenEquality(EqGivenIdx(0)),
        NodeKind::Instantiation(InstIdx(1)),
        NodeKind::ENode(ENodeIdx(2)),
    ];
    for k in kinds {
        graph.raw.add_node(k, 0, d, d, None).unwrap();
    }
    assert_eq!(count_kinds(&graph.raw), KindCounts { enodes: 3, given_equalities: 1, trans_equalities: 0, instantiations: 2 });
    let lines = summary_lines(&graph.raw, &Z3Parser::new(), None);
    assert_eq!(
        lines,
        vec!["no-enodes: 3", "no-given-equalities: 1", "no-trans-equalities: 0", "no-instantiations: 2", "nodes-count: 6", "top-instantiations="]
    );
    graph.raw.add_node(NodeKind::TransEquality(EqTransIdx(0)), 0, d, d, None).unwrap();
    graph.raw.set_visibility_many(true, &vec![NodeIndex(0)]);
    assert_eq!(count_kinds(&graph.raw), KindCounts { enodes: 3, given_equalities: 1, trans_equalities: 1, instantiations: 2 });
    assert_eq!(count_kinds(&InstGraph::new().raw), KindCounts { enodes: 0, given_equalities: 0, trans_equalities: 0, instantiations: 0 });
}

fn counted_trace() -> Z3Parser {
    let mut p = Z3Parser::new();
    for (name, user_named) in [("alpha", true), ("beta", true), ("k!7", false), ("beta", true), ("gamma", true), ("delta", true)] {
        p.quantifiers.push(Quantifier { name: name.to_string(), user_named, body: String::new(), vars: None });
    }
    for q in 0..6 {
        p.matches.push(Match {
            kind: MatchKind::Quantifier { quant: QuantIdx(q), pattern: TermIdx(0), bound_terms: Vec::new() },
            trigger_matches: Vec::new(),
        });
    }
    p.matches.push(Match {
        kind: MatchKind::TheorySolving { axiom_id: TermId { namespace: "arith".to_string(), id: None }, bound_terms: Vec::new() },
        trigger_matches: Vec::new(),
    });
    p.matches.push(Match {
        kind: MatchKind::Quantifier { quant: QuantIdx(77), pattern: TermIdx(0), bound_terms: Vec::new() },
        trigger_matches: Vec::new(),
    });
    // alpha twice, beta once under each of its quantifiers and once more, the
    // unnamed one three times, gamma twice, delta never
    for m in [0, 1, 2, 3, 4, 2, 0, 6, 7, 1, 2, 4, 90] {
        p.instantiations.push(inst(m));
    }
    p
}

#[test]
fn named_quantifiers_are_ranked_by_their_instantiations() {
    let p = counted_trace();
    let pairs = |k: Option<usize>| top_instantiations(&p, k);
    let all = vec![("beta".to_string(), 3), ("alpha".to_string(), 2), ("gamma".to_string(), 2)];
    assert_eq!(pairs(None), all);
    assert_eq!(pairs(Some(5)), all);
    assert_eq!(pairs(Some(3)), all);
    assert_eq!(pairs(Some(2)), all[..2].to_vec());
    assert_eq!(pairs(Some(1)), all[..1].to_vec());
    assert_eq!(pairs(Some(0)), Vec::new());
    assert_eq!(top_instantiations(&Z3Parser::new(), None), Vec::new());
    let lines = summary_lines(&InstGraph::new().raw, &p, Some(2));
    assert_eq!(
        lines,
        vec![
            "no-enodes: 0",
            "no-given-equalities: 0",
            "no-trans-equalities: 0",
            "no-instantiations: 0",
            "nodes-count: 0",
            "top-instantiations=",
            "beta = 3",
            "alpha = 2"
        ]
    );
}

fn logged(line: usize, cost: u64, discovered: bool) -> Instantiation {
    let mut i = inst(0);
    i.line_no = Some(line);
    i.cost = cost;
    i.quant_discovered = discovered;
    i
}

#[test]
fn instantiation_handles_are_numbers() {
    assert_eq!(usize::from(InstIdx(7)), 7);
    assert_eq!(InstIdx::from(7usize), InstIdx(7));
}

#[test]
fn render_settings_by_default() {
    let s = RenderSettings::default();
    assert_eq!(s.max_line_nr, usize::MAX);
    assert!(s.exclude_theory_solving_inst);
    assert_eq!(s.max_instantiations, 100);
}

#[test]
fn line_graph_gives_each_line_one_node() {
    let mut g = axiom_profiler::results::InstGraph::new();
    g.add_node(10);
    g.add_node(20);
    g.add_node(10);
    g.add_node(30);
    assert_eq!(g.node_count(), 3);
    assert_eq!(g.line_of(0), Some(10));
    assert_eq!(g.line_of(1), Some(20));
    assert_eq!(g.line_of(2), Some(30));
    assert_eq!(g.line_of(3), None);
    g.add_edge(10, 30);
    g.add_edge(30, 20);
    g.add_edge(10, 40);
    g.add_edge(40, 10);
    g.add_edge(20, 20);
    assert_eq!(g.structure().edge_count(), 3);
    assert_eq!(g.structure().edge_endpoints(0), Some((0, 2)));
    assert_eq!(g.structure().edge_endpoints(1), Some((2, 1)));
    assert_eq!(g.structure().edge_endpoints(2), Some((1, 1)));
}

#[test]
fn instantiation_graph_of_a_log() {
    let mut p = Z3Parser::new();
    p.instantiations.push(logged(5, 30, false));
    p.instantiations.push(logged(6, 10, true));
    p.instantiations.push(logged(7, 20, false));
    let mut unlogged = inst(0);
    unlogged.cost = 99;
    p.instantiations.push(unlogged);
    p.instantiations.push(logged(9, 1, false));
    p.instantiations.push(logged(0, 50, false));
    for (from, to) in [(5, Some(7)), (5, Some(6)), (7, None), (0, Some(5)), (7, Some(9)), (9, Some(5)), (5, Some(7)), (8, Some(9))] {
        p.dependencies.push(Dependency { from, to });
    }
    let g = p.get_instantiation_graph();
    // line 6 is a theory's, line 8 has no instantiation, line 0 is no cause
    assert_eq!(g.node_count(), 3);
    assert_eq!(g.line_of(0), Some(5));
    assert_eq!(g.line_of(1), Some(7));
    assert_eq!(g.line_of(2), Some(9));
    assert_eq!(g.structure().edge_count(), 4);
    assert_eq!(g.structure().edge_endpoints(0), Some((0, 1)));
    assert_eq!(g.structure().edge_endpoints(1), Some((1, 2)));
    assert_eq!(g.structure().edge_endpoints(2), Some((2, 0)));
    assert_eq!(g.structure().edge_endpoints(3), Some((0, 1)));
}

#[test]
fn instantiation_graph_keeps_the_hundred_costliest() {
    let mut p = Z3Parser::new();
    // lines 1..=120, the cost falling with the line but for two equal ones at the cut
    for line in 1..=120usize {
        let cost = if line == 101 { 1000 - 100 } else { 1000 - line as u64 };
        p.instantiations.push(logged(line, cost, false));
    }
    for line in 1..120usize {
        p.dependencies.push(Dependency { from: line, to: Some(line + 1) });
    }
    let g = p.get_instantiation_graph();
    // lines 1 to 100 stay: of the two of equal cost the earlier
    assert_eq!(g.node_count(), 100);
    assert_eq!(g.structure().edge_count(), 99);
    assert_eq!(g.line_of(0), Some(1));
    assert_eq!(g.line_of(99), Some(100));
    assert_eq!(g.structure().edge_endpoints(98), Some((98, 99)));
}
