//! Descriptions of a selected node or edge: a short name, a label for its kind, and
//! the texts that say what an instantiation matched, bound and produced.

use crate::display::{
    enode_text, eq_given_text, eq_trans_text, quant_body_text, quant_name_text, show_enode, show_eq_given, show_eq_trans,
    show_quant_body, show_quant_name, show_term, term_text, DisplayConfiguration, DisplayCtxt,
};
use crate::inst_graph::InstGraph;
use crate::items::{Match, MatchKind, QuantIdx, TermIdx, TriggerMatch, Z3Parser};
use crate::raw::{EdgeIndex, EdgeKind, Node, NodeIndex, NodeKind};
use crate::text::{decimal, decimal_digits, texts};
use vstd::prelude::*;

verus! {

/// One line of a description: a header, a text, and whether the text is code.
pub struct InfoLineProps {
    pub header: String,
    pub text: String,
    pub code: bool,
}

impl InfoLineProps {
    /// The text of the line as markup: code stands between code tags.
    pub fn markup(&self) -> (r: String)
        ensures
            r@ == if self.code { "<code>"@ + self.text@ + "</code>"@ } else { self.text@ },
    {
        if self.code {
            let mut r = String::from_str("<code>");
            r.append(self.text.as_str());
            r.append("</code>");
            r
        } else {
            self.text.clone()
        }
    }
}

/// The short name of a node: a letter for what it is, and its number in the trace.
pub open spec fn index_text(kind: NodeKind) -> Seq<char> {
    match kind {
        NodeKind::ENode(e) => "e"@ + decimal_digits(e.0 as nat),
        NodeKind::GivenEquality(g) => "g"@ + decimal_digits(g.0 as nat),
        NodeKind::TransEquality(t) => "t"@ + decimal_digits(t.0 as nat),
        NodeKind::Instantiation(i) => "i"@ + decimal_digits(i.0 as nat),
    }
}

/// The label of what a node is. An instantiation is labelled by what produced its
/// match, and plainly where the trace does not hold the match.
pub open spec fn kind_label(parser: &Z3Parser, kind: NodeKind) -> Seq<char> {
    match kind {
        NodeKind::ENode(_) => "ENode"@,
        NodeKind::GivenEquality(_) => "Equality"@,
        NodeKind::TransEquality(_) => "Equality"@,
        NodeKind::Instantiation(i) => match parser.spec_match_of(i) {
            Some(m) => match m.kind {
                MatchKind::MBQI { .. } => "MBQI"@,
                MatchKind::TheorySolving { .. } => "Theory Solving"@,
                MatchKind::Axiom { .. } => "Axiom"@,
                MatchKind::Quantifier { .. } => "Quantifier"@,
            },
            None => "Instantiation"@,
        },
    }
}

/// The settings that a tooltip is shown with: the markup flag as asked, e-nodes cut
/// exactly if a limit is asked for, and the limit doubled for the tooltip of an
/// e-node (up to the largest number).
pub open spec fn tooltip_config(config: DisplayConfiguration, kind: NodeKind, html: bool, char_limit: Option<usize>) -> DisplayConfiguration {
    let limit = match char_limit {
        Some(l) => l,
        None => config.enode_char_limit,
    };
    let limit = if kind is ENode {
        if limit > usize::MAX / 2 {
            usize::MAX
        } else {
            (limit * 2) as usize
        }
    } else {
        limit
    };
    DisplayConfiguration { html, limit_enode_chars: char_limit is Some, enode_char_limit: limit }
}

/// The text of a match: the name of its quantifier, or for a theory's instance the
/// namespace of its identifier with the identifier's number in brackets.
pub open spec fn match_text(parser: &Z3Parser, m: Match) -> Seq<char> {
    match m.kind {
        MatchKind::MBQI { quant, .. } => quant_name_text(parser, quant),
        MatchKind::TheorySolving { axiom_id, .. } => axiom_id.namespace@ + "["@ + (match axiom_id.id {
            Some(n) => decimal_digits(n as nat),
            None => Seq::empty(),
        }) + "]"@,
        MatchKind::Axiom { quant, .. } => quant_name_text(parser, quant),
        MatchKind::Quantifier { quant, .. } => quant_name_text(parser, quant),
    }
}

/// The text of a node under `config`.
pub open spec fn node_text(parser: &Z3Parser, kind: NodeKind, config: DisplayConfiguration) -> Seq<char> {
    match kind {
        NodeKind::ENode(e) => enode_text(parser, e, config),
        NodeKind::GivenEquality(g) => eq_given_text(parser, g),
        NodeKind::TransEquality(t) => eq_trans_text(parser, t),
        NodeKind::Instantiation(i) => match parser.spec_match_of(i) {
            Some(m) => match_text(parser, m),
            None => Seq::empty(),
        },
    }
}

/// The match of a node that is an instantiation.
pub open spec fn node_match(parser: &Z3Parser, kind: NodeKind) -> Option<Match> {
    match kind {
        NodeKind::Instantiation(i) => parser.spec_match_of(i),
        _ => None,
    }
}

/// What one trigger of a pattern was matched by: the trigger, the e-node, and the
/// equalities that the match used.
pub open spec fn blame_entry(parser: &Z3Parser, config: DisplayConfiguration, trigger: TermIdx, tm: TriggerMatch) -> (
    Seq<char>,
    Seq<char>,
    Seq<Seq<char>>,
) {
    (
        term_text(parser, trigger),
        enode_text(parser, tm.enode, config),
        Seq::new(tm.equalities@.len(), |k: int| eq_trans_text(parser, tm.equalities@[k])),
    )
}

pub open spec fn entry_view(e: (String, String, Vec<String>)) -> (Seq<char>, Seq<char>, Seq<Seq<char>>) {
    (e.0@, e.1@, texts(e.2@))
}

/// The smaller of two lengths.
pub open spec fn shorter(a: nat, b: nat) -> nat {
    if a <= b {
        a
    } else {
        b
    }
}

/// What the triggers of an instantiation's pattern were matched by, in the order of
/// the triggers. The trace lists the matches from the last trigger to the first;
/// where it lists fewer than the pattern has triggers, they belong to the last ones.
pub open spec fn blame_of(parser: &Z3Parser, kind: NodeKind, config: DisplayConfiguration) -> Option<Seq<(Seq<char>, Seq<char>, Seq<Seq<char>>)>> {
    match node_match(parser, kind) {
        Some(m) => match m.kind.spec_pattern() {
            Some(p) => if p.0 < parser.terms@.len() {
                let triggers = parser.terms@[p.0 as int].child_ids@;
                let matched = m.trigger_matches@;
                let l = shorter(triggers.len(), matched.len());
                Some(Seq::new(l, |j: int| blame_entry(parser, config, triggers[triggers.len() - l + j], matched[l - 1 - j])))
            } else {
                None
            },
            None => None,
        },
        None => None,
    }
}

/// The name of the bound variable with the given position: the name that the
/// quantifier gives it, or a made-up one where it gives none.
pub open spec fn var_name(parser: &Z3Parser, q: Option<QuantIdx>, idx: nat) -> Seq<char> {
    match q {
        Some(q) => if q.0 < parser.quantifiers@.len() {
            match parser.quantifiers@[q.0 as int].vars {
                Some(names) => if idx < names@.len() {
                    names@[idx as int]@
                } else {
                    "qvar_"@ + decimal_digits(idx)
                },
                None => "qvar_"@ + decimal_digits(idx),
            }
        } else {
            "qvar_"@ + decimal_digits(idx)
        },
        None => "qvar_"@ + decimal_digits(idx),
    }
}

/// How many terms a match bound.
pub open spec fn bound_count(kind: MatchKind) -> nat {
    match kind {
        MatchKind::MBQI { bound_terms, .. } => bound_terms@.len(),
        MatchKind::TheorySolving { bound_terms, .. } => bound_terms@.len(),
        MatchKind::Axiom { bound_terms, .. } => bound_terms@.len(),
        MatchKind::Quantifier { bound_terms, .. } => bound_terms@.len(),
    }
}

/// The text of the term with the given position among those that a match bound.
pub open spec fn bound_text(parser: &Z3Parser, config: DisplayConfiguration, kind: MatchKind, k: int) -> Seq<char> {
    match kind {
        MatchKind::MBQI { bound_terms, .. } => enode_text(parser, bound_terms@[k], config),
        MatchKind::TheorySolving { bound_terms, .. } => term_text(parser, bound_terms@[k]),
        MatchKind::Axiom { bound_terms, .. } => term_text(parser, bound_terms@[k]),
        MatchKind::Quantifier { bound_terms, .. } => enode_text(parser, bound_terms@[k], config),
    }
}

/// One line for each bound variable: its name, an arrow, and what it was bound to.
pub open spec fn bound_lines(parser: &Z3Parser, kind: NodeKind, config: DisplayConfiguration) -> Option<Seq<Seq<char>>> {
    match node_match(parser, kind) {
        Some(m) => Some(
            Seq::new(
                bound_count(m.kind),
                |k: int| var_name(parser, m.kind.spec_quant_idx(), k as nat) + " \u{21a6} "@ + bound_text(parser, config, m.kind, k),
            ),
        ),
        None => None,
    }
}

/// The term at `pos` among the direct subterms of `t`.
pub open spec fn child_at(parser: &Z3Parser, t: TermIdx, pos: int) -> Option<TermIdx> {
    if t.0 < parser.terms@.len() && pos < parser.terms@[t.0 as int].child_ids@.len() {
        Some(parser.terms@[t.0 as int].child_ids@[pos])
    } else {
        None
    }
}

/// The instance that an instantiation produced. The trace records the term
/// `quant-inst(not(quant) or (inst))`, of which this is `inst`.
pub open spec fn resulting_of(parser: &Z3Parser, kind: NodeKind) -> Option<TermIdx> {
    match kind {
        NodeKind::Instantiation(i) => if i.0 < parser.instantiations@.len() {
            match parser.instantiations@[i.0 as int].resulting_term {
                Some(whole) => match child_at(parser, whole, 0) {
                    Some(or) => child_at(parser, or, 1),
                    None => None,
                },
                None => None,
            }
        } else {
            None
        },
        _ => None,
    }
}

/// The texts of the e-nodes that an instantiation yielded.
pub open spec fn yields_of(parser: &Z3Parser, kind: NodeKind, config: DisplayConfiguration) -> Option<Seq<Seq<char>>> {
    match kind {
        NodeKind::Instantiation(i) => if i.0 < parser.instantiations@.len() {
            let yields = parser.instantiations@[i.0 as int].yields_terms@;
            Some(Seq::new(yields.len(), |k: int| enode_text(parser, yields[k], config)))
        } else {
            None
        },
        _ => None,
    }
}

/// A node together with the display that describes it.
pub struct NodeInfo<'a, 'b> {
    pub node: &'a Node,
    pub ctxt: &'b DisplayCtxt<'b>,
}

fn child_of(parser: &Z3Parser, t: TermIdx, pos: usize) -> (r: Option<TermIdx>)
    ensures
        r == child_at(parser, t, pos as int),
{
    match parser.term(t) {
        Some(term) => if pos < term.child_ids.len() {
            Some(term.child_ids[pos])
        } else {
            None
        },
        None => None,
    }
}

fn name_of_var(parser: &Z3Parser, q: Option<QuantIdx>, idx: usize) -> (r: String)
    ensures
        r@ == var_name(parser, q, idx as nat),
{
    match q {
        Some(q) => match parser.quantifier(q) {
            Some(quant) => match &quant.vars {
                Some(names) => if idx < names.len() {
                    return names[idx].clone();
                },
                None => {},
            },
            None => {},
        },
        None => {},
    }
    let mut r = String::from_str("qvar_");
    r.append(decimal(idx).as_str());
    r
}

fn show_bound(parser: &Z3Parser, config: &DisplayConfiguration, kind: &MatchKind, k: usize) -> (r: String)
    requires
        k < bound_count(*kind),
    ensures
        r@ == bound_text(parser, *config, *kind, k as int),
{
    match kind {
        MatchKind::MBQI { bound_terms, .. } => show_enode(parser, bound_terms[k], config),
        MatchKind::TheorySolving { bound_terms, .. } => show_term(parser, bound_terms[k]),
        MatchKind::Axiom { bound_terms, .. } => show_term(parser, bound_terms[k]),
        MatchKind::Quantifier { bound_terms, .. } => show_enode(parser, bound_terms[k], config),
    }
}

fn count_bound(kind: &MatchKind) -> (n: usize)
    ensures
        n == bound_count(*kind),
{
    match kind {
        MatchKind::MBQI { bound_terms, .. } => bound_terms.len(),
        MatchKind::TheorySolving { bound_terms, .. } => bound_terms.len(),
        MatchKind::Axiom { bound_terms, .. } => bound_terms.len(),
        MatchKind::Quantifier { bound_terms, .. } => bound_terms.len(),
    }
}

fn show_match(parser: &Z3Parser, m: &Match) -> (r: String)
    ensures
        r@ == match_text(parser, *m),
{
    match &m.kind {
        MatchKind::MBQI { quant, .. } => show_quant_name(parser, *quant),
        MatchKind::TheorySolving { axiom_id, .. } => {
            let mut r = axiom_id.namespace.clone();
            r.append("[");
            let ghost open = r@;
            match axiom_id.id {
                Some(n) => {
                    r.append(decimal(n as usize).as_str());
                },
                None => {
                    assert(open + Seq::<char>::empty() =~= open);
                },
            }
            r.append("]");
            r
        },
        MatchKind::Axiom { quant, .. } => show_quant_name(parser, *quant),
        MatchKind::Quantifier { quant, .. } => show_quant_name(parser, *quant),
    }
}

/// The label of what a node is.
pub fn label_of(parser: &Z3Parser, kind: &NodeKind) -> (r: &'static str)
    ensures
        r@ == kind_label(parser, *kind),
{
    match *kind {
        NodeKind::ENode(_) => "ENode",
        NodeKind::GivenEquality(_) => "Equality",
        NodeKind::TransEquality(_) => "Equality",
        NodeKind::Instantiation(inst) => match parser.match_of(inst) {
            Some(m) => match &m.kind {
                MatchKind::MBQI { .. } => "MBQI",
                MatchKind::TheorySolving { .. } => "Theory Solving",
                MatchKind::Axiom { .. } => "Axiom",
                MatchKind::Quantifier { .. } => "Quantifier",
            },
            None => "Instantiation",
        },
    }
}

/// The short name of a node.
pub fn name_of(kind: &NodeKind) -> (r: String)
    ensures
        r@ == index_text(*kind),
{
    let (letter, number) = match *kind {
        NodeKind::ENode(e) => ("e", e.0),
        NodeKind::GivenEquality(g) => ("g", g.0),
        NodeKind::TransEquality(t) => ("t", t.0),
        NodeKind::Instantiation(i) => ("i", i.0),
    };
    let mut r = String::from_str(letter);
    r.append(decimal(number).as_str());
    r
}

impl<'a, 'b> NodeInfo<'a, 'b> {
    /// The short name of the node.
    pub fn index(&self) -> (r: String)
        ensures
            r@ == index_text(self.node.kind),
    {
        name_of(self.node.kind())
    }

    /// The label of what the node is.
    pub fn kind(&self) -> (r: &'static str)
        ensures
            r@ == kind_label(self.ctxt.parser, self.node.kind),
    {
        label_of(self.ctxt.parser, self.node.kind())
    }

    /// The settings that `tooltip` shows the node with.
    pub fn tooltip_settings(&self, html: bool, char_limit: Option<usize>) -> (r: DisplayConfiguration)
        ensures
            r == tooltip_config(self.ctxt.config, self.node.kind, html, char_limit),
    {
        let limit = match char_limit {
            Some(l) => l,
            None => self.ctxt.config.enode_char_limit,
        };
        let limit = match *self.node.kind() {
            NodeKind::ENode(_) => if limit > usize::MAX / 2 {
                usize::MAX
            } else {
                limit * 2
            },
            _ => limit,
        };
        DisplayConfiguration { html, limit_enode_chars: char_limit.is_some(), enode_char_limit: limit }
    }

    /// The text of the node: of a term or equality its own text, of an
    /// instantiation the text of its match. With a limit of characters, the text
    /// of an e-node is cut to twice the limit.
    pub fn tooltip(&self, html: bool, char_limit: Option<usize>) -> (r: String)
        ensures
            r@ == node_text(self.ctxt.parser, self.node.kind, tooltip_config(self.ctxt.config, self.node.kind, html, char_limit)),
    {
        let config = self.tooltip_settings(html, char_limit);
        let parser = self.ctxt.parser;
        match *self.node.kind() {
            NodeKind::ENode(enode) => show_enode(parser, enode, &config),
            NodeKind::GivenEquality(eq) => show_eq_given(parser, eq),
            NodeKind::TransEquality(eq) => show_eq_trans(parser, eq),
            NodeKind::Instantiation(inst) => match parser.match_of(inst) {
                Some(m) => show_match(parser, m),
                None => String::new(),
            },
        }
    }

    /// The body of the quantifier that an instantiation instantiates; `None` for
    /// other nodes and for instantiations without a quantifier.
    pub fn quantifier_body(&self) -> (r: Option<String>)
        ensures
            match r {
                Some(body) => node_match(self.ctxt.parser, self.node.kind) matches Some(m) && m.kind.spec_quant_idx() matches Some(q)
                    && body@ == quant_body_text(self.ctxt.parser, q),
                None => !(node_match(self.ctxt.parser, self.node.kind) matches Some(m) && m.kind.spec_quant_idx() is Some),
            },
    {
        let inst = match *self.node.kind() {
            NodeKind::Instantiation(inst) => inst,
            _ => {
                return None;
            },
        };
        let m = match self.ctxt.parser.match_of(inst) {
            Some(m) => m,
            None => {
                return None;
            },
        };
        match m.kind.quant_idx() {
            Some(q) => Some(show_quant_body(self.ctxt.parser, q)),
            None => None,
        }
    }

    /// What each trigger of the instantiation's pattern was matched by; `None` for
    /// nodes that matched no pattern.
    pub fn blame(&self) -> (r: Option<Vec<(String, String, Vec<String>)>>)
        ensures
            match (r, blame_of(self.ctxt.parser, self.node.kind, self.ctxt.config)) {
                (Some(v), Some(s)) => v@.len() == s.len() && forall|j: int| 0 <= j < s.len() ==> entry_view(#[trigger] v@[j]) == s[j],
                (None, None) => true,
                _ => false,
            },
    {
        let parser = self.ctxt.parser;
        let inst = match *self.node.kind() {
            NodeKind::Instantiation(inst) => inst,
            _ => {
                return None;
            },
        };
        let m = match parser.match_of(inst) {
            Some(m) => m,
            None => {
                return None;
            },
        };
        let pattern = match m.kind.pattern() {
            Some(p) => p,
            None => {
                return None;
            },
        };
        let term = match parser.term(pattern) {
            Some(t) => t,
            None => {
                return None;
            },
        };
        let triggers = &term.child_ids;
        let matched = &m.trigger_matches;
        let l = if triggers.len() <= matched.len() { triggers.len() } else { matched.len() };
        let ghost goal = blame_of(parser, self.node.kind, self.ctxt.config)->0;
        let mut blame: Vec<(String, String, Vec<String>)> = Vec::new();
        let mut j: usize = 0;
        while j < l
            invariant
                j <= l,
                l == shorter(triggers@.len(), matched@.len()),
                goal.len() == l,
                forall|k: int| 0 <= k < l ==> goal[k] == blame_entry(parser, self.ctxt.config, triggers@[triggers@.len() - l + k], matched@[l - 1 - k]),
                blame@.len() == j,
                forall|k: int| 0 <= k < j ==> entry_view(#[trigger] blame@[k]) == goal[k],
            decreases l - j,
        {
            let trigger = triggers[triggers.len() - l + j];
            let tm = &matched[l - 1 - j];
            let shown_trigger = show_term(parser, trigger);
            let shown_enode = show_enode(parser, tm.enode, &self.ctxt.config);
            let mut equalities: Vec<String> = Vec::new();
            let mut e: usize = 0;
            while e < tm.equalities.len()
                invariant
                    e <= tm.equalities@.len(),
                    equalities@.len() == e,
                    forall|k: int| 0 <= k < e ==> (#[trigger] equalities@[k])@ == eq_trans_text(parser, tm.equalities@[k]),
                decreases tm.equalities@.len() - e,
            {
                equalities.push(show_eq_trans(parser, tm.equalities[e]));
                e += 1;
            }
            proof {
                assert(texts(equalities@) =~= blame_entry(parser, self.ctxt.config, trigger, *tm).2);
            }
            blame.push((shown_trigger, shown_enode, equalities));
            j += 1;
        }
        Some(blame)
    }

    /// One line for each variable that the instantiation bound; `None` for nodes
    /// that are no instantiation with a match.
    pub fn bound_terms(&self) -> (r: Option<Vec<String>>)
        ensures
            match (r, bound_lines(self.ctxt.parser, self.node.kind, self.ctxt.config)) {
                (Some(v), Some(s)) => texts(v@) == s,
                (None, None) => true,
                _ => false,
            },
    {
        let parser = self.ctxt.parser;
        let inst = match *self.node.kind() {
            NodeKind::Instantiation(inst) => inst,
            _ => {
                return None;
            },
        };
        let m = match parser.match_of(inst) {
            Some(m) => m,
            None => {
                return None;
            },
        };
        let quant = m.kind.quant_idx();
        let n = count_bound(&m.kind);
        let ghost goal = bound_lines(parser, self.node.kind, self.ctxt.config)->0;
        let mut lines: Vec<String> = Vec::new();
        let mut k: usize = 0;
        while k < n
            invariant
                k <= n,
                n == bound_count(m.kind),
                quant == m.kind.spec_quant_idx(),
                goal.len() == n,
                forall|i: int| 0 <= i < n ==> goal[i] == var_name(parser, quant, i as nat) + " \u{21a6} "@ + bound_text(parser, self.ctxt.config, m.kind, i),
                lines@.len() == k,
                forall|i: int| 0 <= i < k ==> (#[trigger] lines@[i])@ == goal[i],
            decreases n - k,
        {
            let mut line = name_of_var(parser, quant, k);
            line.append(" \u{21a6} ");
            line.append(show_bound(parser, &self.ctxt.config, &m.kind, k).as_str());
            lines.push(line);
            k += 1;
        }
        assert(texts(lines@) =~= goal);
        Some(lines)
    }

    /// The text of the instance that the instantiation produced; `None` where the
    /// trace does not hold it.
    pub fn resulting_term(&self) -> (r: Option<String>)
        ensures
            match (r, resulting_of(self.ctxt.parser, self.node.kind)) {
                (Some(text), Some(t)) => text@ == term_text(self.ctxt.parser, t),
                (None, None) => true,
                _ => false,
            },
    {
        let parser = self.ctxt.parser;
        let inst = match *self.node.kind() {
            NodeKind::Instantiation(inst) => inst,
            _ => {
                return None;
            },
        };
        let whole = match parser.inst(inst) {
            Some(i) => match i.resulting_term {
                Some(t) => t,
                None => {
                    return None;
                },
            },
            None => {
                return None;
            },
        };
        let or = match child_of(parser, whole, 0) {
            Some(t) => t,
            None => {
                return None;
            },
        };
        match child_of(parser, or, 1) {
            Some(t) => Some(show_term(parser, t)),
            None => None,
        }
    }

    /// The texts of the e-nodes that the instantiation yielded; `None` for nodes
    /// that are no instantiation of the trace.
    pub fn yield_terms(&self) -> (r: Option<Vec<String>>)
        ensures
            match (r, yields_of(self.ctxt.parser, self.node.kind, self.ctxt.config)) {
                (Some(v), Some(s)) => texts(v@) == s,
                (None, None) => true,
                _ => false,
            },
    {
        let parser = self.ctxt.parser;
        let inst = match *self.node.kind() {
            NodeKind::Instantiation(inst) => inst,
            _ => {
                return None;
            },
        };
        let yields = match parser.inst(inst) {
            Some(i) => &i.yields_terms,
            None => {
                return None;
            },
        };
        let mut out: Vec<String> = Vec::new();
        let mut k: usize = 0;
        while k < yields.len()
            invariant
                k <= yields@.len(),
                out@.len() == k,
                forall|i: int| 0 <= i < k ==> (#[trigger] out@[i])@ == enode_text(parser, yields@[i], self.ctxt.config),
            decreases yields@.len() - k,
        {
            out.push(show_enode(parser, yields[k], &self.ctxt.config));
            k += 1;
        }
        assert(texts(out@) =~= yields_of(parser, self.node.kind, self.ctxt.config)->0);
        Some(out)
    }
}

/// An edge as it is shown: the stored edges that it stands for, from its source to
/// its target. A shown edge of several stored edges bridges nodes that are not shown.
pub struct VisibleEdge {
    pub edges: Vec<EdgeIndex>,
}

/// What a shown edge means, as the view that made it classified it.
pub enum VisibleEdgeKind {
    /// One stored edge of the given kind.
    Direct(EdgeIndex, EdgeKind),
    /// An instantiation yielded a term that matched the trigger with this number.
    YieldBlame { enode: NodeIndex, trigger_term: u16 },
    /// An instantiation yielded an equality.
    YieldEq(NodeIndex),
    /// An instantiation yielded an equality that a match used.
    YieldBlameEq { given_eq: NodeIndex },
    /// An instantiation yielded an equality that led to others.
    YieldEqOther(NodeIndex, Vec<EdgeIndex>),
    /// A term caused an equality.
    ENodeEq(NodeIndex),
    /// A term caused an equality that a match used.
    ENodeBlameEq { given_eq: NodeIndex },
    /// A term caused an equality that led to others.
    ENodeEqOther(NodeIndex, Vec<EdgeIndex>),
    /// Anything else: the first stored edge, those between, and the last.
    Unknown(EdgeIndex, Vec<EdgeIndex>, EdgeIndex),
}

/// Whether a shown edge of these stored edges is indirect: it has more than one
/// stored edge, and the node that the first leads to and the node that the last
/// comes from are both not visible.
pub open spec fn indirect(path: Seq<EdgeIndex>, nodes: Seq<Node>, edges: Seq<(usize, usize)>) -> bool {
    &&& path.len() >= 2
    &&& path.first().0 < edges.len()
    &&& path.last().0 < edges.len()
    &&& edges[path.first().0 as int].1 < nodes.len()
    &&& edges[path.last().0 as int].0 < nodes.len()
    &&& !nodes[edges[path.first().0 as int].1 as int].spec_visible()
    &&& !nodes[edges[path.last().0 as int].0 as int].spec_visible()
}

/// The short name of the node behind a handle; empty for a handle out of bounds.
pub open spec fn handle_text(nodes: Seq<Node>, idx: NodeIndex) -> Seq<char> {
    if idx.0 < nodes.len() {
        index_text(nodes[idx.0 as int].kind)
    } else {
        Seq::empty()
    }
}

/// The label of the node at one end of a stored edge; `Unknown` where the graph
/// does not hold the edge.
pub open spec fn end_label(parser: &Z3Parser, nodes: Seq<Node>, edges: Seq<(usize, usize)>, e: EdgeIndex, target: bool) -> Seq<char> {
    if e.0 < edges.len() {
        let end = if target { edges[e.0 as int].1 } else { edges[e.0 as int].0 };
        if end < nodes.len() {
            kind_label(parser, nodes[end as int].kind)
        } else {
            "Unknown"@
        }
    } else {
        "Unknown"@
    }
}

/// The label of what a shown edge means.
pub open spec fn edge_label(parser: &Z3Parser, nodes: Seq<Node>, edges: Seq<(usize, usize)>, kind: VisibleEdgeKind) -> Seq<char> {
    match kind {
        VisibleEdgeKind::Direct(_, EdgeKind::Yield) => "Yield"@,
        VisibleEdgeKind::Direct(_, EdgeKind::Blame { trigger_term }) => "Blame trigger #"@ + decimal_digits(trigger_term as nat),
        VisibleEdgeKind::Direct(_, EdgeKind::BlameEq) => "Blame Equality"@,
        VisibleEdgeKind::Direct(_, EdgeKind::EqualityFact) => "Equality Fact"@,
        VisibleEdgeKind::Direct(_, EdgeKind::EqualityCongruence) => "Equality Congruence"@,
        VisibleEdgeKind::Direct(_, EdgeKind::TEqualitySimple) => "Simple Equality"@,
        VisibleEdgeKind::Direct(_, EdgeKind::TEqualityTransitive) => "Transitive Equality"@,
        VisibleEdgeKind::Direct(_, EdgeKind::TEqualityTransitiveBwd) => "Transitive Reverse Equality"@,
        VisibleEdgeKind::YieldBlame { trigger_term, .. } => "Yield/Blame trigger #"@ + decimal_digits(trigger_term as nat),
        VisibleEdgeKind::YieldEq(_) => "Yield Equality"@,
        VisibleEdgeKind::YieldBlameEq { .. } => "Yield/Blame Equality"@,
        VisibleEdgeKind::YieldEqOther(_, _) => "Yield Equality Other"@,
        VisibleEdgeKind::ENodeEq(_) => "ENode Equality"@,
        VisibleEdgeKind::ENodeBlameEq { .. } => "ENode/Blame Equality"@,
        VisibleEdgeKind::ENodeEqOther(_, _) => "ENode Equality Other"@,
        VisibleEdgeKind::Unknown(start, _, end) => "Compound "@ + end_label(parser, nodes, edges, start, true) + " to "@ + end_label(
            parser,
            nodes,
            edges,
            end,
            false,
        ),
    }
}

impl VisibleEdge {
    /// Whether the edge bridges nodes that are not shown.
    pub fn is_indirect(&self, graph: &InstGraph) -> (r: bool)
        requires
            graph.raw.wf(),
        ensures
            r == indirect(self.edges@, graph.raw.nodes(), graph.raw.edges()),
    {
        if self.edges.len() < 2 {
            return false;
        }
        let first = self.edges[0];
        let last = self.edges[self.edges.len() - 1];
        let inner_from = match graph.raw.edge_endpoints(first) {
            Some((_, to)) => to,
            None => {
                return false;
            },
        };
        let inner_to = match graph.raw.edge_endpoints(last) {
            Some((from, _)) => from,
            None => {
                return false;
            },
        };
        match (graph.raw.node(inner_from), graph.raw.node(inner_to)) {
            (Some(a), Some(b)) => !a.visible() && !b.visible(),
            _ => false,
        }
    }
}

/// A shown edge together with the graph and the display that describe it.
pub struct EdgeInfo<'a, 'b> {
    pub edge: &'a VisibleEdge,
    pub kind: &'a VisibleEdgeKind,
    pub from: NodeIndex,
    pub to: NodeIndex,
    pub graph: &'a InstGraph,
    pub ctxt: &'b DisplayCtxt<'b>,
}

fn name_of_handle(graph: &InstGraph, idx: NodeIndex) -> (r: String)
    ensures
        r@ == handle_text(graph.raw.nodes(), idx),
{
    match graph.raw.node(idx) {
        Some(node) => name_of(node.kind()),
        None => String::new(),
    }
}

fn label_of_end(parser: &Z3Parser, graph: &InstGraph, e: EdgeIndex, target: bool) -> (r: &'static str)
    ensures
        r@ == end_label(parser, graph.raw.nodes(), graph.raw.edges(), e, target),
{
    match graph.raw.edge_endpoints(e) {
        Some((from, to)) => {
            let end = if target { to } else { from };
            match graph.raw.node(end) {
                Some(node) => label_of(parser, node.kind()),
                None => "Unknown",
            }
        },
        None => "Unknown",
    }
}

impl<'a, 'b> EdgeInfo<'a, 'b> {
    /// The short name of the edge: the names of its ends with an arrow between, a
    /// wavy one for an indirect edge.
    pub fn index(&self) -> (r: String)
        requires
            self.graph.raw.wf(),
        ensures
            r@ == handle_text(self.graph.raw.nodes(), self.from) + " "@ + (if indirect(
                self.edge.edges@,
                self.graph.raw.nodes(),
                self.graph.raw.edges(),
            ) {
                "\u{219d}"@
            } else {
                "\u{2192}"@
            }) + " "@ + handle_text(self.graph.raw.nodes(), self.to),
    {
        let is_indirect = self.edge.is_indirect(self.graph);
        let arrow = match is_indirect {
            true => "\u{219d}",
            false => "\u{2192}",
        };
        let mut r = name_of_handle(self.graph, self.from);
        r.append(" ");
        r.append(arrow);
        r.append(" ");
        r.append(name_of_handle(self.graph, self.to).as_str());
        r
    }

    /// The label of what the edge means.
    pub fn kind(&self) -> (r: String)
        ensures
            r@ == edge_label(self.ctxt.parser, self.graph.raw.nodes(), self.graph.raw.edges(), *self.kind),
    {
        match self.kind {
            VisibleEdgeKind::Direct(_, EdgeKind::Yield) => String::from_str("Yield"),
            VisibleEdgeKind::Direct(_, EdgeKind::Blame { trigger_term }) => {
                let mut r = String::from_str("Blame trigger #");
                r.append(decimal(*trigger_term as usize).as_str());
                r
            },
            VisibleEdgeKind::Direct(_, EdgeKind::BlameEq) => String::from_str("Blame Equality"),
            VisibleEdgeKind::Direct(_, EdgeKind::EqualityFact) => String::from_str("Equality Fact"),
            VisibleEdgeKind::Direct(_, EdgeKind::EqualityCongruence) => String::from_str("Equality Congruence"),
            VisibleEdgeKind::Direct(_, EdgeKind::TEqualitySimple) => String::from_str("Simple Equality"),
            VisibleEdgeKind::Direct(_, EdgeKind::TEqualityTransitive) => String::from_str("Transitive Equality"),
            VisibleEdgeKind::Direct(_, EdgeKind::TEqualityTransitiveBwd) => String::from_str("Transitive Reverse Equality"),
            VisibleEdgeKind::YieldBlame { trigger_term, .. } => {
                let mut r = String::from_str("Yield/Blame trigger #");
                r.append(decimal(*trigger_term as usize).as_str());
                r
            },
            VisibleEdgeKind::YieldEq(_) => String::from_str("Yield Equality"),
            VisibleEdgeKind::YieldBlameEq { .. } => String::from_str("Yield/Blame Equality"),
            VisibleEdgeKind::YieldEqOther(_, _) => String::from_str("Yield Equality Other"),
            VisibleEdgeKind::ENodeEq(_) => String::from_str("ENode Equality"),
            VisibleEdgeKind::ENodeBlameEq { .. } => String::from_str("ENode/Blame Equality"),
            VisibleEdgeKind::ENodeEqOther(_, _) => String::from_str("ENode Equality Other"),
            VisibleEdgeKind::Unknown(start, _, end) => {
                let hidden_from = label_of_end(self.ctxt.parser, self.graph, *start, true);
                let hidden_to = label_of_end(self.ctxt.parser, self.graph, *end, false);
                let mut r = String::from_str("Compound ");
                r.append(hidden_from);
                r.append(" to ");
                r.append(hidden_to);
                r
            },
        }
    }

    /// The text shown for the edge: its short name.
    pub fn tooltip(&self) -> (r: String)
        requires
            self.graph.raw.wf(),
        ensures
            r@ == handle_text(self.graph.raw.nodes(), self.from) + " "@ + (if indirect(
                self.edge.edges@,
                self.graph.raw.nodes(),
                self.graph.raw.edges(),
            ) {
                "\u{219d}"@
            } else {
                "\u{2192}"@
            }) + " "@ + handle_text(self.graph.raw.nodes(), self.to),
    {
        self.index()
    }
}

} // verus!
