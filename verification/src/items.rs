//! The facts of a trace that the graph engine reads: terms, e-nodes, equalities,
//! quantifiers, matches and instantiations, each kept in a table and named by its
//! position there. The tables arrive filled by whatever ingested the trace; a
//! partial trace may name entries that are not there, so every lookup can fail.

use vstd::prelude::*;

verus! {

#[derive(Clone, Copy, PartialEq, Eq, Structural, Debug, Hash)]
pub struct TermIdx(pub usize);

#[derive(Clone, Copy, PartialEq, Eq, Structural, Debug, Hash)]
pub struct ENodeIdx(pub usize);

#[derive(Clone, Copy, PartialEq, Eq, Structural, Debug, Hash)]
pub struct QuantIdx(pub usize);

#[derive(Clone, Copy, PartialEq, Eq, Structural, Debug, Hash)]
pub struct InstIdx(pub usize);

impl From<InstIdx> for usize {
    fn from(i: InstIdx) -> (r: usize) {
        i.0
    }
}

impl vstd::std_specs::convert::FromSpecImpl<InstIdx> for usize {
    open spec fn obeys_from_spec() -> bool {
        true
    }

    open spec fn from_spec(i: InstIdx) -> usize {
        i.0
    }
}

impl From<usize> for InstIdx {
    fn from(i: usize) -> (r: InstIdx) {
        InstIdx(i)
    }
}

impl vstd::std_specs::convert::FromSpecImpl<usize> for InstIdx {
    open spec fn obeys_from_spec() -> bool {
        true
    }

    open spec fn from_spec(i: usize) -> InstIdx {
        InstIdx(i)
    }
}

#[derive(Clone, Copy, PartialEq, Eq, Structural, Debug, Hash)]
pub struct MatchIdx(pub usize);

#[derive(Clone, Copy, PartialEq, Eq, Structural, Debug, Hash)]
pub struct EqGivenIdx(pub usize);

#[derive(Clone, Copy, PartialEq, Eq, Structural, Debug, Hash)]
pub struct EqTransIdx(pub usize);

/// A term with its printed form and its direct subterms.
#[derive(Clone, Debug)]
pub struct Term {
    pub text: String,
    pub child_ids: Vec<TermIdx>,
}

/// A quantifier with its printed name, whether the user chose that name, its printed
/// body, and the names of its bound variables where the trace gives them.
#[derive(Clone, Debug)]
pub struct Quantifier {
    pub name: String,
    pub user_named: bool,
    pub body: String,
    pub vars: Option<Vec<String>>,
}

/// The identifier of a theory axiom: a namespace and, where there is one, a number.
#[derive(Clone, Debug)]
pub struct TermId {
    pub namespace: String,
    pub id: Option<u32>,
}

/// What produced a match.
#[derive(Clone, Debug)]
pub enum MatchKind {
    MBQI { quant: QuantIdx, bound_terms: Vec<ENodeIdx> },
    TheorySolving { axiom_id: TermId, bound_terms: Vec<TermIdx> },
    Axiom { quant: QuantIdx, pattern: TermIdx, bound_terms: Vec<TermIdx> },
    Quantifier { quant: QuantIdx, pattern: TermIdx, bound_terms: Vec<ENodeIdx> },
}

/// The e-node that matched one trigger of a pattern, with the equalities that the
/// match needed.
#[derive(Clone, Debug)]
pub struct TriggerMatch {
    pub enode: ENodeIdx,
    pub equalities: Vec<EqTransIdx>,
}

#[derive(Clone, Debug)]
pub struct Match {
    pub kind: MatchKind,
    pub trigger_matches: Vec<TriggerMatch>,
}

/// One instantiation: the match that caused it, the solver's generation counter,
/// the term it produced, the e-nodes it yielded, and where and at what cost the
/// log recorded it.
#[derive(Clone, Debug)]
pub struct Instantiation {
    pub match_: MatchIdx,
    pub z3_generation: Option<u32>,
    pub resulting_term: Option<TermIdx>,
    pub yields_terms: Vec<ENodeIdx>,
    pub line_no: Option<usize>,
    pub cost: u64,
    pub quant_discovered: bool,
}

/// A dependency between two instantiations, by the log lines that recorded them.
#[derive(Clone, Copy, Debug)]
pub struct Dependency {
    pub from: usize,
    pub to: Option<usize>,
}

/// The tables of one trace.
pub struct Z3Parser {
    pub terms: Vec<Term>,
    pub enodes: Vec<String>,
    pub eq_givens: Vec<String>,
    pub eq_transes: Vec<String>,
    pub quantifiers: Vec<Quantifier>,
    pub matches: Vec<Match>,
    pub instantiations: Vec<Instantiation>,
    pub dependencies: Vec<Dependency>,
}

impl MatchKind {
    /// The quantifier of the match, which a theory-solving match does not have.
    pub open spec fn spec_quant_idx(self) -> Option<QuantIdx> {
        match self {
            MatchKind::MBQI { quant, .. } => Some(quant),
            MatchKind::TheorySolving { .. } => None,
            MatchKind::Axiom { quant, .. } => Some(quant),
            MatchKind::Quantifier { quant, .. } => Some(quant),
        }
    }

    pub fn quant_idx(&self) -> (r: Option<QuantIdx>)
        ensures
            r == self.spec_quant_idx(),
    {
        match self {
            MatchKind::MBQI { quant, .. } => Some(*quant),
            MatchKind::TheorySolving { .. } => None,
            MatchKind::Axiom { quant, .. } => Some(*quant),
            MatchKind::Quantifier { quant, .. } => Some(*quant),
        }
    }

    /// The pattern whose triggers were matched, for the kinds that match patterns.
    pub open spec fn spec_pattern(self) -> Option<TermIdx> {
        match self {
            MatchKind::Axiom { pattern, .. } => Some(pattern),
            MatchKind::Quantifier { pattern, .. } => Some(pattern),
            _ => None,
        }
    }

    pub fn pattern(&self) -> (r: Option<TermIdx>)
        ensures
            r == self.spec_pattern(),
    {
        match self {
            MatchKind::Axiom { pattern, .. } => Some(*pattern),
            MatchKind::Quantifier { pattern, .. } => Some(*pattern),
            _ => None,
        }
    }

    /// Whether the solver's theory reasoning found the instance, not a pattern match.
    pub fn is_discovered(&self) -> (r: bool)
        ensures
            r == (self is TheorySolving),
    {
        match self {
            MatchKind::TheorySolving { .. } => true,
            _ => false,
        }
    }
}

impl Z3Parser {
    /// A trace without facts.
    pub fn new() -> (p: Self)
        ensures
            p.terms@.len() == 0,
            p.enodes@.len() == 0,
            p.eq_givens@.len() == 0,
            p.eq_transes@.len() == 0,
            p.quantifiers@.len() == 0,
            p.matches@.len() == 0,
            p.instantiations@.len() == 0,
            p.dependencies@.len() == 0,
    {
        Z3Parser {
            terms: Vec::new(),
            enodes: Vec::new(),
            eq_givens: Vec::new(),
            eq_transes: Vec::new(),
            quantifiers: Vec::new(),
            matches: Vec::new(),
            instantiations: Vec::new(),
            dependencies: Vec::new(),
        }
    }

    pub fn term(&self, t: TermIdx) -> (r: Option<&Term>)
        ensures
            r == if t.0 < self.terms@.len() { Some(&self.terms@[t.0 as int]) } else { None },
    {
        if t.0 < self.terms.len() {
            Some(&self.terms[t.0])
        } else {
            None
        }
    }

    pub fn quantifier(&self, q: QuantIdx) -> (r: Option<&Quantifier>)
        ensures
            r == if q.0 < self.quantifiers@.len() { Some(&self.quantifiers@[q.0 as int]) } else { None },
    {
        if q.0 < self.quantifiers.len() {
            Some(&self.quantifiers[q.0])
        } else {
            None
        }
    }

    pub fn inst(&self, i: InstIdx) -> (r: Option<&Instantiation>)
        ensures
            r == if i.0 < self.instantiations@.len() { Some(&self.instantiations@[i.0 as int]) } else { None },
    {
        if i.0 < self.instantiations.len() {
            Some(&self.instantiations[i.0])
        } else {
            None
        }
    }

    /// The match of an instantiation, where the trace holds both.
    pub open spec fn spec_match_of(&self, i: InstIdx) -> Option<Match> {
        if i.0 < self.instantiations@.len() && self.instantiations@[i.0 as int].match_.0 < self.matches@.len() {
            Some(self.matches@[self.instantiations@[i.0 as int].match_.0 as int])
        } else {
            None
        }
    }

    pub fn match_of(&self, i: InstIdx) -> (r: Option<&Match>)
        ensures
            r == match self.spec_match_of(i) {
                Some(m) => Some(&m),
                None => None,
            },
    {
        match self.inst(i) {
            Some(inst) => {
                if inst.match_.0 < self.matches.len() {
                    Some(&self.matches[inst.match_.0])
                } else {
                    None
                }
            },
            None => None,
        }
    }
}

} // verus!
