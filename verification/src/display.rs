//! How the texts of a trace are shown.
//!
//! The trace holds every term, e-node, equality and quantifier with its text.
//! A display hands these texts out; a name that the trace does not hold shows as
//! the empty text. The text of an e-node is cut where the configuration says so.

use crate::items::{ENodeIdx, EqGivenIdx, EqTransIdx, QuantIdx, TermIdx, Z3Parser};
use crate::text::{cut, shown};
use vstd::prelude::*;

verus! {

/// The settings of a display.
#[derive(Clone, Copy, Debug)]
pub struct DisplayConfiguration {
    /// Whether the text goes into a page of markup.
    pub html: bool,
    /// Whether the texts of e-nodes are cut to `enode_char_limit` characters.
    pub limit_enode_chars: bool,
    pub enode_char_limit: usize,
}

/// A trace together with the settings to show it with.
pub struct DisplayCtxt<'a> {
    pub parser: &'a Z3Parser,
    pub config: DisplayConfiguration,
}

pub open spec fn term_text(parser: &Z3Parser, t: TermIdx) -> Seq<char> {
    if t.0 < parser.terms@.len() {
        parser.terms@[t.0 as int].text@
    } else {
        Seq::empty()
    }
}

pub open spec fn enode_text(parser: &Z3Parser, e: ENodeIdx, config: DisplayConfiguration) -> Seq<char> {
    if e.0 < parser.enodes@.len() {
        shown(parser.enodes@[e.0 as int]@, config)
    } else {
        Seq::empty()
    }
}

pub open spec fn eq_given_text(parser: &Z3Parser, e: EqGivenIdx) -> Seq<char> {
    if e.0 < parser.eq_givens@.len() {
        parser.eq_givens@[e.0 as int]@
    } else {
        Seq::empty()
    }
}

pub open spec fn eq_trans_text(parser: &Z3Parser, e: EqTransIdx) -> Seq<char> {
    if e.0 < parser.eq_transes@.len() {
        parser.eq_transes@[e.0 as int]@
    } else {
        Seq::empty()
    }
}

pub open spec fn quant_name_text(parser: &Z3Parser, q: QuantIdx) -> Seq<char> {
    if q.0 < parser.quantifiers@.len() {
        parser.quantifiers@[q.0 as int].name@
    } else {
        Seq::empty()
    }
}

pub open spec fn quant_body_text(parser: &Z3Parser, q: QuantIdx) -> Seq<char> {
    if q.0 < parser.quantifiers@.len() {
        parser.quantifiers@[q.0 as int].body@
    } else {
        Seq::empty()
    }
}

pub fn show_term(parser: &Z3Parser, t: TermIdx) -> (r: String)
    ensures
        r@ == term_text(parser, t),
{
    if t.0 < parser.terms.len() {
        parser.terms[t.0].text.clone()
    } else {
        String::new()
    }
}

pub fn show_enode(parser: &Z3Parser, e: ENodeIdx, config: &DisplayConfiguration) -> (r: String)
    ensures
        r@ == enode_text(parser, e, *config),
{
    if e.0 < parser.enodes.len() {
        cut(&parser.enodes[e.0], config)
    } else {
        String::new()
    }
}

pub fn show_eq_given(parser: &Z3Parser, e: EqGivenIdx) -> (r: String)
    ensures
        r@ == eq_given_text(parser, e),
{
    if e.0 < parser.eq_givens.len() {
        parser.eq_givens[e.0].clone()
    } else {
        String::new()
    }
}

pub fn show_eq_trans(parser: &Z3Parser, e: EqTransIdx) -> (r: String)
    ensures
        r@ == eq_trans_text(parser, e),
{
    if e.0 < parser.eq_transes.len() {
        parser.eq_transes[e.0].clone()
    } else {
        String::new()
    }
}

pub fn show_quant_name(parser: &Z3Parser, q: QuantIdx) -> (r: String)
    ensures
        r@ == quant_name_text(parser, q),
{
    if q.0 < parser.quantifiers.len() {
        parser.quantifiers[q.0].name.clone()
    } else {
        String::new()
    }
}

pub fn show_quant_body(parser: &Z3Parser, q: QuantIdx) -> (r: String)
    ensures
        r@ == quant_body_text(parser, q),
{
    if q.0 < parser.quantifiers.len() {
        parser.quantifiers[q.0].body.clone()
    } else {
        String::new()
    }
}

} // verus!
