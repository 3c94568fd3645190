//! Small pieces of text: numbers in decimal and texts cut to a length.

use crate::display::DisplayConfiguration;
use vstd::prelude::*;

verus! {

/// The character of a decimal digit.
pub open spec fn digit(d: nat) -> char {
    if d == 0 {
        '0'
    } else if d == 1 {
        '1'
    } else if d == 2 {
        '2'
    } else if d == 3 {
        '3'
    } else if d == 4 {
        '4'
    } else if d == 5 {
        '5'
    } else if d == 6 {
        '6'
    } else if d == 7 {
        '7'
    } else if d == 8 {
        '8'
    } else {
        '9'
    }
}

/// The decimal digits of a number, without leading zeros.
pub open spec fn decimal_digits(n: nat) -> Seq<char>
    decreases n,
{
    if n < 10 {
        seq![digit(n)]
    } else {
        decimal_digits(n / 10).push(digit(n % 10))
    }
}

/// A text as a display shows it under `config`: cut to the limit of characters
/// where the configuration sets one.
pub open spec fn shown(text: Seq<char>, config: DisplayConfiguration) -> Seq<char> {
    if config.limit_enode_chars && text.len() > config.enode_char_limit {
        text.take(config.enode_char_limit as int)
    } else {
        text
    }
}

/// The views of the texts in `v`.
pub open spec fn texts(v: Seq<String>) -> Seq<Seq<char>> {
    Seq::new(v.len(), |i: int| v[i]@)
}

/// `to_string` of the standard library on an unsigned number: its decimal digits.
#[verifier::external_body]
pub(crate) fn decimal(n: usize) -> (r: String)
    ensures
        r@ == decimal_digits(n as nat),
{
    n.to_string()
}

/// The text as a display shows it under `config`.
pub fn cut(text: &String, config: &DisplayConfiguration) -> (r: String)
    ensures
        r@ == shown(text@, *config),
{
    if config.limit_enode_chars {
        let len = text.as_str().unicode_len();
        if len > config.enode_char_limit {
            let r = String::from_str(text.as_str().substring_char(0, config.enode_char_limit));
            assert(r@ =~= text@.take(config.enode_char_limit as int));
            return r;
        }
    }
    text.clone()
}

} // verus!
