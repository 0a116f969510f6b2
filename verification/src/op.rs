//! The four binary operators of the grammar.

use vstd::prelude::*;

verus! {

/// The byte `'+'`.
pub const PLUS: u8 = 43;

/// The byte `'-'`.
pub const MINUS: u8 = 45;

/// The byte `'*'`.
pub const STAR: u8 = 42;

/// The byte `'/'`.
pub const SLASH: u8 = 47;

/// The byte `'('`.
pub const LPAREN: u8 = 40;

/// The byte `')'`.
pub const RPAREN: u8 = 41;

/// The byte `' '`.
pub const SPACE: u8 = 32;

/// The byte `'0'`.
pub const DIGIT_ZERO: u8 = 48;

/// The byte `'9'`.
pub const DIGIT_NINE: u8 = 57;

/// A binary arithmetic operator.
#[derive(Clone, Copy, Debug, PartialEq, Eq)]
pub enum Op {
    Add,
    Sub,
    Mul,
    Div,
}

impl Op {
    /// The canonical one-byte symbol of the operator, as it appears in
    /// source text and in the fully parenthesized rendering.
    pub open spec fn symbol_spec(self) -> u8 {
        match self {
            Op::Add => PLUS,
            Op::Sub => MINUS,
            Op::Mul => STAR,
            Op::Div => SLASH,
        }
    }

    /// Returns the textual symbol of the operator as a byte.
    pub fn symbol(&self) -> (r: u8)
        ensures
            r == self.symbol_spec(),
    {
        match self {
            Op::Add => PLUS,
            Op::Sub => MINUS,
            Op::Mul => STAR,
            Op::Div => SLASH,
        }
    }
}

} // verus!
