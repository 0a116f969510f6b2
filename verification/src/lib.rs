//! A small arithmetic expression engine: a recursive-descent parser for
//! integer expressions with `+ - * /`, parentheses and implicit
//! multiplication, an expression tree, and an exact evaluator over
//! rational numbers with an explicit division-by-zero check.

pub mod op;
pub mod expr;
pub mod parser;
pub mod laws;
