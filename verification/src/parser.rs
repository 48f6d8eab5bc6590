use vstd::prelude::*;

verus! {

/// Expression tree of the (not yet implemented) statement parser.
/// Only the shape is declared; no construction logic exists yet.
#[derive(Debug)]
pub enum Expr {
    Block(Box<Expr>),
    NumberLiteral(String),
    StringLiteral(String),
    Identifier(String),
    Sequence(Vec<Expr>),
    Add(Box<Expr>, Box<Expr>),
    Sub(Box<Expr>, Box<Expr>),
    Call(),
}

/// Placeholder for the statement parser.
#[allow(dead_code)]
pub struct Parser {
    statements: Vec<Expr>,
}

} // verus!
