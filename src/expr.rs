//! Expression trees: the data that a parser builds from tokens.
use vstd::prelude::*;
use crate::token::Token;

verus! {

/// A literal value inside an expression. Numbers are kept as their decimal
/// numeral, as in [`crate::token::Literal`].
#[derive(Debug, Clone, PartialEq, Eq)]
pub enum LiteralValue {
    Number(String),
    String(String),
    Bool(bool),
    Nil,
}

/// An expression: a literal, a unary or binary operation, or a grouping.
#[derive(Debug)]
pub enum Expr {
    Binary { left: Box<Expr>, operator: Token, right: Box<Expr> },
    Grouping { expression: Box<Expr> },
    Literal { value: LiteralValue },
    Unary { operator: Token, right: Box<Expr> },
}

/// An operation over expressions, with one method for each kind of node.
pub trait Visitor<T> {
    fn visit_binary(&mut self, left: &Expr, operator: &Token, right: &Expr) -> T;

    fn visit_grouping(&mut self, expression: &Expr) -> T;

    fn visit_literal(&mut self, value: &LiteralValue) -> T;

    fn visit_unary(&mut self, operator: &Token, right: &Expr) -> T;
}

impl Expr {
    /// Hands the node's parts to the visitor method for its kind.
    pub fn accept<T, V: Visitor<T>>(&self, visitor: &mut V) -> T {
        match self {
            Expr::Binary { left, operator, right } => visitor.visit_binary(left, operator, right),
            Expr::Grouping { expression } => visitor.visit_grouping(expression),
            Expr::Literal { value } => visitor.visit_literal(value),
            Expr::Unary { operator, right } => visitor.visit_unary(operator, right),
        }
    }

    pub fn binary(left: Expr, operator: Token, right: Expr) -> (r: Expr)
        ensures
            r == (Expr::Binary { left: Box::new(left), operator, right: Box::new(right) }),
    {
        Expr::Binary { left: Box::new(left), operator, right: Box::new(right) }
    }

    pub fn grouping(expression: Expr) -> (r: Expr)
        ensures
            r == (Expr::Grouping { expression: Box::new(expression) }),
    {
        Expr::Grouping { expression: Box::new(expression) }
    }

    pub fn literal(value: LiteralValue) -> (r: Expr)
        ensures
            r == (Expr::Literal { value }),
    {
        Expr::Literal { value }
    }

    pub fn unary(operator: Token, right: Expr) -> (r: Expr)
        ensures
            r == (Expr::Unary { operator, right: Box::new(right) }),
    {
        Expr::Unary { operator, right: Box::new(right) }
    }
}

} // verus!
