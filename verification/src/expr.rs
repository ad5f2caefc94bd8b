//! Expression nodes of the syntax tree. Each node exclusively owns its
//! children: the tree is never shared and never cyclic. Nodes are immutable
//! after construction.

use crate::token::{Literal, Token};
use vstd::prelude::*;

verus! {

/// An expression.
pub enum Expr {
    Literal(Literal),
    Grouping(Grouping),
    Unary(Unary),
    Binary(Binary),
    Variable(Variable),
    Assign(Assign),
    Logical(Logical),
}

/// A parenthesized expression.
pub struct Grouping {
    pub expression: Box<Expr>,
}

/// A prefix operator (`!` or `-`) applied to an operand.
pub struct Unary {
    pub op: Token,
    pub right: Box<Expr>,
}

/// A binary operator between two operands.
pub struct Binary {
    pub left: Box<Expr>,
    pub op: Token,
    pub right: Box<Expr>,
}

/// A bare variable reference.
pub struct Variable {
    pub name: Token,
}

/// An assignment to an already-declared variable.
pub struct Assign {
    pub name: Token,
    pub value: Box<Expr>,
}

/// A short-circuiting `and` / `or`.
pub struct Logical {
    pub left: Box<Expr>,
    pub condition: Token,
    pub right: Box<Expr>,
}

} // verus!
