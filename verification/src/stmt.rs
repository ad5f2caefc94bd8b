//! Statement nodes of the syntax tree. A statement exclusively owns its
//! nested statements and expressions.

use crate::expr::Expr;
use crate::token::Token;
use vstd::prelude::*;

verus! {

/// A statement.
pub enum Stmt {
    Expression(Expression),
    Print(Print),
    Variable(Variable),
    Block(Block),
    If(If),
    While(While),
}

/// An expression evaluated for its effects; the value is discarded.
pub struct Expression {
    pub expression: Expr,
}

/// `print <expr> ;` — evaluates, then emits a textual rendering.
pub struct Print {
    pub expression: Expr,
}

/// `var <name> = <initializer> ;` — a declaration with no initializer
/// carries the literal `nil` as its initializer.
pub struct Variable {
    pub name: Token,
    pub initializer: Expr,
}

/// `{ ... }` — runs its body in a fresh child scope.
pub struct Block {
    pub statements: Vec<Stmt>,
}

/// `if (<cond>) <then> else <else>` — the else branch is optional.
pub struct If {
    pub condition: Expr,
    pub then_branch: Box<Stmt>,
    pub else_branch: Option<Box<Stmt>>,
}

/// `while (<cond>) <body>`.
pub struct While {
    pub condition: Expr,
    pub body: Box<Stmt>,
}

} // verus!
