//! Runtime values: the dynamic type of every evaluated expression, and its
//! mathematical model used by the semantics.

use crate::token::Literal;
use vstd::prelude::*;

verus! {

/// A runtime value.
pub enum Object {
    Boolean(bool),
    Null,
    Number(i64),
    Str(String),
}

/// The mathematical model of a runtime value: text is a sequence of
/// characters rather than a heap-allocated string.
pub enum Val {
    Num(i64),
    Text(Seq<char>),
    Bool(bool),
    Nil,
}

impl View for Object {
    type V = Val;

    open spec fn view(&self) -> Val {
        match self {
            Object::Boolean(b) => Val::Bool(*b),
            Object::Null => Val::Nil,
            Object::Number(n) => Val::Num(*n),
            Object::Str(s) => Val::Text(s@),
        }
    }
}

/// The model of a literal, folded into a runtime value.
pub open spec fn lit_val(l: Literal) -> Val {
    match l {
        Literal::Number(n) => Val::Num(n),
        Literal::Str(s) => Val::Text(s@),
        Literal::Bool(b) => Val::Bool(b),
        Literal::Nil => Val::Nil,
    }
}

/// Truthiness: `Nil` and `Bool(false)` are falsy; every other value,
/// including `Num(0)` and empty text, is truthy.
pub open spec fn truthy(v: Val) -> bool {
    match v {
        Val::Bool(b) => b,
        Val::Nil => false,
        _ => true,
    }
}

/// Structural equality of runtime values: values of different tags are never
/// equal, `Nil` equals `Nil`, and otherwise values compare by content.
pub open spec fn val_eq(a: Val, b: Val) -> bool {
    match (a, b) {
        (Val::Nil, Val::Nil) => true,
        (Val::Bool(x), Val::Bool(y)) => x == y,
        (Val::Num(x), Val::Num(y)) => x == y,
        (Val::Text(x), Val::Text(y)) => x == y,
        _ => false,
    }
}

impl Clone for Object {
    fn clone(&self) -> (r: Self)
        ensures
            r == *self,
    {
        match self {
            Object::Boolean(b) => Object::Boolean(*b),
            Object::Null => Object::Null,
            Object::Number(n) => Object::Number(*n),
            Object::Str(s) => Object::Str(s.clone()),
        }
    }
}

impl Object {
    /// Executable truthiness test; follows `truthy` on the value's model.
    pub fn is_truthy(&self) -> (r: bool)
        ensures
            r == truthy(self@),
    {
        match self {
            Object::Boolean(b) => *b,
            Object::Null => false,
            _ => true,
        }
    }

    /// Executable structural equality; follows `val_eq` on the models.
    /// This comparison never fails, whatever the operand tags.
    pub fn is_equal(&self, other: &Object) -> (r: bool)
        ensures
            r == val_eq(self@, other@),
    {
        match (self, other) {
            (Object::Null, Object::Null) => true,
            (Object::Boolean(l), Object::Boolean(r)) => *l == *r,
            (Object::Number(l), Object::Number(r)) => *l == *r,
            (Object::Str(l), Object::Str(r)) => *l == *r,
            _ => false,
        }
    }
}

} // verus!
