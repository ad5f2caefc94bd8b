//! A debug printer for expression trees. It renders valid source text:
//! every composite is fully parenthesized, so re-parsing the rendering
//! yields a tree with the same evaluation result (grouping nodes aside).

use crate::expr::Expr;
use crate::text::{chars_to_string, int_text, push_int_text, push_str_chars};
use crate::token::{Literal, TokenType};
use vstd::prelude::*;

verus! {

/// The canonical source text of an operator kind; kinds outside the
/// grammar's operator set render as `?`.
pub open spec fn op_text(kind: TokenType) -> Seq<char> {
    match kind {
        TokenType::Minus => "-"@,
        TokenType::Plus => "+"@,
        TokenType::Star => "*"@,
        TokenType::Slash => "/"@,
        TokenType::Bang => "!"@,
        TokenType::Greater => ">"@,
        TokenType::GreaterEqual => ">="@,
        TokenType::Less => "<"@,
        TokenType::LessEqual => "<="@,
        TokenType::EqualEqual => "=="@,
        TokenType::BangEqual => "!="@,
        TokenType::And => "and"@,
        TokenType::Or => "or"@,
        _ => "?"@,
    }
}

/// The source text of a literal: a number's digits, a quoted string, a
/// keyword literal.
pub open spec fn lit_text(l: Literal) -> Seq<char> {
    match l {
        Literal::Number(n) => int_text(n as int),
        Literal::Str(s) => seq!['"'] + s@ + seq!['"'],
        Literal::Bool(b) => if b {
            "true"@
        } else {
            "false"@
        },
        Literal::Nil => "nil"@,
    }
}

/// The rendering of an expression tree as source text: literals and
/// variables stand bare, every composite is wrapped in parentheses.
pub open spec fn expr_text(e: Expr) -> Seq<char>
    decreases e,
{
    match e {
        Expr::Literal(l) => lit_text(l),
        Expr::Grouping(g) => seq!['('] + expr_text(*g.expression) + seq![')'],
        Expr::Unary(u) => op_text(u.op.kind) + expr_text(*u.right),
        Expr::Binary(b) => seq!['('] + expr_text(*b.left) + seq![' '] + op_text(b.op.kind)
            + seq![' '] + expr_text(*b.right) + seq![')'],
        Expr::Logical(l) => seq!['('] + expr_text(*l.left) + seq![' '] + op_text(l.condition.kind)
            + seq![' '] + expr_text(*l.right) + seq![')'],
        Expr::Variable(v) => v.name.lexeme@,
        Expr::Assign(a) => seq!['('] + a.name.lexeme@ + " = "@ + expr_text(*a.value) + seq![')'],
    }
}

/// The expression printer.
pub struct AstPrinter;

/// Appends the canonical text of an operator kind.
fn push_op_text(out: &mut Vec<char>, kind: TokenType)
    ensures
        final(out)@ == old(out)@ + op_text(kind),
{
    match kind {
        TokenType::Minus => push_str_chars(out, "-"),
        TokenType::Plus => push_str_chars(out, "+"),
        TokenType::Star => push_str_chars(out, "*"),
        TokenType::Slash => push_str_chars(out, "/"),
        TokenType::Bang => push_str_chars(out, "!"),
        TokenType::Greater => push_str_chars(out, ">"),
        TokenType::GreaterEqual => push_str_chars(out, ">="),
        TokenType::Less => push_str_chars(out, "<"),
        TokenType::LessEqual => push_str_chars(out, "<="),
        TokenType::EqualEqual => push_str_chars(out, "=="),
        TokenType::BangEqual => push_str_chars(out, "!="),
        TokenType::And => push_str_chars(out, "and"),
        TokenType::Or => push_str_chars(out, "or"),
        _ => push_str_chars(out, "?"),
    }
}

/// Appends the rendering of an expression tree.
fn push_expr_text(out: &mut Vec<char>, e: &Expr)
    ensures
        final(out)@ == old(out)@ + expr_text(*e),
    decreases e,
{
    match e {
        Expr::Literal(l) => {
            match l {
                Literal::Number(n) => push_int_text(out, *n),
                Literal::Str(s) => {
                    out.push('"');
                    push_str_chars(out, s.as_str());
                    out.push('"');
                    proof {
                        assert(out@ =~= old(out)@ + lit_text(*l));
                    }
                },
                Literal::Bool(b) => {
                    if *b {
                        push_str_chars(out, "true");
                    } else {
                        push_str_chars(out, "false");
                    }
                },
                Literal::Nil => push_str_chars(out, "nil"),
            }
        },
        Expr::Grouping(g) => {
            out.push('(');
            push_expr_text(out, &g.expression);
            out.push(')');
            proof {
                assert(out@ =~= old(out)@ + expr_text(*e));
            }
        },
        Expr::Unary(u) => {
            push_op_text(out, u.op.kind);
            push_expr_text(out, &u.right);
            proof {
                assert(out@ =~= old(out)@ + expr_text(*e));
            }
        },
        Expr::Binary(b) => {
            out.push('(');
            push_expr_text(out, &b.left);
            out.push(' ');
            push_op_text(out, b.op.kind);
            out.push(' ');
            push_expr_text(out, &b.right);
            out.push(')');
            proof {
                assert(out@ =~= old(out)@ + expr_text(*e));
            }
        },
        Expr::Logical(l) => {
            out.push('(');
            push_expr_text(out, &l.left);
            out.push(' ');
            push_op_text(out, l.condition.kind);
            out.push(' ');
            push_expr_text(out, &l.right);
            out.push(')');
            proof {
                assert(out@ =~= old(out)@ + expr_text(*e));
            }
        },
        Expr::Variable(v) => {
            push_str_chars(out, v.name.lexeme.as_str());
        },
        Expr::Assign(a) => {
            out.push('(');
            push_str_chars(out, a.name.lexeme.as_str());
            push_str_chars(out, " = ");
            push_expr_text(out, &a.value);
            out.push(')');
            proof {
                assert(out@ =~= old(out)@ + expr_text(*e));
            }
        },
    }
}

impl AstPrinter {
    /// Renders an expression tree as source text, exactly `expr_text`.
    pub fn print(&mut self, expr: &Expr) -> (s: String)
        ensures
            s@ == expr_text(*expr),
    {
        let mut out: Vec<char> = Vec::new();
        push_expr_text(&mut out, expr);
        chars_to_string(&out)
    }
}

} // verus!
