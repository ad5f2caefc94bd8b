//! The recursive-descent parser: operator-precedence climbing for
//! expressions, statement dispatch on leading keywords, `for` desugared to
//! `while`, and statement-level error recovery by synchronization, so one
//! pass collects every independent syntax diagnostic.
//!
//! The whole grammar is stated as functions over the token stream:
//! `sp_expression` down to `sp_primary` for expressions, and `sp_program`
//! down to `sp_if_statement` for statements, the latter building `GStmt` —
//! a mirror of the statement tree with sequences in place of heap vectors,
//! which specification code can construct. Every parsing function is
//! proved to return exactly the clean parse those functions describe — or
//! to have recorded a diagnostic where they describe none.

use crate::expr::{Assign, Binary, Expr, Grouping, Logical, Unary, Variable as VariableExpr};
use crate::stmt::{Block, Expression, If, Print, Stmt, Variable, While};
use vstd::std_specs::vec::axiom_vec_index_decreases;
use crate::text::{chars_to_string, dec_digits, push_str_chars, push_usize_text};
use crate::token::{Literal, Token, TokenType};
use vstd::prelude::*;

verus! {

/// A syntax diagnostic: the offending line, a location hint, and a message.
pub struct Diagnostic {
    pub line: usize,
    pub location: String,
    pub message: String,
}

/// The rendering of a diagnostic: `line <n> Error <hint>: <message>`.
pub open spec fn diagnostic_text(d: Diagnostic) -> Seq<char> {
    "line "@ + dec_digits(d.line as nat) + " Error "@ + d.location@ + ": "@ + d.message@
}

impl Diagnostic {
    /// Renders the diagnostic for user-facing reporting.
    pub fn render(&self) -> (s: String)
        ensures
            s@ == diagnostic_text(*self),
    {
        let mut out: Vec<char> = Vec::new();
        push_str_chars(&mut out, "line ");
        push_usize_text(&mut out, self.line);
        push_str_chars(&mut out, " Error ");
        push_str_chars(&mut out, self.location.as_str());
        push_str_chars(&mut out, ": ");
        push_str_chars(&mut out, self.message.as_str());
        proof {
            assert(out@ =~= diagnostic_text(*self));
        }
        chars_to_string(&out)
    }
}

/// The typed failure a sub-parser propagates upward; the diagnostics
/// themselves are collected on the parser.
pub struct ParserError;

/// A usable token stream: finite, terminated by exactly one end-of-input
/// token, which stands nowhere else.
pub open spec fn wf_tokens(toks: Seq<Token>) -> bool {
    &&& toks.len() >= 1
    &&& toks.last().kind == TokenType::Eof
    &&& forall|i: int| 0 <= i < toks.len() - 1 ==> (#[trigger] toks[i]).kind != TokenType::Eof
}

/// How much of the token stream lies at or after position `i`: the
/// measure the grammar functions recurse on.
pub open spec fn remaining(toks: Seq<Token>, i: int) -> int {
    if i <= toks.len() {
        toks.len() - i
    } else {
        0
    }
}

/// Where a sub-parse resumes, floored so that recursion over the token
/// stream is well founded; every actual sub-parse moves the cursor past
/// the floor, so on real runs this is the sub-parse's own answer.
pub open spec fn resume_at(j: int, lo: int) -> int {
    if j > lo {
        j
    } else {
        lo
    }
}

/// The expression grammar as a function: what a clean parse from position
/// `i` yields, and where it resumes. `None` stands for any input on which
/// the parser records a diagnostic instead — whether it then fails or
/// recovers. `expression → assignment`.
#[verifier::opaque]
pub open spec fn sp_expression(toks: Seq<Token>, i: int) -> Option<(Expr, int)>
    decreases remaining(toks, i), 34int,
{
    sp_assignment(toks, i)
}

/// `assignment → identifier "=" assignment | logical_or`, right-
/// associative; a left-hand side that is not a bare variable reference is
/// no clean parse.
#[verifier::opaque]
pub open spec fn sp_assignment(toks: Seq<Token>, i: int) -> Option<(Expr, int)>
    decreases remaining(toks, i), 32int,
{
    match sp_or(toks, i) {
        None => None,
        Some((e, j0)) => {
            let j = resume_at(j0, i + 1);
            if j < toks.len() && toks[j].kind == TokenType::Equal {
                match e {
                    Expr::Variable(v) => match sp_assignment(toks, j + 1) {
                        Some((value, k)) => Some(
                            (Expr::Assign((Assign { name: v.name, value: Box::new(value) })), k),
                        ),
                        None => None,
                    },
                    _ => None,
                }
            } else {
                Some((e, j0))
            }
        },
    }
}

/// `logical_or → logical_and ("or" logical_and)*`, folded left.
#[verifier::opaque]
pub open spec fn sp_or(toks: Seq<Token>, i: int) -> Option<(Expr, int)>
    decreases remaining(toks, i), 30int,
{
    match sp_and(toks, i) {
        None => None,
        Some((e, j0)) => sp_or_rest(toks, resume_at(j0, i + 1), e),
    }
}

/// The `("or" logical_and)*` tail, with `acc` the expression folded so
/// far.
#[verifier::opaque]
pub open spec fn sp_or_rest(toks: Seq<Token>, i: int, acc: Expr) -> Option<(Expr, int)>
    decreases remaining(toks, i), 29int,
{
    if i < toks.len() && toks[i].kind == TokenType::Or {
        match sp_and(toks, i + 1) {
            Some((rhs, k0)) => sp_or_rest(
                toks,
                resume_at(k0, i + 2),
                Expr::Logical(
                    (Logical { condition: toks[i], left: Box::new(acc), right: Box::new(rhs) }),
                ),
            ),
            None => None,
        }
    } else {
        Some((acc, i))
    }
}

/// `logical_and → equality ("and" equality)*`, folded left.
#[verifier::opaque]
pub open spec fn sp_and(toks: Seq<Token>, i: int) -> Option<(Expr, int)>
    decreases remaining(toks, i), 28int,
{
    match sp_equality(toks, i) {
        None => None,
        Some((e, j0)) => sp_and_rest(toks, resume_at(j0, i + 1), e),
    }
}

/// The `("and" equality)*` tail.
#[verifier::opaque]
pub open spec fn sp_and_rest(toks: Seq<Token>, i: int, acc: Expr) -> Option<(Expr, int)>
    decreases remaining(toks, i), 27int,
{
    if i < toks.len() && toks[i].kind == TokenType::And {
        match sp_equality(toks, i + 1) {
            Some((rhs, k0)) => sp_and_rest(
                toks,
                resume_at(k0, i + 2),
                Expr::Logical(
                    (Logical { condition: toks[i], left: Box::new(acc), right: Box::new(rhs) }),
                ),
            ),
            None => None,
        }
    } else {
        Some((acc, i))
    }
}

/// `equality → comparison (("!=" | "==") comparison)*`, folded left.
#[verifier::opaque]
pub open spec fn sp_equality(toks: Seq<Token>, i: int) -> Option<(Expr, int)>
    decreases remaining(toks, i), 26int,
{
    match sp_comparison(toks, i) {
        None => None,
        Some((e, j0)) => sp_equality_rest(toks, resume_at(j0, i + 1), e),
    }
}

/// The `(("!=" | "==") comparison)*` tail.
#[verifier::opaque]
pub open spec fn sp_equality_rest(toks: Seq<Token>, i: int, acc: Expr) -> Option<(Expr, int)>
    decreases remaining(toks, i), 25int,
{
    if i < toks.len() && (toks[i].kind == TokenType::BangEqual || toks[i].kind
        == TokenType::EqualEqual) {
        match sp_comparison(toks, i + 1) {
            Some((rhs, k0)) => sp_equality_rest(
                toks,
                resume_at(k0, i + 2),
                Expr::Binary((Binary { op: toks[i], left: Box::new(acc), right: Box::new(rhs) })),
            ),
            None => None,
        }
    } else {
        Some((acc, i))
    }
}

/// `comparison → term ((">" | ">=" | "<" | "<=") term)*`, folded left.
#[verifier::opaque]
pub open spec fn sp_comparison(toks: Seq<Token>, i: int) -> Option<(Expr, int)>
    decreases remaining(toks, i), 24int,
{
    match sp_term(toks, i) {
        None => None,
        Some((e, j0)) => sp_comparison_rest(toks, resume_at(j0, i + 1), e),
    }
}

/// Whether this kind is one of the four relational operators.
pub open spec fn is_comparison_op(kind: TokenType) -> bool {
    ||| kind == TokenType::Greater
    ||| kind == TokenType::GreaterEqual
    ||| kind == TokenType::Less
    ||| kind == TokenType::LessEqual
}

/// The `((">" | ">=" | "<" | "<=") term)*` tail.
#[verifier::opaque]
pub open spec fn sp_comparison_rest(toks: Seq<Token>, i: int, acc: Expr) -> Option<(Expr, int)>
    decreases remaining(toks, i), 23int,
{
    if i < toks.len() && is_comparison_op(toks[i].kind) {
        match sp_term(toks, i + 1) {
            Some((rhs, k0)) => sp_comparison_rest(
                toks,
                resume_at(k0, i + 2),
                Expr::Binary((Binary { op: toks[i], left: Box::new(acc), right: Box::new(rhs) })),
            ),
            None => None,
        }
    } else {
        Some((acc, i))
    }
}

/// `term → factor (("+" | "-") factor)*`, folded left.
#[verifier::opaque]
pub open spec fn sp_term(toks: Seq<Token>, i: int) -> Option<(Expr, int)>
    decreases remaining(toks, i), 22int,
{
    match sp_factor(toks, i) {
        None => None,
        Some((e, j0)) => sp_term_rest(toks, resume_at(j0, i + 1), e),
    }
}

/// The `(("+" | "-") factor)*` tail.
#[verifier::opaque]
pub open spec fn sp_term_rest(toks: Seq<Token>, i: int, acc: Expr) -> Option<(Expr, int)>
    decreases remaining(toks, i), 21int,
{
    if i < toks.len() && (toks[i].kind == TokenType::Minus || toks[i].kind == TokenType::Plus) {
        match sp_factor(toks, i + 1) {
            Some((rhs, k0)) => sp_term_rest(
                toks,
                resume_at(k0, i + 2),
                Expr::Binary((Binary { op: toks[i], left: Box::new(acc), right: Box::new(rhs) })),
            ),
            None => None,
        }
    } else {
        Some((acc, i))
    }
}

/// `factor → unary (("*" | "/") unary)*`, folded left.
#[verifier::opaque]
pub open spec fn sp_factor(toks: Seq<Token>, i: int) -> Option<(Expr, int)>
    decreases remaining(toks, i), 20int,
{
    match sp_unary(toks, i) {
        None => None,
        Some((e, j0)) => sp_factor_rest(toks, resume_at(j0, i + 1), e),
    }
}

/// The `(("*" | "/") unary)*` tail.
#[verifier::opaque]
pub open spec fn sp_factor_rest(toks: Seq<Token>, i: int, acc: Expr) -> Option<(Expr, int)>
    decreases remaining(toks, i), 19int,
{
    if i < toks.len() && (toks[i].kind == TokenType::Star || toks[i].kind == TokenType::Slash) {
        match sp_unary(toks, i + 1) {
            Some((rhs, k0)) => sp_factor_rest(
                toks,
                resume_at(k0, i + 2),
                Expr::Binary((Binary { op: toks[i], left: Box::new(acc), right: Box::new(rhs) })),
            ),
            None => None,
        }
    } else {
        Some((acc, i))
    }
}

/// `unary → ("!" | "-") unary | primary`.
#[verifier::opaque]
pub open spec fn sp_unary(toks: Seq<Token>, i: int) -> Option<(Expr, int)>
    decreases remaining(toks, i), 18int,
{
    if i < toks.len() && (toks[i].kind == TokenType::Bang || toks[i].kind == TokenType::Minus) {
        match sp_unary(toks, i + 1) {
            Some((e, j)) => Some(
                (Expr::Unary((Unary { op: toks[i], right: Box::new(e) })), j),
            ),
            None => None,
        }
    } else {
        sp_primary(toks, i)
    }
}

/// `primary → literal | "(" expression ")" | identifier`. Anything else —
/// including a binary operator with no left operand, which the parser
/// reports and recovers from — is no clean parse.
#[verifier::opaque]
pub open spec fn sp_primary(toks: Seq<Token>, i: int) -> Option<(Expr, int)>
    decreases remaining(toks, i), 16int,
{
    if i < toks.len() {
        let t = toks[i];
        if t.kind == TokenType::True {
            Some((Expr::Literal(Literal::Bool(true)), i + 1))
        } else if t.kind == TokenType::False {
            Some((Expr::Literal(Literal::Bool(false)), i + 1))
        } else if t.kind == TokenType::Nil {
            Some((Expr::Literal(Literal::Nil), i + 1))
        } else if t.kind == TokenType::Number || t.kind == TokenType::Str {
            Some((Expr::Literal(t.literal), i + 1))
        } else if t.kind == TokenType::LeftParen {
            match sp_expression(toks, i + 1) {
                Some((e, j0)) => {
                    let j = resume_at(j0, i + 2);
                    if j < toks.len() && toks[j].kind == TokenType::RightParen {
                        Some((Expr::Grouping((Grouping { expression: Box::new(e) })), j + 1))
                    } else {
                        None
                    }
                },
                None => None,
            }
        } else if t.kind == TokenType::Identifier {
            Some((Expr::Variable((VariableExpr { name: t })), i + 1))
        } else {
            None
        }
    } else {
        None
    }
}

/// How `logical_or` opens: the head operand parsed at the next level, then
/// the operator tail folded from it.
#[verifier::rlimit(100)]
#[verifier::spinoff_prover]
proof fn lemma_logical_or_head(toks: Seq<Token>, i: int)
    ensures
        match sp_and(toks, i) {
            Some(parsed) => parsed.1 > i ==> sp_or(toks, i) == sp_or_rest(toks, parsed.1, parsed.0),
            None => sp_or(toks, i) is None,
        },
{
    reveal(sp_or);
    reveal_with_fuel(sp_or_rest, 2);
    reveal(sp_and);
}

/// One fold step of the `logical_or` tail: its operator at `p` followed by a
/// clean next-level parse folds into the accumulator, left-leaning.
#[verifier::rlimit(100)]
#[verifier::spinoff_prover]
proof fn lemma_logical_or_fold(toks: Seq<Token>, p: int, acc: Expr, rhs: Expr, k: int)
    requires
        0 <= p < toks.len(),
        toks[p].kind == TokenType::Or,
        sp_and(toks, p + 1) == Some::<(Expr, int)>((rhs, k)),
        k > p + 1,
    ensures
        sp_or_rest(toks, p, acc) == sp_or_rest(
            toks,
            k,
            Expr::Logical((Logical { condition: toks[p], left: Box::new(acc), right: Box::new(rhs) })),
        ),
{
    reveal_with_fuel(sp_or_rest, 2);
    reveal(sp_and);
}

/// A failed operand after the `logical_or` operator makes the whole level no
/// clean parse.
#[verifier::rlimit(100)]
#[verifier::spinoff_prover]
proof fn lemma_logical_or_stuck(toks: Seq<Token>, p: int, acc: Expr)
    requires
        0 <= p < toks.len(),
        toks[p].kind == TokenType::Or,
        sp_and(toks, p + 1) is None,
    ensures
        sp_or_rest(toks, p, acc) is None,
{
    reveal_with_fuel(sp_or_rest, 2);
    reveal(sp_and);
}

/// The `logical_or` tail ends exactly where its operator no longer stands.
#[verifier::rlimit(100)]
#[verifier::spinoff_prover]
proof fn lemma_logical_or_done(toks: Seq<Token>, p: int, acc: Expr)
    requires
        0 <= p,
        p < toks.len() ==> !(toks[p].kind == TokenType::Or),
    ensures
        sp_or_rest(toks, p, acc) == Some::<(Expr, int)>((acc, p)),
{
    reveal_with_fuel(sp_or_rest, 2);
}

/// How `logical_and` opens: the head operand parsed at the next level, then
/// the operator tail folded from it.
#[verifier::rlimit(100)]
#[verifier::spinoff_prover]
proof fn lemma_logical_and_head(toks: Seq<Token>, i: int)
    ensures
        match sp_equality(toks, i) {
            Some(parsed) => parsed.1 > i ==> sp_and(toks, i) == sp_and_rest(toks, parsed.1, parsed.0),
            None => sp_and(toks, i) is None,
        },
{
    reveal(sp_and);
    reveal_with_fuel(sp_and_rest, 2);
    reveal(sp_equality);
}

/// One fold step of the `logical_and` tail: its operator at `p` followed by a
/// clean next-level parse folds into the accumulator, left-leaning.
#[verifier::rlimit(100)]
#[verifier::spinoff_prover]
proof fn lemma_logical_and_fold(toks: Seq<Token>, p: int, acc: Expr, rhs: Expr, k: int)
    requires
        0 <= p < toks.len(),
        toks[p].kind == TokenType::And,
        sp_equality(toks, p + 1) == Some::<(Expr, int)>((rhs, k)),
        k > p + 1,
    ensures
        sp_and_rest(toks, p, acc) == sp_and_rest(
            toks,
            k,
            Expr::Logical((Logical { condition: toks[p], left: Box::new(acc), right: Box::new(rhs) })),
        ),
{
    reveal_with_fuel(sp_and_rest, 2);
    reveal(sp_equality);
}

/// A failed operand after the `logical_and` operator makes the whole level no
/// clean parse.
#[verifier::rlimit(100)]
#[verifier::spinoff_prover]
proof fn lemma_logical_and_stuck(toks: Seq<Token>, p: int, acc: Expr)
    requires
        0 <= p < toks.len(),
        toks[p].kind == TokenType::And,
        sp_equality(toks, p + 1) is None,
    ensures
        sp_and_rest(toks, p, acc) is None,
{
    reveal_with_fuel(sp_and_rest, 2);
    reveal(sp_equality);
}

/// The `logical_and` tail ends exactly where its operator no longer stands.
#[verifier::rlimit(100)]
#[verifier::spinoff_prover]
proof fn lemma_logical_and_done(toks: Seq<Token>, p: int, acc: Expr)
    requires
        0 <= p,
        p < toks.len() ==> !(toks[p].kind == TokenType::And),
    ensures
        sp_and_rest(toks, p, acc) == Some::<(Expr, int)>((acc, p)),
{
    reveal_with_fuel(sp_and_rest, 2);
}

/// How `equality` opens: the head operand parsed at the next level, then
/// the operator tail folded from it.
#[verifier::rlimit(100)]
#[verifier::spinoff_prover]
proof fn lemma_equality_head(toks: Seq<Token>, i: int)
    ensures
        match sp_comparison(toks, i) {
            Some(parsed) => parsed.1 > i ==> sp_equality(toks, i) == sp_equality_rest(toks, parsed.1, parsed.0),
            None => sp_equality(toks, i) is None,
        },
{
    reveal(sp_equality);
    reveal_with_fuel(sp_equality_rest, 2);
    reveal(sp_comparison);
}

/// One fold step of the `equality` tail: its operator at `p` followed by a
/// clean next-level parse folds into the accumulator, left-leaning.
#[verifier::rlimit(100)]
#[verifier::spinoff_prover]
proof fn lemma_equality_fold(toks: Seq<Token>, p: int, acc: Expr, rhs: Expr, k: int)
    requires
        0 <= p < toks.len(),
        toks[p].kind == TokenType::BangEqual || toks[p].kind == TokenType::EqualEqual,
        sp_comparison(toks, p + 1) == Some::<(Expr, int)>((rhs, k)),
        k > p + 1,
    ensures
        sp_equality_rest(toks, p, acc) == sp_equality_rest(
            toks,
            k,
            Expr::Binary((Binary { op: toks[p], left: Box::new(acc), right: Box::new(rhs) })),
        ),
{
    reveal_with_fuel(sp_equality_rest, 2);
    reveal(sp_comparison);
}

/// A failed operand after the `equality` operator makes the whole level no
/// clean parse.
#[verifier::rlimit(100)]
#[verifier::spinoff_prover]
proof fn lemma_equality_stuck(toks: Seq<Token>, p: int, acc: Expr)
    requires
        0 <= p < toks.len(),
        toks[p].kind == TokenType::BangEqual || toks[p].kind == TokenType::EqualEqual,
        sp_comparison(toks, p + 1) is None,
    ensures
        sp_equality_rest(toks, p, acc) is None,
{
    reveal_with_fuel(sp_equality_rest, 2);
    reveal(sp_comparison);
}

/// The `equality` tail ends exactly where its operator no longer stands.
#[verifier::rlimit(100)]
#[verifier::spinoff_prover]
proof fn lemma_equality_done(toks: Seq<Token>, p: int, acc: Expr)
    requires
        0 <= p,
        p < toks.len() ==> !(toks[p].kind == TokenType::BangEqual || toks[p].kind == TokenType::EqualEqual),
    ensures
        sp_equality_rest(toks, p, acc) == Some::<(Expr, int)>((acc, p)),
{
    reveal_with_fuel(sp_equality_rest, 2);
}

/// How `comparison` opens: the head operand parsed at the next level, then
/// the operator tail folded from it.
#[verifier::rlimit(100)]
#[verifier::spinoff_prover]
proof fn lemma_comparison_head(toks: Seq<Token>, i: int)
    ensures
        match sp_term(toks, i) {
            Some(parsed) => parsed.1 > i ==> sp_comparison(toks, i) == sp_comparison_rest(toks, parsed.1, parsed.0),
            None => sp_comparison(toks, i) is None,
        },
{
    reveal(sp_comparison);
    reveal_with_fuel(sp_comparison_rest, 2);
    reveal(sp_term);
}

/// One fold step of the `comparison` tail: its operator at `p` followed by a
/// clean next-level parse folds into the accumulator, left-leaning.
#[verifier::rlimit(100)]
#[verifier::spinoff_prover]
proof fn lemma_comparison_fold(toks: Seq<Token>, p: int, acc: Expr, rhs: Expr, k: int)
    requires
        0 <= p < toks.len(),
        is_comparison_op(toks[p].kind),
        sp_term(toks, p + 1) == Some::<(Expr, int)>((rhs, k)),
        k > p + 1,
    ensures
        sp_comparison_rest(toks, p, acc) == sp_comparison_rest(
            toks,
            k,
            Expr::Binary((Binary { op: toks[p], left: Box::new(acc), right: Box::new(rhs) })),
        ),
{
    reveal_with_fuel(sp_comparison_rest, 2);
    reveal(sp_term);
}

/// A failed operand after the `comparison` operator makes the whole level no
/// clean parse.
#[verifier::rlimit(100)]
#[verifier::spinoff_prover]
proof fn lemma_comparison_stuck(toks: Seq<Token>, p: int, acc: Expr)
    requires
        0 <= p < toks.len(),
        is_comparison_op(toks[p].kind),
        sp_term(toks, p + 1) is None,
    ensures
        sp_comparison_rest(toks, p, acc) is None,
{
    reveal_with_fuel(sp_comparison_rest, 2);
    reveal(sp_term);
}

/// The `comparison` tail ends exactly where its operator no longer stands.
#[verifier::rlimit(100)]
#[verifier::spinoff_prover]
proof fn lemma_comparison_done(toks: Seq<Token>, p: int, acc: Expr)
    requires
        0 <= p,
        p < toks.len() ==> !(is_comparison_op(toks[p].kind)),
    ensures
        sp_comparison_rest(toks, p, acc) == Some::<(Expr, int)>((acc, p)),
{
    reveal_with_fuel(sp_comparison_rest, 2);
}

/// How `term` opens: the head operand parsed at the next level, then
/// the operator tail folded from it.
#[verifier::rlimit(100)]
#[verifier::spinoff_prover]
proof fn lemma_term_head(toks: Seq<Token>, i: int)
    ensures
        match sp_factor(toks, i) {
            Some(parsed) => parsed.1 > i ==> sp_term(toks, i) == sp_term_rest(toks, parsed.1, parsed.0),
            None => sp_term(toks, i) is None,
        },
{
    reveal(sp_term);
    reveal_with_fuel(sp_term_rest, 2);
    reveal(sp_factor);
}

/// One fold step of the `term` tail: its operator at `p` followed by a
/// clean next-level parse folds into the accumulator, left-leaning.
#[verifier::rlimit(100)]
#[verifier::spinoff_prover]
proof fn lemma_term_fold(toks: Seq<Token>, p: int, acc: Expr, rhs: Expr, k: int)
    requires
        0 <= p < toks.len(),
        toks[p].kind == TokenType::Minus || toks[p].kind == TokenType::Plus,
        sp_factor(toks, p + 1) == Some::<(Expr, int)>((rhs, k)),
        k > p + 1,
    ensures
        sp_term_rest(toks, p, acc) == sp_term_rest(
            toks,
            k,
            Expr::Binary((Binary { op: toks[p], left: Box::new(acc), right: Box::new(rhs) })),
        ),
{
    reveal_with_fuel(sp_term_rest, 2);
    reveal(sp_factor);
}

/// A failed operand after the `term` operator makes the whole level no
/// clean parse.
#[verifier::rlimit(100)]
#[verifier::spinoff_prover]
proof fn lemma_term_stuck(toks: Seq<Token>, p: int, acc: Expr)
    requires
        0 <= p < toks.len(),
        toks[p].kind == TokenType::Minus || toks[p].kind == TokenType::Plus,
        sp_factor(toks, p + 1) is None,
    ensures
        sp_term_rest(toks, p, acc) is None,
{
    reveal_with_fuel(sp_term_rest, 2);
    reveal(sp_factor);
}

/// The `term` tail ends exactly where its operator no longer stands.
#[verifier::rlimit(100)]
#[verifier::spinoff_prover]
proof fn lemma_term_done(toks: Seq<Token>, p: int, acc: Expr)
    requires
        0 <= p,
        p < toks.len() ==> !(toks[p].kind == TokenType::Minus || toks[p].kind == TokenType::Plus),
    ensures
        sp_term_rest(toks, p, acc) == Some::<(Expr, int)>((acc, p)),
{
    reveal_with_fuel(sp_term_rest, 2);
}

/// How `factor` opens: the head operand parsed at the next level, then
/// the operator tail folded from it.
#[verifier::rlimit(100)]
#[verifier::spinoff_prover]
proof fn lemma_factor_head(toks: Seq<Token>, i: int)
    ensures
        match sp_unary(toks, i) {
            Some(parsed) => parsed.1 > i ==> sp_factor(toks, i) == sp_factor_rest(toks, parsed.1, parsed.0),
            None => sp_factor(toks, i) is None,
        },
{
    reveal(sp_factor);
    reveal_with_fuel(sp_factor_rest, 2);
    reveal(sp_unary);
}

/// One fold step of the `factor` tail: its operator at `p` followed by a
/// clean next-level parse folds into the accumulator, left-leaning.
#[verifier::rlimit(100)]
#[verifier::spinoff_prover]
proof fn lemma_factor_fold(toks: Seq<Token>, p: int, acc: Expr, rhs: Expr, k: int)
    requires
        0 <= p < toks.len(),
        toks[p].kind == TokenType::Star || toks[p].kind == TokenType::Slash,
        sp_unary(toks, p + 1) == Some::<(Expr, int)>((rhs, k)),
        k > p + 1,
    ensures
        sp_factor_rest(toks, p, acc) == sp_factor_rest(
            toks,
            k,
            Expr::Binary((Binary { op: toks[p], left: Box::new(acc), right: Box::new(rhs) })),
        ),
{
    reveal_with_fuel(sp_factor_rest, 2);
    reveal(sp_unary);
}

/// A failed operand after the `factor` operator makes the whole level no
/// clean parse.
#[verifier::rlimit(100)]
#[verifier::spinoff_prover]
proof fn lemma_factor_stuck(toks: Seq<Token>, p: int, acc: Expr)
    requires
        0 <= p < toks.len(),
        toks[p].kind == TokenType::Star || toks[p].kind == TokenType::Slash,
        sp_unary(toks, p + 1) is None,
    ensures
        sp_factor_rest(toks, p, acc) is None,
{
    reveal_with_fuel(sp_factor_rest, 2);
    reveal(sp_unary);
}

/// The `factor` tail ends exactly where its operator no longer stands.
#[verifier::rlimit(100)]
#[verifier::spinoff_prover]
proof fn lemma_factor_done(toks: Seq<Token>, p: int, acc: Expr)
    requires
        0 <= p,
        p < toks.len() ==> !(toks[p].kind == TokenType::Star || toks[p].kind == TokenType::Slash),
    ensures
        sp_factor_rest(toks, p, acc) == Some::<(Expr, int)>((acc, p)),
{
    reveal_with_fuel(sp_factor_rest, 2);
}

/// `varDecl → identifier ("=" expression)? ";"` (after the `var`
/// keyword) as a function: the declared name is the identifier token, a
/// missing initializer is the literal `nil`.
pub open spec fn sp_var_statement(toks: Seq<Token>, i: int) -> Option<(Stmt, int)> {
    if i < toks.len() && toks[i].kind == TokenType::Identifier {
        if i + 1 < toks.len() && toks[i + 1].kind == TokenType::Equal {
            match sp_expression(toks, i + 2) {
                Some((init, j0)) => {
                    let j = resume_at(j0, i + 3);
                    if j < toks.len() && toks[j].kind == TokenType::Semicolon {
                        Some(
                            (
                                Stmt::Variable((Variable { name: toks[i], initializer: init })),
                                j + 1,
                            ),
                        )
                    } else {
                        None
                    }
                },
                None => None,
            }
        } else if i + 1 < toks.len() && toks[i + 1].kind == TokenType::Semicolon {
            Some(
                (
                    Stmt::Variable(
                        (Variable { name: toks[i], initializer: Expr::Literal(Literal::Nil) }),
                    ),
                    i + 2,
                ),
            )
        } else {
            None
        }
    } else {
        None
    }
}

/// `print expression ";"` (after the `print` keyword) as a function.
pub open spec fn sp_print_statement(toks: Seq<Token>, i: int) -> Option<(Stmt, int)> {
    match sp_expression(toks, i) {
        Some((e, j0)) => {
            let j = resume_at(j0, i + 1);
            if j < toks.len() && toks[j].kind == TokenType::Semicolon {
                Some((Stmt::Print((Print { expression: e })), j + 1))
            } else {
                None
            }
        },
        None => None,
    }
}

/// A bare `expression ";"` statement as a function.
pub open spec fn sp_expression_statement(toks: Seq<Token>, i: int) -> Option<(Stmt, int)> {
    match sp_expression(toks, i) {
        Some((e, j0)) => {
            let j = resume_at(j0, i + 1);
            if j < toks.len() && toks[j].kind == TokenType::Semicolon {
                Some((Stmt::Expression((Expression { expression: e })), j + 1))
            } else {
                None
            }
        },
        None => None,
    }
}

/// The mathematical mirror of a statement tree: blocks hold a sequence
/// instead of a heap vector, so the grammar functions below can build one.
pub enum GStmt {
    Expression(Expr),
    Print(Expr),
    Variable(Token, Expr),
    Block(Seq<GStmt>),
    If(Expr, Box<GStmt>, Option<Box<GStmt>>),
    While(Expr, Box<GStmt>),
}

/// The mirror of a statement tree: nothing is lost, only the block vector
/// becomes a sequence.
pub open spec fn stmt_model(s: Stmt) -> GStmt
    decreases s,
{
    match s {
        Stmt::Expression(e) => GStmt::Expression(e.expression),
        Stmt::Print(p) => GStmt::Print(p.expression),
        Stmt::Variable(v) => GStmt::Variable(v.name, v.initializer),
        Stmt::Block(b) => GStmt::Block(
            Seq::new(
                b.statements@.len(),
                |k: int|
                    if 0 <= k < b.statements.len() {
                        stmt_model(b.statements[k])
                    } else {
                        GStmt::Expression(Expr::Literal(Literal::Nil))
                    },
            ),
        ),
        Stmt::If(i) => GStmt::If(
            i.condition,
            Box::new(stmt_model(*i.then_branch)),
            match i.else_branch {
                Some(e) => Some(Box::new(stmt_model(*e))),
                None => None,
            },
        ),
        Stmt::While(w) => GStmt::While(w.condition, Box::new(stmt_model(*w.body))),
    }
}

/// The mirror of a statement sequence.
pub open spec fn stmts_model(ss: Seq<Stmt>) -> Seq<GStmt> {
    Seq::new(ss.len(), |k: int| stmt_model(ss[k]))
}

/// A block's mirror is the mirror of its statements.
pub proof fn lemma_block_model(b: Block)
    ensures
        stmt_model(Stmt::Block(b)) == GStmt::Block(stmts_model(b.statements@)),
{
    assert(stmt_model(Stmt::Block(b))->Block_0 =~= stmts_model(b.statements@));
}

/// `declaration → "var" varDecl | statement` as a function on the token
/// stream, yielding the mirror of the statement the parser builds.
#[verifier::opaque]
pub open spec fn sp_declaration(toks: Seq<Token>, i: int) -> Option<(GStmt, int)>
    decreases remaining(toks, i), 46int,
{
    if i < toks.len() && toks[i].kind == TokenType::Var {
        match sp_var_statement(toks, i + 1) {
            Some(p) => Some((stmt_model(p.0), p.1)),
            None => None,
        }
    } else {
        sp_statement(toks, i)
    }
}

/// `statement` as a function: dispatch on the leading token.
#[verifier::opaque]
pub open spec fn sp_statement(toks: Seq<Token>, i: int) -> Option<(GStmt, int)>
    decreases remaining(toks, i), 44int,
{
    if i < toks.len() {
        if toks[i].kind == TokenType::If {
            sp_if_statement(toks, i + 1)
        } else if toks[i].kind == TokenType::Print {
            match sp_print_statement(toks, i + 1) {
                Some(p) => Some((stmt_model(p.0), p.1)),
                None => None,
            }
        } else if toks[i].kind == TokenType::LeftBrace {
            match sp_block(toks, i + 1) {
                Some((gss, j)) => Some((GStmt::Block(gss), j)),
                None => None,
            }
        } else if toks[i].kind == TokenType::While {
            sp_while_statement(toks, i + 1)
        } else if toks[i].kind == TokenType::For {
            sp_for_statement(toks, i + 1)
        } else {
            match sp_expression_statement(toks, i) {
                Some(p) => Some((stmt_model(p.0), p.1)),
                None => None,
            }
        }
    } else {
        None
    }
}

/// `if "(" expression ")" statement ("else" statement)?` (after the `if`
/// keyword); the `else` binds to the nearest `if`.
#[verifier::opaque]
pub open spec fn sp_if_statement(toks: Seq<Token>, i: int) -> Option<(GStmt, int)>
    decreases remaining(toks, i), 42int,
{
    if i < toks.len() && toks[i].kind == TokenType::LeftParen {
        match sp_expression(toks, i + 1) {
            Some((c, j0)) => {
                let j = resume_at(j0, i + 2);
                if j < toks.len() && toks[j].kind == TokenType::RightParen {
                    match sp_statement(toks, j + 1) {
                        Some((t, t0)) => {
                            let te = resume_at(t0, j + 2);
                            if te < toks.len() && toks[te].kind == TokenType::Else {
                                match sp_statement(toks, te + 1) {
                                    Some((e, k)) => Some(
                                        (GStmt::If(c, Box::new(t), Some(Box::new(e))), k),
                                    ),
                                    None => None,
                                }
                            } else {
                                Some((GStmt::If(c, Box::new(t), None), t0))
                            }
                        },
                        None => None,
                    }
                } else {
                    None
                }
            },
            None => None,
        }
    } else {
        None
    }
}

/// `while "(" expression ")" statement` (after the `while` keyword).
#[verifier::opaque]
pub open spec fn sp_while_statement(toks: Seq<Token>, i: int) -> Option<(GStmt, int)>
    decreases remaining(toks, i), 42int,
{
    if i < toks.len() && toks[i].kind == TokenType::LeftParen {
        match sp_expression(toks, i + 1) {
            Some((c, j0)) => {
                let j = resume_at(j0, i + 2);
                if j < toks.len() && toks[j].kind == TokenType::RightParen {
                    match sp_statement(toks, j + 1) {
                        Some((b, k)) => Some((GStmt::While(c, Box::new(b)), k)),
                        None => None,
                    }
                } else {
                    None
                }
            },
            None => None,
        }
    } else {
        None
    }
}

/// `for "(" (varDecl | exprStmt | ";") expression? ";" expression? ")"
/// statement` (after the `for` keyword), desugared on the spot: the
/// mirror of exactly the `while` tree `desugar_for` builds.
#[verifier::opaque]
pub open spec fn sp_for_statement(toks: Seq<Token>, i: int) -> Option<(GStmt, int)>
    decreases remaining(toks, i), 42int,
{
    if i < toks.len() && toks[i].kind == TokenType::LeftParen {
        let header = if i + 1 < toks.len() && toks[i + 1].kind == TokenType::Semicolon {
            Some((Option::<GStmt>::None, i + 2))
        } else if i + 1 < toks.len() && toks[i + 1].kind == TokenType::Var {
            match sp_var_statement(toks, i + 2) {
                Some(p) => Some((Some(stmt_model(p.0)), p.1)),
                None => None,
            }
        } else {
            match sp_expression_statement(toks, i + 1) {
                Some(p) => Some((Some(stmt_model(p.0)), p.1)),
                None => None,
            }
        };
        match header {
            Some((init, p0)) => {
                let p = resume_at(p0, i + 2);
                let middle = if p < toks.len() && toks[p].kind == TokenType::Semicolon {
                    Some((Option::<Expr>::None, p + 1))
                } else {
                    match sp_expression(toks, p) {
                        Some((c, q0)) => {
                            let q = resume_at(q0, p + 1);
                            if q < toks.len() && toks[q].kind == TokenType::Semicolon {
                                Some((Some(c), q + 1))
                            } else {
                                None
                            }
                        },
                        None => None,
                    }
                };
                match middle {
                    Some((cond, q1)) => {
                        let q2 = resume_at(q1, p + 1);
                        let tail = if q2 < toks.len() && toks[q2].kind == TokenType::RightParen {
                            Some((Option::<Expr>::None, q2 + 1))
                        } else {
                            match sp_expression(toks, q2) {
                                Some((x, r0)) => {
                                    let rr = resume_at(r0, q2 + 1);
                                    if rr < toks.len() && toks[rr].kind == TokenType::RightParen {
                                        Some((Some(x), rr + 1))
                                    } else {
                                        None
                                    }
                                },
                                None => None,
                            }
                        };
                        match tail {
                            Some((incr, r1)) => {
                                let bs = resume_at(r1, q2 + 1);
                                match sp_statement(toks, bs) {
                                    Some((body, bend)) => {
                                        let looped = GStmt::While(
                                            for_condition(cond),
                                            Box::new(
                                                match incr {
                                                    Some(x) => GStmt::Block(
                                                        seq![body, GStmt::Expression(x)],
                                                    ),
                                                    None => body,
                                                },
                                            ),
                                        );
                                        match init {
                                            Some(g) => Some(
                                                (GStmt::Block(seq![g, looped]), bend),
                                            ),
                                            None => Some((looped, bend)),
                                        }
                                    },
                                    None => None,
                                }
                            },
                            None => None,
                        }
                    },
                    None => None,
                }
            },
            None => None,
        }
    } else {
        None
    }
}

/// `declaration* "}"` (after the opening brace): the statements of a
/// block, ending just past the closing brace.
#[verifier::opaque]
pub open spec fn sp_block(toks: Seq<Token>, i: int) -> Option<(Seq<GStmt>, int)>
    decreases remaining(toks, i), 48int,
{
    if i < toks.len() {
        if toks[i].kind == TokenType::RightBrace {
            Some((Seq::empty(), i + 1))
        } else if toks[i].kind == TokenType::Eof {
            None
        } else {
            match sp_declaration(toks, i) {
                Some((g, j0)) => match sp_block(toks, resume_at(j0, i + 1)) {
                    Some((rest, k)) => Some((seq![g] + rest, k)),
                    None => None,
                },
                None => None,
            }
        }
    } else {
        None
    }
}

/// `declaration*` to the end of input: the whole program, ending on the
/// end-of-input token.
#[verifier::opaque]
pub open spec fn sp_program(toks: Seq<Token>, i: int) -> Option<(Seq<GStmt>, int)>
    decreases remaining(toks, i), 50int,
{
    if i < toks.len() {
        if toks[i].kind == TokenType::Eof {
            Some((Seq::empty(), i))
        } else {
            match sp_declaration(toks, i) {
                Some((g, j0)) => match sp_program(toks, resume_at(j0, i + 1)) {
                    Some((rest, k)) => Some((seq![g] + rest, k)),
                    None => None,
                },
                None => None,
            }
        }
    } else {
        None
    }
}

/// Glues a parsed prefix onto the rest of a statement-sequence parse.
pub open spec fn with_prefix(
    pre: Seq<GStmt>,
    o: Option<(Seq<GStmt>, int)>,
) -> Option<(Seq<GStmt>, int)> {
    match o {
        Some((rest, k)) => Some((pre + rest, k)),
        None => None,
    }
}

/// How `statement` dispatches on an `if` token.
#[verifier::rlimit(100)]
#[verifier::spinoff_prover]
proof fn lemma_statement_if(toks: Seq<Token>, i: int)
    requires
        0 <= i < toks.len(),
        toks[i].kind == TokenType::If,
    ensures
        sp_statement(toks, i) == sp_if_statement(toks, i + 1),
{
    reveal(sp_statement);
    reveal(sp_if_statement);
}

/// How `statement` dispatches on a `print` token.
#[verifier::rlimit(100)]
#[verifier::spinoff_prover]
proof fn lemma_statement_print(toks: Seq<Token>, i: int)
    requires
        0 <= i < toks.len(),
        toks[i].kind == TokenType::Print,
    ensures
        sp_statement(toks, i) == (match sp_print_statement(toks, i + 1) {
            Some(p) => Some::<(GStmt, int)>((stmt_model(p.0), p.1)),
            None => None,
        }),
{
    reveal(sp_statement);
}

/// How `statement` dispatches on an opening brace.
#[verifier::rlimit(100)]
#[verifier::spinoff_prover]
proof fn lemma_statement_block(toks: Seq<Token>, i: int)
    requires
        0 <= i < toks.len(),
        toks[i].kind == TokenType::LeftBrace,
    ensures
        sp_statement(toks, i) == (match sp_block(toks, i + 1) {
            Some((gss, j)) => Some::<(GStmt, int)>((GStmt::Block(gss), j)),
            None => None,
        }),
{
    reveal(sp_statement);
    reveal(sp_block);
}

/// How `statement` dispatches on a `while` token.
#[verifier::rlimit(100)]
#[verifier::spinoff_prover]
proof fn lemma_statement_while(toks: Seq<Token>, i: int)
    requires
        0 <= i < toks.len(),
        toks[i].kind == TokenType::While,
    ensures
        sp_statement(toks, i) == sp_while_statement(toks, i + 1),
{
    reveal(sp_statement);
    reveal(sp_while_statement);
}

/// How `statement` dispatches on a `for` token.
#[verifier::rlimit(100)]
#[verifier::spinoff_prover]
proof fn lemma_statement_for(toks: Seq<Token>, i: int)
    requires
        0 <= i < toks.len(),
        toks[i].kind == TokenType::For,
    ensures
        sp_statement(toks, i) == sp_for_statement(toks, i + 1),
{
    reveal(sp_statement);
    reveal(sp_for_statement);
}

/// How `statement` falls through to a bare expression statement.
#[verifier::rlimit(100)]
#[verifier::spinoff_prover]
proof fn lemma_statement_expr(toks: Seq<Token>, i: int)
    requires
        0 <= i < toks.len(),
        toks[i].kind != TokenType::If,
        toks[i].kind != TokenType::Print,
        toks[i].kind != TokenType::LeftBrace,
        toks[i].kind != TokenType::While,
        toks[i].kind != TokenType::For,
    ensures
        sp_statement(toks, i) == (match sp_expression_statement(toks, i) {
            Some(p) => Some::<(GStmt, int)>((stmt_model(p.0), p.1)),
            None => None,
        }),
{
    reveal(sp_statement);
}

/// How `declaration` dispatches on a `var` token.
#[verifier::rlimit(100)]
#[verifier::spinoff_prover]
proof fn lemma_declaration_var(toks: Seq<Token>, i: int)
    requires
        0 <= i < toks.len(),
        toks[i].kind == TokenType::Var,
    ensures
        sp_declaration(toks, i) == (match sp_var_statement(toks, i + 1) {
            Some(p) => Some::<(GStmt, int)>((stmt_model(p.0), p.1)),
            None => None,
        }),
{
    reveal(sp_declaration);
    match sp_var_statement(toks, i + 1) {
        Some(p) => {
            assert(sp_declaration(toks, i) == Some::<(GStmt, int)>((stmt_model(p.0), p.1)));
        },
        None => {
            assert(sp_declaration(toks, i) is None);
        },
    }
}

/// How `declaration` falls through to `statement`.
#[verifier::rlimit(100)]
#[verifier::spinoff_prover]
proof fn lemma_declaration_stmt(toks: Seq<Token>, i: int)
    requires
        0 <= i,
        i < toks.len() ==> toks[i].kind != TokenType::Var,
    ensures
        sp_declaration(toks, i) == sp_statement(toks, i),
{
    reveal(sp_declaration);
    reveal(sp_statement);
}

/// A block's statements end exactly at its closing brace.
#[verifier::rlimit(100)]
#[verifier::spinoff_prover]
proof fn lemma_sp_block_done(toks: Seq<Token>, i: int)
    requires
        0 <= i < toks.len(),
        toks[i].kind == TokenType::RightBrace,
    ensures
        sp_block(toks, i) == Some::<(Seq<GStmt>, int)>((Seq::empty(), i + 1)),
{
    reveal(sp_block);
}

/// A block that reaches the end of input never closes.
#[verifier::rlimit(100)]
#[verifier::spinoff_prover]
proof fn lemma_sp_block_eof(toks: Seq<Token>, i: int)
    requires
        0 <= i < toks.len(),
        toks[i].kind == TokenType::Eof,
    ensures
        sp_block(toks, i) is None,
{
    reveal(sp_block);
}

/// One step of a block: a clean declaration, then the rest of the block.
#[verifier::rlimit(100)]
#[verifier::spinoff_prover]
proof fn lemma_sp_block_fold(toks: Seq<Token>, i: int, g: GStmt, j: int)
    requires
        0 <= i < toks.len(),
        toks[i].kind != TokenType::RightBrace,
        toks[i].kind != TokenType::Eof,
        sp_declaration(toks, i) == Some::<(GStmt, int)>((g, j)),
        j > i,
    ensures
        sp_block(toks, i) == with_prefix(seq![g], sp_block(toks, j)),
{
    reveal_with_fuel(sp_block, 2);
    reveal(sp_declaration);
}

/// A failed declaration makes the whole block no clean parse.
#[verifier::rlimit(100)]
#[verifier::spinoff_prover]
proof fn lemma_sp_block_stuck(toks: Seq<Token>, i: int)
    requires
        0 <= i < toks.len(),
        toks[i].kind != TokenType::RightBrace,
        toks[i].kind != TokenType::Eof,
        sp_declaration(toks, i) is None,
    ensures
        sp_block(toks, i) is None,
{
    reveal(sp_block);
    reveal(sp_declaration);
}

/// A program's statements end exactly at the end-of-input token.
#[verifier::rlimit(100)]
#[verifier::spinoff_prover]
proof fn lemma_sp_program_done(toks: Seq<Token>, i: int)
    requires
        0 <= i < toks.len(),
        toks[i].kind == TokenType::Eof,
    ensures
        sp_program(toks, i) == Some::<(Seq<GStmt>, int)>((Seq::empty(), i)),
{
    reveal(sp_program);
}

/// One step of a program: a clean declaration, then the rest.
#[verifier::rlimit(100)]
#[verifier::spinoff_prover]
proof fn lemma_sp_program_fold(toks: Seq<Token>, i: int, g: GStmt, j: int)
    requires
        0 <= i < toks.len(),
        toks[i].kind != TokenType::Eof,
        sp_declaration(toks, i) == Some::<(GStmt, int)>((g, j)),
        j > i,
    ensures
        sp_program(toks, i) == with_prefix(seq![g], sp_program(toks, j)),
{
    reveal_with_fuel(sp_program, 2);
    reveal(sp_declaration);
}

/// A failed declaration makes the whole program no clean parse.
#[verifier::rlimit(100)]
#[verifier::spinoff_prover]
proof fn lemma_sp_program_stuck(toks: Seq<Token>, i: int)
    requires
        0 <= i < toks.len(),
        toks[i].kind != TokenType::Eof,
        sp_declaration(toks, i) is None,
    ensures
        sp_program(toks, i) is None,
{
    reveal(sp_program);
    reveal(sp_declaration);
}

/// The parser: a token stream, a cursor into it, and the diagnostics
/// recorded so far.
pub struct Parser {
    pub tokens: Vec<Token>,
    pub current: usize,
    pub diagnostics: Vec<Diagnostic>,
}

impl Parser {
    /// The cursor always rests on a token; past the end never happens
    /// because the end-of-input token is never consumed.
    pub open spec fn wf(&self) -> bool {
        &&& wf_tokens(self.tokens@)
        &&& self.current < self.tokens@.len()
    }

    /// What every parsing step keeps: the token stream, well-formedness,
    /// a cursor that never moves backwards, and diagnostics that are only
    /// added to.
    pub open spec fn steps_from(self, prev: Parser) -> bool {
        &&& self.tokens == prev.tokens
        &&& self.wf()
        &&& self.current >= prev.current
        &&& self.diagnostics@.len() >= prev.diagnostics@.len()
    }

    pub fn new(tokens: Vec<Token>) -> (p: Parser)
        requires
            wf_tokens(tokens@),
        ensures
            p.wf(),
            p.tokens == tokens,
            p.current == 0,
            p.diagnostics@.len() == 0,
    {
        Parser { tokens, current: 0, diagnostics: Vec::new() }
    }

    /// The token under the cursor.
    fn peek(&self) -> (t: &Token)
        requires
            self.wf(),
        ensures
            *t == self.tokens@[self.current as int],
    {
        &self.tokens[self.current]
    }

    /// The most recently consumed token.
    fn previous(&self) -> (t: &Token)
        requires
            self.wf(),
            self.current >= 1,
        ensures
            *t == self.tokens@[self.current as int - 1],
    {
        &self.tokens[self.current - 1]
    }

    /// Whether the cursor rests on the end-of-input token.
    fn at_end(&self) -> (r: bool)
        requires
            self.wf(),
        ensures
            r == (self.tokens@[self.current as int].kind == TokenType::Eof),
            r == (self.current == self.tokens@.len() - 1),
    {
        let r = self.peek().kind == TokenType::Eof;
        proof {
            if self.current == self.tokens@.len() - 1 {
                assert(self.tokens@[self.current as int] == self.tokens@.last());
            }
        }
        r
    }

    /// Moves the cursor forward, except over the end of input.
    fn advance_tok(&mut self)
        requires
            old(self).wf(),
        ensures
            final(self).tokens == old(self).tokens,
            final(self).diagnostics == old(self).diagnostics,
            final(self).wf(),
            old(self).tokens@[old(self).current as int].kind != TokenType::Eof
                ==> final(self).current == old(self).current + 1,
            old(self).tokens@[old(self).current as int].kind == TokenType::Eof
                ==> final(self).current == old(self).current,
    {
        let n = self.tokens.len();
        if !self.at_end() {
            proof {
                assert(self.current < n);
            }
            self.current = self.current + 1;
        }
    }

    /// Whether the cursor rests on a token of this kind (never true at the
    /// end of input, even for the end-of-input kind itself).
    fn check(&self, kind: TokenType) -> (r: bool)
        requires
            self.wf(),
        ensures
            r == (self.tokens@[self.current as int].kind == kind && kind != TokenType::Eof),
    {
        if self.at_end() {
            proof {
                if self.tokens@[self.current as int].kind == kind {
                    assert(kind == TokenType::Eof);
                }
            }
            return false;
        }
        self.peek().kind == kind
    }

    /// Consumes the token under the cursor when it has this kind.
    fn match_kind(&mut self, kind: TokenType) -> (r: bool)
        requires
            old(self).wf(),
        ensures
            final(self).tokens == old(self).tokens,
            final(self).diagnostics == old(self).diagnostics,
            final(self).wf(),
            r == (old(self).tokens@[old(self).current as int].kind == kind && kind
                != TokenType::Eof),
            r ==> final(self).current == old(self).current + 1,
            !r ==> final(self).current == old(self).current,
    {
        if self.check(kind) {
            self.advance_tok();
            true
        } else {
            false
        }
    }


    /// Consumes the token under the cursor when it has either kind.
    fn match_either(&mut self, k1: TokenType, k2: TokenType) -> (r: bool)
        requires
            old(self).wf(),
            k1 != TokenType::Eof,
            k2 != TokenType::Eof,
        ensures
            final(self).tokens == old(self).tokens,
            final(self).diagnostics == old(self).diagnostics,
            final(self).wf(),
            r == (old(self).tokens@[old(self).current as int].kind == k1 || old(
                self).tokens@[old(self).current as int].kind == k2),
            r ==> final(self).current == old(self).current + 1,
            !r ==> final(self).current == old(self).current,
    {
        if self.match_kind(k1) {
            true
        } else {
            self.match_kind(k2)
        }
    }

    /// Consumes the token under the cursor when it is one of the four
    /// relational operators.
    fn match_relational(&mut self) -> (r: bool)
        requires
            old(self).wf(),
        ensures
            final(self).tokens == old(self).tokens,
            final(self).diagnostics == old(self).diagnostics,
            final(self).wf(),
            r == is_comparison_op(old(self).tokens@[old(self).current as int].kind),
            r ==> final(self).current == old(self).current + 1,
            !r ==> final(self).current == old(self).current,
    {
        if self.match_either(TokenType::Greater, TokenType::GreaterEqual) {
            true
        } else {
            self.match_either(TokenType::Less, TokenType::LessEqual)
        }
    }

    /// Records a diagnostic for the token on this line.
    fn report_error(&mut self, line: usize, message: &str)
        requires
            old(self).wf(),
        ensures
            final(self).tokens == old(self).tokens,
            final(self).wf(),
            final(self).current == old(self).current,
            final(self).diagnostics@.len() == old(self).diagnostics@.len() + 1,
            final(self).diagnostics@.last().line == line,
            final(self).diagnostics@.last().location@ == Seq::<char>::empty(),
            final(self).diagnostics@.last().message@ == message@,
    {
        let d = Diagnostic { line, location: String::new(), message: message.to_owned() };
        self.diagnostics.push(d);
    }

    /// Consumes a token of the expected kind, or records a diagnostic at
    /// the current token's line and fails without consuming.
    fn consume(&mut self, kind: TokenType, message: &str) -> (r: Result<Token, ParserError>)
        requires
            old(self).wf(),
        ensures
            final(self).tokens == old(self).tokens,
            final(self).wf(),
            match r {
                Ok(t) => {
                    &&& old(self).tokens@[old(self).current as int].kind == kind
                    &&& t == old(self).tokens@[old(self).current as int]
                    &&& final(self).current == old(self).current + 1
                    &&& final(self).diagnostics == old(self).diagnostics
                },
                Err(_) => {
                    &&& old(self).tokens@[old(self).current as int].kind != kind || kind
                        == TokenType::Eof
                    &&& final(self).current == old(self).current
                    &&& final(self).diagnostics@.len() == old(self).diagnostics@.len() + 1
                },
            },
    {
        if self.check(kind) {
            let t = self.peek().clone();
            self.advance_tok();
            Ok(t)
        } else {
            let line = self.peek().line;
            self.report_error(line, message);
            Err(ParserError)
        }
    }

    /// An expression: assignment sits at the lowest precedence.
    pub fn expression(&mut self) -> (r: Result<Expr, ParserError>)
        requires
            old(self).wf(),
        ensures
            final(self).steps_from(*old(self)),
            r is Ok ==> final(self).current > old(self).current,
            r is Err ==> final(self).diagnostics@.len() > old(self).diagnostics@.len(),
            match sp_expression(old(self).tokens@, old(self).current as int) {
                Some(parsed) => r == Ok::<Expr, ParserError>(parsed.0) && final(self).current
                    == parsed.1 && final(self).diagnostics == old(self).diagnostics,
                None => final(self).diagnostics@.len() > old(self).diagnostics@.len(),
            },
        decreases self.tokens@.len() - self.current, 17int,
    {
        proof {
            reveal(sp_expression);
            reveal(sp_assignment);
        }
        self.assignment()
    }

    /// `assignment → identifier "=" assignment | logical_or`
    ///
    /// Right-associative; the left-hand side must have parsed as a bare
    /// variable reference, any other shape is an "invalid assignment
    /// target" diagnostic.
    #[verifier::rlimit(100)]
    #[verifier::spinoff_prover]
    fn assignment(&mut self) -> (r: Result<Expr, ParserError>)
        requires
            old(self).wf(),
        ensures
            final(self).steps_from(*old(self)),
            r is Ok ==> final(self).current > old(self).current,
            r is Err ==> final(self).diagnostics@.len() > old(self).diagnostics@.len(),
            match sp_assignment(old(self).tokens@, old(self).current as int) {
                Some(parsed) => r == Ok::<Expr, ParserError>(parsed.0) && final(self).current
                    == parsed.1 && final(self).diagnostics == old(self).diagnostics,
                None => final(self).diagnostics@.len() > old(self).diagnostics@.len(),
            },
            match sp_or(old(self).tokens@, old(self).current as int) {
                Some(parsed) => (parsed.1 < old(self).tokens@.len() && old(self).tokens@[
                    parsed.1
                ].kind == TokenType::Equal && !(parsed.0 is Variable)) ==> r is Err && final(
                    self).diagnostics@.len() == old(self).diagnostics@.len() + 1 && final(
                    self).diagnostics@.last().message@ == "Invalid assignment target"@ && final(
                    self).diagnostics@.last().line == old(self).tokens@[parsed.1].line,
                None => true,
            },
        decreases self.tokens@.len() - self.current, 16int,
    {
        proof {
            reveal(sp_assignment);
            reveal(sp_or);
        }
        let expr = self.logical_or()?;
        if !self.match_kind(TokenType::Equal) {
            return Ok(expr);
        }
        match expr {
            Expr::Variable(var) => {
                let value = self.assignment()?;
                Ok(Expr::Assign(Assign { name: var.name, value: Box::new(value) }))
            },
            _ => {
                let line = self.previous().line;
                self.report_error(line, "Invalid assignment target");
                Err(ParserError)
            },
        }
    }

    /// `logical_or → logical_and ("or" logical_and)*`, folded into left-leaning nodes, exactly
    /// `sp_or` of the token stream.
    #[verifier::rlimit(100)]
    #[verifier::spinoff_prover]
    fn logical_or(&mut self) -> (r: Result<Expr, ParserError>)
        requires
            old(self).wf(),
        ensures
            final(self).steps_from(*old(self)),
            r is Ok ==> final(self).current > old(self).current,
            r is Err ==> final(self).diagnostics@.len() > old(self).diagnostics@.len(),
            match sp_or(old(self).tokens@, old(self).current as int) {
                Some(parsed) => r == Ok::<Expr, ParserError>(parsed.0) && final(self).current
                    == parsed.1 && final(self).diagnostics == old(self).diagnostics,
                None => final(self).diagnostics@.len() > old(self).diagnostics@.len(),
            },
        decreases self.tokens@.len() - self.current, 15int,
    {
        let ghost toks = old(self).tokens@;
        let ghost entry = old(self).current as int;
        let mut expr = match self.logical_and() {
            Ok(first) => first,
            Err(err) => {
                proof {
                    lemma_logical_or_head(toks, entry);
                }
                return Err(err);
            },
        };
        proof {
            lemma_logical_or_head(toks, entry);
        }
        while self.match_kind(TokenType::Or)
            invariant
                toks == old(self).tokens@,
                self.wf(),
                self.steps_from(*old(self)),
                self.current > old(self).current,
                self.diagnostics != old(self).diagnostics ==> self.diagnostics@.len() > old(
                    self).diagnostics@.len(),
                self.diagnostics == old(self).diagnostics ==> sp_or(
                    old(self).tokens@,
                    old(self).current as int,
                ) == sp_or_rest(self.tokens@, self.current as int, expr),
                self.diagnostics@.len() > old(self).diagnostics@.len() ==> sp_or(
                    old(self).tokens@,
                    old(self).current as int,
                ) is None,
            decreases self.tokens@.len() - self.current,
        {
            let ghost p = self.current as int - 1;
            let ghost acc0 = expr;
            let ghost was_clean = self.diagnostics == old(self).diagnostics;
            let operator = self.previous().clone();
            match self.logical_and() {
                Ok(right) => {
                    let ghost rhs0 = right;
                    expr = Expr::Logical(
                        Logical { condition: operator, left: Box::new(expr), right: Box::new(right) },
                    );
                    proof {
                        if was_clean && self.diagnostics == old(self).diagnostics {
                            lemma_logical_or_fold(toks, p, acc0, rhs0, self.current as int);
                            assert(expr == Expr::Logical((Logical { condition: toks[p], left: Box::new(acc0), right: Box::new(rhs0) })));
                            assert(sp_or(old(self).tokens@, old(self).current as int) == sp_or_rest(
                                toks,
                                self.current as int,
                                expr,
                            ));
                        }
                        if was_clean && self.diagnostics@.len() > old(self).diagnostics@.len() {
                            lemma_logical_or_stuck(toks, p, acc0);
                            assert(sp_or(old(self).tokens@, old(self).current as int) is None);
                        }
                    }
                },
                Err(err) => {
                    proof {
                        if was_clean {
                            lemma_logical_or_stuck(toks, p, acc0);
                            assert(sp_or(old(self).tokens@, old(self).current as int) is None);
                        }
                    }
                    return Err(err);
                },
            }
        }
        proof {
            if self.diagnostics == old(self).diagnostics {
                lemma_logical_or_done(toks, self.current as int, expr);
                assert(sp_or(old(self).tokens@, old(self).current as int) == Some::<(Expr, int)>((
                    expr,
                    self.current as int,
                )));
            }
        }
        Ok(expr)
    }

    /// `logical_and → equality ("and" equality)*`, folded into left-leaning nodes, exactly
    /// `sp_and` of the token stream.
    #[verifier::rlimit(100)]
    #[verifier::spinoff_prover]
    fn logical_and(&mut self) -> (r: Result<Expr, ParserError>)
        requires
            old(self).wf(),
        ensures
            final(self).steps_from(*old(self)),
            r is Ok ==> final(self).current > old(self).current,
            r is Err ==> final(self).diagnostics@.len() > old(self).diagnostics@.len(),
            match sp_and(old(self).tokens@, old(self).current as int) {
                Some(parsed) => r == Ok::<Expr, ParserError>(parsed.0) && final(self).current
                    == parsed.1 && final(self).diagnostics == old(self).diagnostics,
                None => final(self).diagnostics@.len() > old(self).diagnostics@.len(),
            },
        decreases self.tokens@.len() - self.current, 14int,
    {
        let ghost toks = old(self).tokens@;
        let ghost entry = old(self).current as int;
        let mut expr = match self.equality() {
            Ok(first) => first,
            Err(err) => {
                proof {
                    lemma_logical_and_head(toks, entry);
                }
                return Err(err);
            },
        };
        proof {
            lemma_logical_and_head(toks, entry);
        }
        while self.match_kind(TokenType::And)
            invariant
                toks == old(self).tokens@,
                self.wf(),
                self.steps_from(*old(self)),
                self.current > old(self).current,
                self.diagnostics != old(self).diagnostics ==> self.diagnostics@.len() > old(
                    self).diagnostics@.len(),
                self.diagnostics == old(self).diagnostics ==> sp_and(
                    old(self).tokens@,
                    old(self).current as int,
                ) == sp_and_rest(self.tokens@, self.current as int, expr),
                self.diagnostics@.len() > old(self).diagnostics@.len() ==> sp_and(
                    old(self).tokens@,
                    old(self).current as int,
                ) is None,
            decreases self.tokens@.len() - self.current,
        {
            let ghost p = self.current as int - 1;
            let ghost acc0 = expr;
            let ghost was_clean = self.diagnostics == old(self).diagnostics;
            let operator = self.previous().clone();
            match self.equality() {
                Ok(right) => {
                    let ghost rhs0 = right;
                    expr = Expr::Logical(
                        Logical { condition: operator, left: Box::new(expr), right: Box::new(right) },
                    );
                    proof {
                        if was_clean && self.diagnostics == old(self).diagnostics {
                            lemma_logical_and_fold(toks, p, acc0, rhs0, self.current as int);
                            assert(expr == Expr::Logical((Logical { condition: toks[p], left: Box::new(acc0), right: Box::new(rhs0) })));
                            assert(sp_and(old(self).tokens@, old(self).current as int) == sp_and_rest(
                                toks,
                                self.current as int,
                                expr,
                            ));
                        }
                        if was_clean && self.diagnostics@.len() > old(self).diagnostics@.len() {
                            lemma_logical_and_stuck(toks, p, acc0);
                            assert(sp_and(old(self).tokens@, old(self).current as int) is None);
                        }
                    }
                },
                Err(err) => {
                    proof {
                        if was_clean {
                            lemma_logical_and_stuck(toks, p, acc0);
                            assert(sp_and(old(self).tokens@, old(self).current as int) is None);
                        }
                    }
                    return Err(err);
                },
            }
        }
        proof {
            if self.diagnostics == old(self).diagnostics {
                lemma_logical_and_done(toks, self.current as int, expr);
                assert(sp_and(old(self).tokens@, old(self).current as int) == Some::<(Expr, int)>((
                    expr,
                    self.current as int,
                )));
            }
        }
        Ok(expr)
    }

    /// `equality → comparison (("!=" | "==") comparison)*`, folded into left-leaning nodes, exactly
    /// `sp_equality` of the token stream.
    #[verifier::rlimit(100)]
    #[verifier::spinoff_prover]
    fn equality(&mut self) -> (r: Result<Expr, ParserError>)
        requires
            old(self).wf(),
        ensures
            final(self).steps_from(*old(self)),
            r is Ok ==> final(self).current > old(self).current,
            r is Err ==> final(self).diagnostics@.len() > old(self).diagnostics@.len(),
            match sp_equality(old(self).tokens@, old(self).current as int) {
                Some(parsed) => r == Ok::<Expr, ParserError>(parsed.0) && final(self).current
                    == parsed.1 && final(self).diagnostics == old(self).diagnostics,
                None => final(self).diagnostics@.len() > old(self).diagnostics@.len(),
            },
        decreases self.tokens@.len() - self.current, 13int,
    {
        let ghost toks = old(self).tokens@;
        let ghost entry = old(self).current as int;
        let mut expr = match self.comparison() {
            Ok(first) => first,
            Err(err) => {
                proof {
                    lemma_equality_head(toks, entry);
                }
                return Err(err);
            },
        };
        proof {
            lemma_equality_head(toks, entry);
        }
        while self.match_either(TokenType::BangEqual, TokenType::EqualEqual)
            invariant
                toks == old(self).tokens@,
                self.wf(),
                self.steps_from(*old(self)),
                self.current > old(self).current,
                self.diagnostics != old(self).diagnostics ==> self.diagnostics@.len() > old(
                    self).diagnostics@.len(),
                self.diagnostics == old(self).diagnostics ==> sp_equality(
                    old(self).tokens@,
                    old(self).current as int,
                ) == sp_equality_rest(self.tokens@, self.current as int, expr),
                self.diagnostics@.len() > old(self).diagnostics@.len() ==> sp_equality(
                    old(self).tokens@,
                    old(self).current as int,
                ) is None,
            decreases self.tokens@.len() - self.current,
        {
            let ghost p = self.current as int - 1;
            let ghost acc0 = expr;
            let ghost was_clean = self.diagnostics == old(self).diagnostics;
            let operator = self.previous().clone();
            match self.comparison() {
                Ok(right) => {
                    let ghost rhs0 = right;
                    expr = Expr::Binary(
                        Binary { op: operator, left: Box::new(expr), right: Box::new(right) },
                    );
                    proof {
                        assert(0 <= p < toks.len());
                        assert(toks[p].kind == TokenType::BangEqual || toks[p].kind == TokenType::EqualEqual);
                        if was_clean && self.diagnostics == old(self).diagnostics {
                            assert(sp_comparison(toks, p + 1) == Some::<(Expr, int)>((
                                rhs0,
                                self.current as int,
                            )));
                            assert(self.current as int > p + 1);
                            lemma_equality_fold(toks, p, acc0, rhs0, self.current as int);
                            assert(expr == Expr::Binary((Binary { op: toks[p], left: Box::new(acc0), right: Box::new(rhs0) })));
                            assert(sp_equality(old(self).tokens@, old(self).current as int) == sp_equality_rest(
                                toks,
                                self.current as int,
                                expr,
                            ));
                        }
                        if was_clean && self.diagnostics@.len() > old(self).diagnostics@.len() {
                            assert(sp_comparison(toks, p + 1) is None);
                            lemma_equality_stuck(toks, p, acc0);
                            assert(sp_equality(old(self).tokens@, old(self).current as int) is None);
                        }
                    }
                },
                Err(err) => {
                    proof {
                        if was_clean {
                            assert(sp_comparison(toks, p + 1) is None);
                            lemma_equality_stuck(toks, p, acc0);
                            assert(sp_equality(old(self).tokens@, old(self).current as int) is None);
                        }
                    }
                    return Err(err);
                },
            }
        }
        proof {
            if self.diagnostics == old(self).diagnostics {
                lemma_equality_done(toks, self.current as int, expr);
                assert(sp_equality(old(self).tokens@, old(self).current as int) == Some::<(Expr, int)>((
                    expr,
                    self.current as int,
                )));
            }
        }
        Ok(expr)
    }

    /// `comparison → term ((">" | ">=" | "<" | "<=") term)*`, folded into left-leaning nodes, exactly
    /// `sp_comparison` of the token stream.
    #[verifier::rlimit(100)]
    #[verifier::spinoff_prover]
    fn comparison(&mut self) -> (r: Result<Expr, ParserError>)
        requires
            old(self).wf(),
        ensures
            final(self).steps_from(*old(self)),
            r is Ok ==> final(self).current > old(self).current,
            r is Err ==> final(self).diagnostics@.len() > old(self).diagnostics@.len(),
            match sp_comparison(old(self).tokens@, old(self).current as int) {
                Some(parsed) => r == Ok::<Expr, ParserError>(parsed.0) && final(self).current
                    == parsed.1 && final(self).diagnostics == old(self).diagnostics,
                None => final(self).diagnostics@.len() > old(self).diagnostics@.len(),
            },
        decreases self.tokens@.len() - self.current, 12int,
    {
        let ghost toks = old(self).tokens@;
        let ghost entry = old(self).current as int;
        let mut expr = match self.term() {
            Ok(first) => first,
            Err(err) => {
                proof {
                    lemma_comparison_head(toks, entry);
                }
                return Err(err);
            },
        };
        proof {
            lemma_comparison_head(toks, entry);
        }
        while self.match_relational()
            invariant
                toks == old(self).tokens@,
                self.wf(),
                self.steps_from(*old(self)),
                self.current > old(self).current,
                self.diagnostics != old(self).diagnostics ==> self.diagnostics@.len() > old(
                    self).diagnostics@.len(),
                self.diagnostics == old(self).diagnostics ==> sp_comparison(
                    old(self).tokens@,
                    old(self).current as int,
                ) == sp_comparison_rest(self.tokens@, self.current as int, expr),
                self.diagnostics@.len() > old(self).diagnostics@.len() ==> sp_comparison(
                    old(self).tokens@,
                    old(self).current as int,
                ) is None,
            decreases self.tokens@.len() - self.current,
        {
            let ghost p = self.current as int - 1;
            let ghost acc0 = expr;
            let ghost was_clean = self.diagnostics == old(self).diagnostics;
            let operator = self.previous().clone();
            match self.term() {
                Ok(right) => {
                    let ghost rhs0 = right;
                    expr = Expr::Binary(
                        Binary { op: operator, left: Box::new(expr), right: Box::new(right) },
                    );
                    proof {
                        assert(0 <= p < toks.len());
                        assert(is_comparison_op(toks[p].kind));
                        if was_clean && self.diagnostics == old(self).diagnostics {
                            assert(sp_term(toks, p + 1) == Some::<(Expr, int)>((
                                rhs0,
                                self.current as int,
                            )));
                            assert(self.current as int > p + 1);
                            lemma_comparison_fold(toks, p, acc0, rhs0, self.current as int);
                            assert(expr == Expr::Binary((Binary { op: toks[p], left: Box::new(acc0), right: Box::new(rhs0) })));
                            assert(sp_comparison(old(self).tokens@, old(self).current as int) == sp_comparison_rest(
                                toks,
                                self.current as int,
                                expr,
                            ));
                        }
                        if was_clean && self.diagnostics@.len() > old(self).diagnostics@.len() {
                            assert(sp_term(toks, p + 1) is None);
                            lemma_comparison_stuck(toks, p, acc0);
                            assert(sp_comparison(old(self).tokens@, old(self).current as int) is None);
                        }
                    }
                },
                Err(err) => {
                    proof {
                        if was_clean {
                            assert(sp_term(toks, p + 1) is None);
                            lemma_comparison_stuck(toks, p, acc0);
                            assert(sp_comparison(old(self).tokens@, old(self).current as int) is None);
                        }
                    }
                    return Err(err);
                },
            }
        }
        proof {
            if self.diagnostics == old(self).diagnostics {
                lemma_comparison_done(toks, self.current as int, expr);
                assert(sp_comparison(old(self).tokens@, old(self).current as int) == Some::<(Expr, int)>((
                    expr,
                    self.current as int,
                )));
            }
        }
        Ok(expr)
    }

    /// `term → factor (("+" | "-") factor)*`, folded into left-leaning nodes, exactly
    /// `sp_term` of the token stream.
    #[verifier::rlimit(100)]
    #[verifier::spinoff_prover]
    fn term(&mut self) -> (r: Result<Expr, ParserError>)
        requires
            old(self).wf(),
        ensures
            final(self).steps_from(*old(self)),
            r is Ok ==> final(self).current > old(self).current,
            r is Err ==> final(self).diagnostics@.len() > old(self).diagnostics@.len(),
            match sp_term(old(self).tokens@, old(self).current as int) {
                Some(parsed) => r == Ok::<Expr, ParserError>(parsed.0) && final(self).current
                    == parsed.1 && final(self).diagnostics == old(self).diagnostics,
                None => final(self).diagnostics@.len() > old(self).diagnostics@.len(),
            },
        decreases self.tokens@.len() - self.current, 11int,
    {
        let ghost toks = old(self).tokens@;
        let ghost entry = old(self).current as int;
        let mut expr = match self.factor() {
            Ok(first) => first,
            Err(err) => {
                proof {
                    lemma_term_head(toks, entry);
                }
                return Err(err);
            },
        };
        proof {
            lemma_term_head(toks, entry);
        }
        while self.match_either(TokenType::Minus, TokenType::Plus)
            invariant
                toks == old(self).tokens@,
                self.wf(),
                self.steps_from(*old(self)),
                self.current > old(self).current,
                self.diagnostics != old(self).diagnostics ==> self.diagnostics@.len() > old(
                    self).diagnostics@.len(),
                self.diagnostics == old(self).diagnostics ==> sp_term(
                    old(self).tokens@,
                    old(self).current as int,
                ) == sp_term_rest(self.tokens@, self.current as int, expr),
                self.diagnostics@.len() > old(self).diagnostics@.len() ==> sp_term(
                    old(self).tokens@,
                    old(self).current as int,
                ) is None,
            decreases self.tokens@.len() - self.current,
        {
            let ghost p = self.current as int - 1;
            let ghost acc0 = expr;
            let ghost was_clean = self.diagnostics == old(self).diagnostics;
            let operator = self.previous().clone();
            match self.factor() {
                Ok(right) => {
                    let ghost rhs0 = right;
                    expr = Expr::Binary(
                        Binary { op: operator, left: Box::new(expr), right: Box::new(right) },
                    );
                    proof {
                        if was_clean && self.diagnostics == old(self).diagnostics {
                            lemma_term_fold(toks, p, acc0, rhs0, self.current as int);
                            assert(expr == Expr::Binary((Binary { op: toks[p], left: Box::new(acc0), right: Box::new(rhs0) })));
                            assert(sp_term(old(self).tokens@, old(self).current as int) == sp_term_rest(
                                toks,
                                self.current as int,
                                expr,
                            ));
                        }
                        if was_clean && self.diagnostics@.len() > old(self).diagnostics@.len() {
                            lemma_term_stuck(toks, p, acc0);
                            assert(sp_term(old(self).tokens@, old(self).current as int) is None);
                        }
                    }
                },
                Err(err) => {
                    proof {
                        if was_clean {
                            lemma_term_stuck(toks, p, acc0);
                            assert(sp_term(old(self).tokens@, old(self).current as int) is None);
                        }
                    }
                    return Err(err);
                },
            }
        }
        proof {
            if self.diagnostics == old(self).diagnostics {
                lemma_term_done(toks, self.current as int, expr);
                assert(sp_term(old(self).tokens@, old(self).current as int) == Some::<(Expr, int)>((
                    expr,
                    self.current as int,
                )));
            }
        }
        Ok(expr)
    }

    /// `factor → unary (("*" | "/") unary)*`, folded into left-leaning nodes, exactly
    /// `sp_factor` of the token stream.
    #[verifier::rlimit(100)]
    #[verifier::spinoff_prover]
    fn factor(&mut self) -> (r: Result<Expr, ParserError>)
        requires
            old(self).wf(),
        ensures
            final(self).steps_from(*old(self)),
            r is Ok ==> final(self).current > old(self).current,
            r is Err ==> final(self).diagnostics@.len() > old(self).diagnostics@.len(),
            match sp_factor(old(self).tokens@, old(self).current as int) {
                Some(parsed) => r == Ok::<Expr, ParserError>(parsed.0) && final(self).current
                    == parsed.1 && final(self).diagnostics == old(self).diagnostics,
                None => final(self).diagnostics@.len() > old(self).diagnostics@.len(),
            },
        decreases self.tokens@.len() - self.current, 10int,
    {
        let ghost toks = old(self).tokens@;
        let ghost entry = old(self).current as int;
        let mut expr = match self.unary() {
            Ok(first) => first,
            Err(err) => {
                proof {
                    lemma_factor_head(toks, entry);
                }
                return Err(err);
            },
        };
        proof {
            lemma_factor_head(toks, entry);
        }
        while self.match_either(TokenType::Star, TokenType::Slash)
            invariant
                toks == old(self).tokens@,
                self.wf(),
                self.steps_from(*old(self)),
                self.current > old(self).current,
                self.diagnostics != old(self).diagnostics ==> self.diagnostics@.len() > old(
                    self).diagnostics@.len(),
                self.diagnostics == old(self).diagnostics ==> sp_factor(
                    old(self).tokens@,
                    old(self).current as int,
                ) == sp_factor_rest(self.tokens@, self.current as int, expr),
                self.diagnostics@.len() > old(self).diagnostics@.len() ==> sp_factor(
                    old(self).tokens@,
                    old(self).current as int,
                ) is None,
            decreases self.tokens@.len() - self.current,
        {
            let ghost p = self.current as int - 1;
            let ghost acc0 = expr;
            let ghost was_clean = self.diagnostics == old(self).diagnostics;
            let operator = self.previous().clone();
            match self.unary() {
                Ok(right) => {
                    let ghost rhs0 = right;
                    expr = Expr::Binary(
                        Binary { op: operator, left: Box::new(expr), right: Box::new(right) },
                    );
                    proof {
                        if was_clean && self.diagnostics == old(self).diagnostics {
                            lemma_factor_fold(toks, p, acc0, rhs0, self.current as int);
                            assert(expr == Expr::Binary((Binary { op: toks[p], left: Box::new(acc0), right: Box::new(rhs0) })));
                            assert(sp_factor(old(self).tokens@, old(self).current as int) == sp_factor_rest(
                                toks,
                                self.current as int,
                                expr,
                            ));
                        }
                        if was_clean && self.diagnostics@.len() > old(self).diagnostics@.len() {
                            lemma_factor_stuck(toks, p, acc0);
                            assert(sp_factor(old(self).tokens@, old(self).current as int) is None);
                        }
                    }
                },
                Err(err) => {
                    proof {
                        if was_clean {
                            lemma_factor_stuck(toks, p, acc0);
                            assert(sp_factor(old(self).tokens@, old(self).current as int) is None);
                        }
                    }
                    return Err(err);
                },
            }
        }
        proof {
            if self.diagnostics == old(self).diagnostics {
                lemma_factor_done(toks, self.current as int, expr);
                assert(sp_factor(old(self).tokens@, old(self).current as int) == Some::<(Expr, int)>((
                    expr,
                    self.current as int,
                )));
            }
        }
        Ok(expr)
    }

    /// `unary → ("!" | "-") unary | primary`
    fn unary(&mut self) -> (r: Result<Expr, ParserError>)
        requires
            old(self).wf(),
        ensures
            final(self).steps_from(*old(self)),
            r is Ok ==> final(self).current > old(self).current,
            r is Err ==> final(self).diagnostics@.len() > old(self).diagnostics@.len(),
            match sp_unary(old(self).tokens@, old(self).current as int) {
                Some(parsed) => r == Ok::<Expr, ParserError>(parsed.0) && final(self).current
                    == parsed.1 && final(self).diagnostics == old(self).diagnostics,
                None => final(self).diagnostics@.len() > old(self).diagnostics@.len(),
            },
        decreases self.tokens@.len() - self.current, 9int,
    {
        proof {
            reveal(sp_unary);
            reveal(sp_primary);
        }
        if self.match_kind(TokenType::Bang) || self.match_kind(TokenType::Minus) {
            let operator = self.previous().clone();
            let right = self.unary()?;
            Ok(Expr::Unary(Unary { op: operator, right: Box::new(right) }))
        } else {
            self.primary()
        }
    }

    /// `primary → literal | "(" expression ")" | identifier`
    ///
    /// A literal token becomes exactly its literal; an identifier becomes a
    /// variable reference carrying its token. A binary operator standing
    /// where a primary is expected is a "missing left operand" diagnostic,
    /// but the right-hand operand is still parsed at that operator's
    /// precedence level, so one mistake does not cascade.
    #[verifier::rlimit(100)]
    #[verifier::spinoff_prover]
    fn primary(&mut self) -> (r: Result<Expr, ParserError>)
        requires
            old(self).wf(),
        ensures
            final(self).steps_from(*old(self)),
            r is Ok ==> final(self).current > old(self).current,
            r is Err ==> final(self).diagnostics@.len() > old(self).diagnostics@.len(),
            match sp_primary(old(self).tokens@, old(self).current as int) {
                Some(parsed) => r == Ok::<Expr, ParserError>(parsed.0) && final(self).current
                    == parsed.1 && final(self).diagnostics == old(self).diagnostics,
                None => final(self).diagnostics@.len() > old(self).diagnostics@.len(),
            },
            ({
                let t = old(self).tokens@[old(self).current as int];
                &&& t.kind == TokenType::True ==> r == Ok::<Expr, ParserError>(
                    Expr::Literal(Literal::Bool(true)),
                )
                &&& t.kind == TokenType::False ==> r == Ok::<Expr, ParserError>(
                    Expr::Literal(Literal::Bool(false)),
                )
                &&& t.kind == TokenType::Nil ==> r == Ok::<Expr, ParserError>(
                    Expr::Literal(Literal::Nil),
                )
                &&& (t.kind == TokenType::Number || t.kind == TokenType::Str) ==> r == Ok::<
                    Expr,
                    ParserError,
                >(Expr::Literal(t.literal))
                &&& t.kind == TokenType::Identifier ==> r == Ok::<Expr, ParserError>(
                    Expr::Variable(VariableExpr { name: t }),
                )
                &&& (t.kind == TokenType::BangEqual || t.kind == TokenType::EqualEqual) ==> (
                match sp_equality(old(self).tokens@, old(self).current as int + 1) {
                    Some(parsed) => r == Ok::<Expr, ParserError>(parsed.0) && final(
                        self).current == parsed.1 && final(self).diagnostics@.len() == old(
                        self).diagnostics@.len() + 1,
                    None => final(self).diagnostics@.len() > old(self).diagnostics@.len(),
                })
                &&& is_comparison_op(t.kind) ==> (match sp_comparison(
                    old(self).tokens@,
                    old(self).current as int + 1,
                ) {
                    Some(parsed) => r == Ok::<Expr, ParserError>(parsed.0) && final(
                        self).current == parsed.1 && final(self).diagnostics@.len() == old(
                        self).diagnostics@.len() + 1,
                    None => final(self).diagnostics@.len() > old(self).diagnostics@.len(),
                })
                &&& t.kind == TokenType::Plus ==> (match sp_term(
                    old(self).tokens@,
                    old(self).current as int + 1,
                ) {
                    Some(parsed) => r == Ok::<Expr, ParserError>(parsed.0) && final(
                        self).current == parsed.1 && final(self).diagnostics@.len() == old(
                        self).diagnostics@.len() + 1,
                    None => final(self).diagnostics@.len() > old(self).diagnostics@.len(),
                })
                &&& (t.kind == TokenType::Star || t.kind == TokenType::Slash) ==> (
                match sp_factor(old(self).tokens@, old(self).current as int + 1) {
                    Some(parsed) => r == Ok::<Expr, ParserError>(parsed.0) && final(
                        self).current == parsed.1 && final(self).diagnostics@.len() == old(
                        self).diagnostics@.len() + 1,
                    None => final(self).diagnostics@.len() > old(self).diagnostics@.len(),
                })
            }),
        decreases self.tokens@.len() - self.current, 8int,
    {
        proof {
            reveal(sp_primary);
            reveal(sp_expression);
        }
        if self.match_kind(TokenType::True) {
            return Ok(Expr::Literal(Literal::Bool(true)));
        }
        if self.match_kind(TokenType::False) {
            return Ok(Expr::Literal(Literal::Bool(false)));
        }
        if self.match_kind(TokenType::Nil) {
            return Ok(Expr::Literal(Literal::Nil));
        }
        if self.match_kind(TokenType::Number) || self.match_kind(TokenType::Str) {
            return Ok(Expr::Literal(self.previous().literal.clone()));
        }
        if self.match_kind(TokenType::LeftParen) {
            let ghost toks = old(self).tokens@;
            let ghost entry = old(self).current as int;
            let expr = self.expression()?;
            match self.consume(TokenType::RightParen, "expected right parenthesis") {
                Ok(_) => {},
                Err(err) => {
                    proof {
                        assert(sp_primary(toks, entry) is None) by {
                            reveal(sp_primary);
                            reveal(sp_expression);
                        }
                    }
                    return Err(err);
                },
            }
            return Ok(Expr::Grouping(Grouping { expression: Box::new(expr) }));
        }
        if self.match_kind(TokenType::Identifier) {
            let name = self.previous().clone();
            return Ok(Expr::Variable(VariableExpr { name }));
        }
        // Error productions: a binary operator with no left operand.
        if self.match_kind(TokenType::BangEqual) || self.match_kind(TokenType::EqualEqual) {
            let line = self.previous().line;
            self.report_error(line, "Missing left-hand operand");
            return self.equality();
        }
        if self.match_kind(TokenType::Greater) || self.match_kind(TokenType::GreaterEqual)
            || self.match_kind(TokenType::Less) || self.match_kind(TokenType::LessEqual) {
            let line = self.previous().line;
            self.report_error(line, "Missing left-hand operand");
            return self.comparison();
        }
        if self.match_kind(TokenType::Plus) {
            let line = self.previous().line;
            self.report_error(line, "Missing left-hand operand");
            return self.term();
        }
        if self.match_kind(TokenType::Star) || self.match_kind(TokenType::Slash) {
            let line = self.previous().line;
            self.report_error(line, "Missing left-hand operand");
            return self.factor();
        }
        let line = self.peek().line;
        self.report_error(line, "expected expression");
        Err(ParserError)
    }

    /// Parses the whole token stream: `declaration*` until end of input.
    /// Consumes every token; a statement that fails to parse records its
    /// diagnostic, synchronizes, and parsing resumes, so every independent
    /// syntax error of the stream is reported in this one pass.
    ///
    /// When the stream parses cleanly (`sp_program` yields a result), no
    /// diagnostic is recorded and the returned statements mirror exactly
    /// that parse; when it does not, at least one diagnostic is recorded —
    /// so the diagnostics are empty if and only if the result is the
    /// complete parse of the stream.
    #[verifier::rlimit(100)]
    #[verifier::spinoff_prover]
    pub fn parse(&mut self) -> (stmts: Vec<Stmt>)
        requires
            old(self).wf(),
        ensures
            final(self).steps_from(*old(self)),
            final(self).current == final(self).tokens@.len() - 1,
            old(self).current < old(self).tokens@.len() - 1 && final(self).diagnostics@.len()
                == old(self).diagnostics@.len() ==> stmts@.len() > 0,
            match sp_program(old(self).tokens@, old(self).current as int) {
                Some(parsed) => final(self).diagnostics == old(self).diagnostics && stmts_model(
                    stmts@,
                ) == parsed.0 && final(self).current == parsed.1,
                None => final(self).diagnostics@.len() > old(self).diagnostics@.len(),
            },
    {
        let ghost toks = old(self).tokens@;
        let mut statements: Vec<Stmt> = Vec::new();
        while !self.at_end()
            invariant
                toks == old(self).tokens@,
                self.wf(),
                self.steps_from(*old(self)),
                statements@.len() > 0 || self.current == old(self).current
                    || self.diagnostics@.len() > old(self).diagnostics@.len(),
                self.current == old(self).current ==> statements@.len() == 0,
                self.diagnostics != old(self).diagnostics ==> self.diagnostics@.len() > old(
                    self).diagnostics@.len(),
                self.diagnostics == old(self).diagnostics ==> with_prefix(
                    stmts_model(statements@),
                    sp_program(toks, self.current as int),
                ) == sp_program(toks, old(self).current as int),
                self.diagnostics@.len() > old(self).diagnostics@.len() ==> sp_program(
                    toks,
                    old(self).current as int,
                ) is None,
            decreases self.tokens@.len() - self.current,
        {
            let ghost p = self.current as int;
            let ghost pre = statements@;
            let ghost was_clean = self.diagnostics == old(self).diagnostics;
            match self.declaration() {
                Some(s) => {
                    let ghost g = stmt_model(s);
                    statements.push(s);
                    proof {
                        assert(stmts_model(statements@) =~= stmts_model(pre).push(g));
                        if was_clean && self.diagnostics == old(self).diagnostics {
                            lemma_sp_program_fold(toks, p, g, self.current as int);
                            match sp_program(toks, self.current as int) {
                                Some(pr) => {
                                    assert(stmts_model(pre) + (seq![g] + pr.0) =~= stmts_model(
                                        pre,
                                    ).push(g) + pr.0);
                                },
                                None => {},
                            }
                        }
                        if was_clean && self.diagnostics@.len() > old(self).diagnostics@.len() {
                            lemma_sp_program_stuck(toks, p);
                        }
                    }
                },
                None => {
                    proof {
                        if was_clean {
                            lemma_sp_program_stuck(toks, p);
                        }
                    }
                },
            }
        }
        proof {
            if self.diagnostics == old(self).diagnostics {
                lemma_sp_program_done(toks, self.current as int);
                assert(stmts_model(statements@) + Seq::<GStmt>::empty() =~= stmts_model(
                    statements@,
                ));
            }
        }
        statements
    }

    /// `declaration → "var" varDecl | statement`, with statement-level
    /// error recovery: on failure the diagnostic is already recorded, the
    /// parser discards tokens up to a statement boundary and reports no
    /// statement.
    #[verifier::rlimit(100)]
    #[verifier::spinoff_prover]
    fn declaration(&mut self) -> (r: Option<Stmt>)
        requires
            old(self).wf(),
        ensures
            final(self).steps_from(*old(self)),
            r is Some ==> final(self).current > old(self).current,
            r is None ==> final(self).diagnostics@.len() > old(self).diagnostics@.len(),
            old(self).tokens@[old(self).current as int].kind != TokenType::Eof ==> final(
                self).current > old(self).current,
            match sp_declaration(old(self).tokens@, old(self).current as int) {
                Some(parsed) => r matches Some(s) && stmt_model(s) == parsed.0 && final(
                    self).current == parsed.1 && final(self).diagnostics == old(self).diagnostics,
                None => final(self).diagnostics@.len() > old(self).diagnostics@.len(),
            },
        decreases self.tokens@.len() - self.current, 20int,
    {
        let ghost toks = old(self).tokens@;
        let ghost entry = old(self).current as int;
        let result = if self.match_kind(TokenType::Var) {
            proof {
                lemma_declaration_var(toks, entry);
            }
            self.var_statement()
        } else {
            proof {
                lemma_declaration_stmt(toks, entry);
            }
            self.statement()
        };
        match result {
            Ok(s) => Some(s),
            Err(_) => {
                self.synchronize();
                None
            },
        }
    }

    /// `statement` dispatches on a leading keyword: `if`, `print`, a
    /// brace-delimited block, `while`, `for`, or a bare expression
    /// statement.
    #[verifier::rlimit(100)]
    #[verifier::spinoff_prover]
    fn statement(&mut self) -> (r: Result<Stmt, ParserError>)
        requires
            old(self).wf(),
        ensures
            final(self).steps_from(*old(self)),
            r is Ok ==> final(self).current > old(self).current,
            r is Err ==> final(self).diagnostics@.len() > old(self).diagnostics@.len(),
            match sp_statement(old(self).tokens@, old(self).current as int) {
                Some(parsed) => r matches Ok(s) && stmt_model(s) == parsed.0 && final(
                    self).current == parsed.1 && final(self).diagnostics == old(self).diagnostics,
                None => final(self).diagnostics@.len() > old(self).diagnostics@.len(),
            },
        decreases self.tokens@.len() - self.current, 19int,
    {
        let ghost toks = old(self).tokens@;
        let ghost entry = old(self).current as int;
        if self.match_kind(TokenType::If) {
            proof {
                lemma_statement_if(toks, entry);
            }
            return self.if_statement();
        }
        if self.match_kind(TokenType::Print) {
            proof {
                lemma_statement_print(toks, entry);
            }
            return self.print_statement();
        }
        if self.match_kind(TokenType::LeftBrace) {
            proof {
                lemma_statement_block(toks, entry);
            }
            let statements = self.block()?;
            let st = Stmt::Block(Block { statements });
            proof {
                let st_g = st;
                match st_g {
                    Stmt::Block(b) => {
                        lemma_block_model(b);
                    },
                    _ => {},
                }
            }
            return Ok(st);
        }
        if self.match_kind(TokenType::While) {
            proof {
                lemma_statement_while(toks, entry);
            }
            return self.while_statement();
        }
        if self.match_kind(TokenType::For) {
            proof {
                lemma_statement_for(toks, entry);
            }
            return self.for_statement();
        }
        proof {
            lemma_statement_expr(toks, entry);
        }
        self.expression_statement()
    }

    /// `varDecl → identifier ("=" expression)? ";"` (after the `var`
    /// keyword). A declaration with no initializer binds to `nil`. The
    /// declared name is exactly the identifier token that was read.
    #[verifier::rlimit(100)]
    #[verifier::spinoff_prover]
    fn var_statement(&mut self) -> (r: Result<Stmt, ParserError>)
        requires
            old(self).wf(),
        ensures
            final(self).steps_from(*old(self)),
            r is Ok ==> final(self).current > old(self).current,
            r is Err ==> final(self).diagnostics@.len() > old(self).diagnostics@.len(),
            r matches Ok(s) ==> s matches Stmt::Variable(v) && v.name == old(self).tokens@[old(
                self).current as int] && v.name.kind == TokenType::Identifier,
            match sp_var_statement(old(self).tokens@, old(self).current as int) {
                Some(parsed) => r == Ok::<Stmt, ParserError>(parsed.0) && final(self).current
                    == parsed.1 && final(self).diagnostics == old(self).diagnostics,
                None => final(self).diagnostics@.len() > old(self).diagnostics@.len(),
            },
        decreases self.tokens@.len() - self.current, 18int,
    {
        let name = self.consume(TokenType::Identifier, "Expected variable name")?;
        let initializer = if self.match_kind(TokenType::Equal) {
            self.expression()?
        } else {
            Expr::Literal(Literal::Nil)
        };
        self.consume(TokenType::Semicolon, "Expected ';' at the end of statement")?;
        Ok(Stmt::Variable(Variable { name, initializer }))
    }

    /// `if "(" expression ")" statement ("else" statement)?` — the `else`
    /// binds to the nearest `if`; exactly `sp_if_statement` of the tokens.
    #[verifier::rlimit(100)]
    #[verifier::spinoff_prover]
    fn if_statement(&mut self) -> (r: Result<Stmt, ParserError>)
        requires
            old(self).wf(),
        ensures
            final(self).steps_from(*old(self)),
            r is Ok ==> final(self).current > old(self).current,
            r is Err ==> final(self).diagnostics@.len() > old(self).diagnostics@.len(),
            r matches Ok(s) ==> s is If,
            match sp_if_statement(old(self).tokens@, old(self).current as int) {
                Some(parsed) => r matches Ok(s) && stmt_model(s) == parsed.0 && final(
                    self).current == parsed.1 && final(self).diagnostics == old(self).diagnostics,
                None => final(self).diagnostics@.len() > old(self).diagnostics@.len(),
            },
        decreases self.tokens@.len() - self.current, 18int,
    {
        proof {
            reveal(sp_if_statement);
            reveal(sp_statement);
        }
        self.consume(TokenType::LeftParen, "Expected a '(' after 'if'")?;
        let condition = self.expression()?;
        self.consume(TokenType::RightParen, "Expected a ')' end of 'if' expression")?;
        let then_branch = Box::new(self.statement()?);
        let mut else_branch: Option<Box<Stmt>> = None;
        if self.match_kind(TokenType::Else) {
            else_branch = Some(Box::new(self.statement()?));
        }
        Ok(Stmt::If(If { condition, then_branch, else_branch }))
    }

    /// `while "(" expression ")" statement`; exactly `sp_while_statement`
    /// of the tokens.
    #[verifier::rlimit(100)]
    #[verifier::spinoff_prover]
    fn while_statement(&mut self) -> (r: Result<Stmt, ParserError>)
        requires
            old(self).wf(),
        ensures
            final(self).steps_from(*old(self)),
            r is Ok ==> final(self).current > old(self).current,
            r is Err ==> final(self).diagnostics@.len() > old(self).diagnostics@.len(),
            r matches Ok(s) ==> s is While,
            match sp_while_statement(old(self).tokens@, old(self).current as int) {
                Some(parsed) => r matches Ok(s) && stmt_model(s) == parsed.0 && final(
                    self).current == parsed.1 && final(self).diagnostics == old(self).diagnostics,
                None => final(self).diagnostics@.len() > old(self).diagnostics@.len(),
            },
        decreases self.tokens@.len() - self.current, 18int,
    {
        proof {
            reveal(sp_while_statement);
            reveal(sp_statement);
        }
        self.consume(TokenType::LeftParen, "Expected a '(' after 'while'")?;
        let condition = self.expression()?;
        self.consume(TokenType::RightParen, "Expected a ')' end of 'while' expression")?;
        let body = Box::new(self.statement()?);
        Ok(Stmt::While(While { condition, body }))
    }

    /// `for "(" (varDecl | exprStmt | ";") expression? ";" expression? ")"
    /// statement`, desugared on the spot into the equivalent `while` tree:
    /// no separate loop node ever exists. Exactly `sp_for_statement` of the
    /// tokens.
    #[verifier::rlimit(100)]
    #[verifier::spinoff_prover]
    fn for_statement(&mut self) -> (r: Result<Stmt, ParserError>)
        requires
            old(self).wf(),
        ensures
            final(self).steps_from(*old(self)),
            r is Ok ==> final(self).current > old(self).current,
            r is Err ==> final(self).diagnostics@.len() > old(self).diagnostics@.len(),
            r matches Ok(s) ==> is_for_desugar(s),
            match sp_for_statement(old(self).tokens@, old(self).current as int) {
                Some(parsed) => r matches Ok(s) && stmt_model(s) == parsed.0 && final(
                    self).current == parsed.1 && final(self).diagnostics == old(self).diagnostics,
                None => final(self).diagnostics@.len() > old(self).diagnostics@.len(),
            },
        decreases self.tokens@.len() - self.current, 18int,
    {
        proof {
            reveal(sp_for_statement);
        }
        let ghost toks = old(self).tokens@;
        let ghost entry = old(self).current as int;
        self.consume(TokenType::LeftParen, "Expected a '(' after 'for'")?;
        let initializer: Option<Stmt> = if self.match_kind(TokenType::Semicolon) {
            None
        } else if self.check(TokenType::Var) {
            proof {
                lemma_declaration_var(toks, entry + 1);
            }
            self.declaration()
        } else {
            Some(self.expression_statement()?)
        };
        let mut condition: Option<Expr> = None;
        if !self.check(TokenType::Semicolon) {
            condition = Some(self.expression()?);
        }
        self.consume(TokenType::Semicolon, "Expected a ';' after condition in 'for'")?;
        let mut increment: Option<Expr> = None;
        if !self.check(TokenType::RightParen) {
            increment = Some(self.expression()?);
        }
        self.consume(TokenType::RightParen, "Expected a ')' end of 'for'")?;
        let body = self.statement()?;
        let ghost g_body = stmt_model(body);
        let ghost ini_g = initializer;
        let ghost inc_g = increment;
        let d = desugar_for(initializer, condition, increment, body);
        let ghost d_g = d;
        proof {
            let g_loop = GStmt::While(
                for_condition(condition),
                Box::new(
                    match inc_g {
                        Some(x) => GStmt::Block(seq![g_body, GStmt::Expression(x)]),
                        None => g_body,
                    },
                ),
            );
            match d_g {
                Stmt::While(w) => {
                    match inc_g {
                        Some(_) => {
                            match *w.body {
                                Stmt::Block(ib) => {
                                    lemma_block_model(ib);
                                    assert(stmts_model(ib.statements@) =~= seq![
                                        g_body,
                                        stmt_model(ib.statements@[1]),
                                    ]);
                                },
                                _ => {},
                            }
                        },
                        None => {},
                    }
                    assert(ini_g is None ==> stmt_model(d_g) == g_loop);
                },
                Stmt::Block(ob) => {
                    lemma_block_model(ob);
                    match ob.statements@[1] {
                        Stmt::While(w) => {
                            match inc_g {
                                Some(_) => {
                                    match *w.body {
                                        Stmt::Block(ib) => {
                                            lemma_block_model(ib);
                                            assert(stmts_model(ib.statements@) =~= seq![
                                                g_body,
                                                stmt_model(ib.statements@[1]),
                                            ]);
                                        },
                                        _ => {},
                                    }
                                },
                                None => {},
                            }
                            match ini_g {
                                Some(ini) => {
                                    assert(stmts_model(ob.statements@) =~= seq![
                                        stmt_model(ini),
                                        stmt_model(ob.statements@[1]),
                                    ]);
                                    assert(stmt_model(ob.statements@[1]) == g_loop);
                                    assert(stmt_model(d_g) == GStmt::Block(
                                        seq![stmt_model(ini), g_loop],
                                    ));
                                },
                                None => {},
                            }
                        },
                        _ => {},
                    }
                },
                _ => {},
            }
        }
        Ok(d)
    }

    /// `print expression ";"`.
    #[verifier::rlimit(100)]
    #[verifier::spinoff_prover]
    fn print_statement(&mut self) -> (r: Result<Stmt, ParserError>)
        requires
            old(self).wf(),
        ensures
            final(self).steps_from(*old(self)),
            r is Ok ==> final(self).current > old(self).current,
            r is Err ==> final(self).diagnostics@.len() > old(self).diagnostics@.len(),
            r matches Ok(s) ==> s is Print,
            match sp_print_statement(old(self).tokens@, old(self).current as int) {
                Some(parsed) => r == Ok::<Stmt, ParserError>(parsed.0) && final(self).current
                    == parsed.1 && final(self).diagnostics == old(self).diagnostics,
                None => final(self).diagnostics@.len() > old(self).diagnostics@.len(),
            },
        decreases self.tokens@.len() - self.current, 18int,
    {
        let expr = self.expression()?;
        self.consume(TokenType::Semicolon, "Expected ';' at the end of statement")?;
        Ok(Stmt::Print(Print { expression: expr }))
    }

    /// A bare expression terminated by `;`.
    #[verifier::rlimit(100)]
    #[verifier::spinoff_prover]
    fn expression_statement(&mut self) -> (r: Result<Stmt, ParserError>)
        requires
            old(self).wf(),
        ensures
            final(self).steps_from(*old(self)),
            r is Ok ==> final(self).current > old(self).current,
            r is Err ==> final(self).diagnostics@.len() > old(self).diagnostics@.len(),
            r matches Ok(s) ==> s is Expression,
            match sp_expression_statement(old(self).tokens@, old(self).current as int) {
                Some(parsed) => r == Ok::<Stmt, ParserError>(parsed.0) && final(self).current
                    == parsed.1 && final(self).diagnostics == old(self).diagnostics,
                None => final(self).diagnostics@.len() > old(self).diagnostics@.len(),
            },
        decreases self.tokens@.len() - self.current, 18int,
    {
        let expr = self.expression()?;
        self.consume(TokenType::Semicolon, "Expected ';' at the end of statement")?;
        Ok(Stmt::Expression(Expression { expression: expr }))
    }

    /// `"{" declaration* "}"`; exactly `sp_block` of the tokens.
    #[verifier::rlimit(100)]
    #[verifier::spinoff_prover]
    fn block(&mut self) -> (r: Result<Vec<Stmt>, ParserError>)
        requires
            old(self).wf(),
        ensures
            final(self).steps_from(*old(self)),
            r is Ok ==> final(self).current > old(self).current,
            r is Err ==> final(self).diagnostics@.len() > old(self).diagnostics@.len(),
            match sp_block(old(self).tokens@, old(self).current as int) {
                Some(parsed) => r matches Ok(v) && stmts_model(v@) == parsed.0 && final(
                    self).current == parsed.1 && final(self).diagnostics == old(self).diagnostics,
                None => final(self).diagnostics@.len() > old(self).diagnostics@.len(),
            },
        decreases self.tokens@.len() - self.current, 21int,
    {
        let ghost toks = old(self).tokens@;
        let ghost entry = old(self).current as int;
        let mut statements: Vec<Stmt> = Vec::new();
        while !self.check(TokenType::RightBrace) && !self.at_end()
            invariant
                toks == old(self).tokens@,
                self.wf(),
                self.steps_from(*old(self)),
                self.diagnostics != old(self).diagnostics ==> self.diagnostics@.len() > old(
                    self).diagnostics@.len(),
                self.diagnostics == old(self).diagnostics ==> with_prefix(
                    stmts_model(statements@),
                    sp_block(toks, self.current as int),
                ) == sp_block(toks, old(self).current as int),
                self.diagnostics@.len() > old(self).diagnostics@.len() ==> sp_block(
                    toks,
                    old(self).current as int,
                ) is None,
            decreases self.tokens@.len() - self.current,
        {
            let ghost p = self.current as int;
            let ghost pre = statements@;
            let ghost was_clean = self.diagnostics == old(self).diagnostics;
            match self.declaration() {
                Some(s) => {
                    let ghost g = stmt_model(s);
                    statements.push(s);
                    proof {
                        assert(stmts_model(statements@) =~= stmts_model(pre).push(g));
                        if was_clean && self.diagnostics == old(self).diagnostics {
                            lemma_sp_block_fold(toks, p, g, self.current as int);
                            match sp_block(toks, self.current as int) {
                                Some(pr) => {
                                    assert(stmts_model(pre) + (seq![g] + pr.0) =~= stmts_model(
                                        pre,
                                    ).push(g) + pr.0);
                                },
                                None => {},
                            }
                        }
                        if was_clean && self.diagnostics@.len() > old(self).diagnostics@.len() {
                            lemma_sp_block_stuck(toks, p);
                        }
                    }
                },
                None => {
                    proof {
                        if was_clean {
                            lemma_sp_block_stuck(toks, p);
                        }
                    }
                },
            }
        }
        proof {
            if self.diagnostics == old(self).diagnostics {
                if self.tokens@[self.current as int].kind == TokenType::RightBrace {
                    lemma_sp_block_done(toks, self.current as int);
                    assert(stmts_model(statements@) + Seq::<GStmt>::empty() =~= stmts_model(
                        statements@,
                    ));
                } else {
                    lemma_sp_block_eof(toks, self.current as int);
                }
            }
        }
        self.consume(TokenType::RightBrace, "expected a '}' after the block")?;
        Ok(statements)
    }

    /// Discards tokens until a likely statement boundary: just past a
    /// semicolon, or right before a statement-leading keyword. This is
    /// what lets one pass report several independent syntax errors.
    fn synchronize(&mut self)
        requires
            old(self).wf(),
        ensures
            final(self).tokens == old(self).tokens,
            final(self).diagnostics == old(self).diagnostics,
            final(self).wf(),
            final(self).current >= old(self).current,
            old(self).tokens@[old(self).current as int].kind != TokenType::Eof ==> final(
                self).current > old(self).current,
    {
        self.advance_tok();
        while !self.at_end()
            invariant
                self.wf(),
                self.tokens == old(self).tokens,
                self.diagnostics == old(self).diagnostics,
                self.current >= old(self).current,
                old(self).tokens@[old(self).current as int].kind != TokenType::Eof ==> self.current
                    > old(self).current,
                self.current >= 1 || self.tokens@[self.current as int].kind == TokenType::Eof,
            decreases self.tokens@.len() - self.current,
        {
            if self.previous().kind == TokenType::Semicolon {
                return;
            }
            let k = self.peek().kind;
            if k == TokenType::Class || k == TokenType::Fun || k == TokenType::Var || k
                == TokenType::For || k == TokenType::If || k == TokenType::While || k
                == TokenType::Print || k == TokenType::Return {
                return;
            }
            self.advance_tok();
        }
    }
}

/// The shape every desugared `for` loop has: a `while` tree, wrapped in a
/// two-statement block when the loop had an initializer.
pub open spec fn is_for_desugar(s: Stmt) -> bool {
    ||| s is While
    ||| (s matches Stmt::Block(b) && b.statements@.len() == 2 && b.statements@[1] is While)
}

/// The condition a `for` loop runs on: a missing condition defaults to the
/// literal `true`.
pub open spec fn for_condition(condition: Option<Expr>) -> Expr {
    match condition {
        Some(c) => c,
        None => Expr::Literal(Literal::Bool(true)),
    }
}

/// Rewrites `for (init; cond; incr) body` into the exactly equivalent
/// `while` tree: the body is wrapped in a block with the increment when
/// one is present, a missing condition becomes the literal `true`, and an
/// initializer wraps the loop in an outer block. The result is the same
/// tree a hand-written `while` loop of that shape produces — no separate
/// loop node and no special runtime case exist.
pub fn desugar_for(
    initializer: Option<Stmt>,
    condition: Option<Expr>,
    increment: Option<Expr>,
    body: Stmt,
) -> (r: Stmt)
    ensures
        match (initializer, increment) {
            (None, None) => {
                &&& r matches Stmt::While(w)
                &&& w.condition == for_condition(condition)
                &&& *w.body == body
            },
            (None, Some(inc)) => {
                &&& r matches Stmt::While(w)
                &&& w.condition == for_condition(condition)
                &&& *w.body matches Stmt::Block(ib)
                &&& ib.statements@ =~= seq![
                    body,
                    Stmt::Expression((Expression { expression: inc })),
                ]
            },
            (Some(init), None) => {
                &&& r matches Stmt::Block(ob)
                &&& ob.statements@.len() == 2
                &&& ob.statements@[0] == init
                &&& ob.statements@[1] matches Stmt::While(w)
                &&& w.condition == for_condition(condition)
                &&& *w.body == body
            },
            (Some(init), Some(inc)) => {
                &&& r matches Stmt::Block(ob)
                &&& ob.statements@.len() == 2
                &&& ob.statements@[0] == init
                &&& ob.statements@[1] matches Stmt::While(w)
                &&& w.condition == for_condition(condition)
                &&& *w.body matches Stmt::Block(ib)
                &&& ib.statements@ =~= seq![
                    body,
                    Stmt::Expression((Expression { expression: inc })),
                ]
            },
        },
{
    let mut new_body = body;
    match increment {
        Some(inc) => {
            let mut stmts: Vec<Stmt> = Vec::new();
            stmts.push(new_body);
            stmts.push(Stmt::Expression(Expression { expression: inc }));
            new_body = Stmt::Block(Block { statements: stmts });
        },
        None => {},
    }
    let cond = match condition {
        Some(c) => c,
        None => Expr::Literal(Literal::Bool(true)),
    };
    new_body = Stmt::While(While { condition: cond, body: Box::new(new_body) });
    match initializer {
        Some(init) => {
            let mut stmts: Vec<Stmt> = Vec::new();
            stmts.push(init);
            stmts.push(new_body);
            new_body = Stmt::Block(Block { statements: stmts });
        },
        None => {},
    }
    new_body
}

} // verus!
