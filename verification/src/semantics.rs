//! The mathematical big-step semantics of the language: what evaluating an
//! expression or executing a statement means, stated over the environment
//! chain model and sequences of characters. The executable evaluator in
//! `interpreter` is proved to follow these functions exactly.
//!
//! Statement execution takes a step budget (`fuel`): a nested statement or
//! a further loop iteration runs on a strictly smaller budget, so the
//! semantics is a total function even though a `while` program by itself
//! need not terminate. A run that exhausts its budget ends in
//! `Outcome::OutOfSteps`.

use crate::environment::{chain_assign, chain_lookup};
use crate::expr::Expr;
use crate::interpreter::{ErrorKind, RuntimeError};
use crate::object::{lit_val, truthy, val_eq, Val};
use crate::stmt::Stmt;
use crate::text::int_text;
use crate::token::TokenType;
use vstd::prelude::*;

verus! {

/// The model of an environment chain: innermost frame last.
pub type Chain = Seq<Map<Seq<char>, Val>>;

/// The whole evaluation state: the environment chain and the output
/// emitted so far (one entry per `print`).
pub struct State {
    pub env: Chain,
    pub out: Seq<Seq<char>>,
}

/// How the execution of a statement ended.
pub enum Outcome {
    /// Ran to completion.
    Done,
    /// Aborted on the first runtime error.
    Fault(RuntimeError),
    /// The step budget ran out before the statement finished.
    OutOfSteps,
}

/// Wrapping 64-bit addition: the language's `+` on numbers.
pub open spec fn add64(a: i64, b: i64) -> i64 {
    a.wrapping_add(b)
}

/// Wrapping 64-bit subtraction: the language's binary `-` on numbers.
pub open spec fn sub64(a: i64, b: i64) -> i64 {
    a.wrapping_sub(b)
}

/// Wrapping 64-bit multiplication: the language's `*` on numbers.
pub open spec fn mul64(a: i64, b: i64) -> i64 {
    a.wrapping_mul(b)
}

/// Wrapping 64-bit negation: the language's unary `-` on a number.
pub open spec fn neg64(a: i64) -> i64 {
    (0i64).wrapping_sub(a)
}

/// 64-bit division, truncated toward zero, wrapping on the single
/// overflowing case (`i64::MIN / -1`). Division by zero is excluded by the
/// caller: the language reports it as a runtime error instead.
pub open spec fn div64(a: i64, b: i64) -> i64
    recommends
        b != 0,
{
    match a.checked_div(b) {
        Some(q) => q,
        None => i64::MIN,
    }
}

/// The textual rendering a `print` statement emits: `nil`, decimal digits
/// (numbers have no fractional part), `true`/`false`, or the raw text.
pub open spec fn val_text(v: Val) -> Seq<char> {
    match v {
        Val::Nil => "nil"@,
        Val::Num(n) => int_text(n as int),
        Val::Bool(b) => if b {
            "true"@
        } else {
            "false"@
        },
        Val::Text(s) => s,
    }
}

/// The value of a unary operator applied to an evaluated operand: `-`
/// requires a number, `!` negates truthiness of any value. An operator
/// kind outside the grammar's set never reaches a grammar-produced tree;
/// it is rejected as a type mismatch rather than trusted.
pub open spec fn unary_value(op: TokenType, line: usize, v: Val) -> Result<Val, RuntimeError> {
    match op {
        TokenType::Minus => match v {
            Val::Num(n) => Ok(Val::Num(neg64(n))),
            _ => Err(RuntimeError { line, kind: ErrorKind::TypeMismatch }),
        },
        TokenType::Bang => Ok(Val::Bool(!truthy(v))),
        _ => Err(RuntimeError { line, kind: ErrorKind::TypeMismatch }),
    }
}

/// The value of a binary operator applied to two evaluated operands.
/// Arithmetic needs two numbers; `/` of a zero right operand is a
/// `DivisionByZero` error; `+` also concatenates two texts; comparisons
/// need two numbers; `==` and `!=` compare structurally and never fail.
pub open spec fn binary_value(op: TokenType, line: usize, a: Val, b: Val) -> Result<
    Val,
    RuntimeError,
> {
    match op {
        TokenType::Minus => match (a, b) {
            (Val::Num(x), Val::Num(y)) => Ok(Val::Num(sub64(x, y))),
            _ => Err(RuntimeError { line, kind: ErrorKind::TypeMismatch }),
        },
        TokenType::Plus => match (a, b) {
            (Val::Num(x), Val::Num(y)) => Ok(Val::Num(add64(x, y))),
            (Val::Text(x), Val::Text(y)) => Ok(Val::Text(x + y)),
            _ => Err(RuntimeError { line, kind: ErrorKind::TypeMismatch }),
        },
        TokenType::Star => match (a, b) {
            (Val::Num(x), Val::Num(y)) => Ok(Val::Num(mul64(x, y))),
            _ => Err(RuntimeError { line, kind: ErrorKind::TypeMismatch }),
        },
        TokenType::Slash => match (a, b) {
            (Val::Num(x), Val::Num(y)) => if y == 0 {
                Err(RuntimeError { line, kind: ErrorKind::DivisionByZero })
            } else {
                Ok(Val::Num(div64(x, y)))
            },
            _ => Err(RuntimeError { line, kind: ErrorKind::TypeMismatch }),
        },
        TokenType::Greater => match (a, b) {
            (Val::Num(x), Val::Num(y)) => Ok(Val::Bool(x > y)),
            _ => Err(RuntimeError { line, kind: ErrorKind::TypeMismatch }),
        },
        TokenType::GreaterEqual => match (a, b) {
            (Val::Num(x), Val::Num(y)) => Ok(Val::Bool(x >= y)),
            _ => Err(RuntimeError { line, kind: ErrorKind::TypeMismatch }),
        },
        TokenType::Less => match (a, b) {
            (Val::Num(x), Val::Num(y)) => Ok(Val::Bool(x < y)),
            _ => Err(RuntimeError { line, kind: ErrorKind::TypeMismatch }),
        },
        TokenType::LessEqual => match (a, b) {
            (Val::Num(x), Val::Num(y)) => Ok(Val::Bool(x <= y)),
            _ => Err(RuntimeError { line, kind: ErrorKind::TypeMismatch }),
        },
        TokenType::EqualEqual => Ok(Val::Bool(val_eq(a, b))),
        TokenType::BangEqual => Ok(Val::Bool(!val_eq(a, b))),
        _ => Err(RuntimeError { line, kind: ErrorKind::TypeMismatch }),
    }
}

/// Evaluating an expression: returns the environment chain after the
/// side effects of any nested assignments, and the value or the first
/// runtime error. Operands evaluate strictly left to right; `and` / `or`
/// short-circuit, leaving their right side unevaluated.
pub open spec fn eval_expr(env: Chain, e: Expr) -> (Chain, Result<Val, RuntimeError>)
    decreases e,
{
    match e {
        Expr::Literal(l) => (env, Ok(lit_val(l))),
        Expr::Grouping(g) => eval_expr(env, *g.expression),
        Expr::Unary(u) => {
            let (env1, r) = eval_expr(env, *u.right);
            match r {
                Ok(v) => (env1, unary_value(u.op.kind, u.op.line, v)),
                Err(e1) => (env1, Err(e1)),
            }
        },
        Expr::Binary(b) => {
            let (env1, r1) = eval_expr(env, *b.left);
            match r1 {
                Ok(a) => {
                    let (env2, r2) = eval_expr(env1, *b.right);
                    match r2 {
                        Ok(c) => (env2, binary_value(b.op.kind, b.op.line, a, c)),
                        Err(e2) => (env2, Err(e2)),
                    }
                },
                Err(e1) => (env1, Err(e1)),
            }
        },
        Expr::Logical(l) => {
            let (env1, r1) = eval_expr(env, *l.left);
            match r1 {
                Ok(v) => {
                    if l.condition.kind == TokenType::Or {
                        if truthy(v) {
                            (env1, Ok(v))
                        } else {
                            eval_expr(env1, *l.right)
                        }
                    } else if l.condition.kind == TokenType::And {
                        if !truthy(v) {
                            (env1, Ok(v))
                        } else {
                            eval_expr(env1, *l.right)
                        }
                    } else {
                        (
                            env1,
                            Err(
                                RuntimeError {
                                    line: l.condition.line,
                                    kind: ErrorKind::TypeMismatch,
                                },
                            ),
                        )
                    }
                },
                Err(e1) => (env1, Err(e1)),
            }
        },
        Expr::Variable(v) => (
            env,
            match chain_lookup(env, v.name.lexeme@) {
                Some(val) => Ok(val),
                None => Err(
                    RuntimeError {
                        line: v.name.line,
                        kind: ErrorKind::UndefinedVariable(v.name.lexeme),
                    },
                ),
            },
        ),
        Expr::Assign(a) => {
            let (env1, r) = eval_expr(env, *a.value);
            match r {
                Ok(v) => match chain_assign(env1, a.name.lexeme@, v) {
                    Some(env2) => (env2, Ok(v)),
                    None => (
                        env1,
                        Err(
                            RuntimeError {
                                line: a.name.line,
                                kind: ErrorKind::UndefinedVariable(a.name.lexeme),
                            },
                        ),
                    ),
                },
                Err(e1) => (env1, Err(e1)),
            }
        },
    }
}

/// Executing one statement under a step budget. Each nested statement and
/// each further loop iteration runs on a budget smaller by one.
pub open spec fn step_stmt(st: State, s: Stmt, fuel: nat) -> (State, Outcome)
    decreases fuel, 0int,
{
    if fuel == 0 {
        (st, Outcome::OutOfSteps)
    } else {
        match s {
            Stmt::Expression(es) => {
                let (env1, r) = eval_expr(st.env, es.expression);
                let st1 = State { env: env1, out: st.out };
                match r {
                    Ok(_) => (st1, Outcome::Done),
                    Err(e) => (st1, Outcome::Fault(e)),
                }
            },
            Stmt::Print(p) => {
                let (env1, r) = eval_expr(st.env, p.expression);
                match r {
                    Ok(v) => (
                        State { env: env1, out: st.out.push(val_text(v)) },
                        Outcome::Done,
                    ),
                    Err(e) => (State { env: env1, out: st.out }, Outcome::Fault(e)),
                }
            },
            Stmt::Variable(d) => {
                let (env1, r) = eval_expr(st.env, d.initializer);
                match r {
                    Ok(v) => (
                        State {
                            env: env1.update(
                                env1.len() - 1,
                                env1.last().insert(d.name.lexeme@, v),
                            ),
                            out: st.out,
                        },
                        Outcome::Done,
                    ),
                    Err(e) => (State { env: env1, out: st.out }, Outcome::Fault(e)),
                }
            },
            Stmt::Block(b) => {
                let entered = State { env: st.env.push(Map::empty()), out: st.out };
                let (st1, h) = step_block(entered, b.statements@, 0, (fuel - 1) as nat);
                // The child frame is dropped on every exit path.
                (State { env: st1.env.drop_last(), out: st1.out }, h)
            },
            Stmt::If(i) => {
                let (env1, r) = eval_expr(st.env, i.condition);
                let st1 = State { env: env1, out: st.out };
                match r {
                    Ok(v) => {
                        if truthy(v) {
                            step_stmt(st1, *i.then_branch, (fuel - 1) as nat)
                        } else {
                            match i.else_branch {
                                Some(e) => step_stmt(st1, *e, (fuel - 1) as nat),
                                None => (st1, Outcome::Done),
                            }
                        }
                    },
                    Err(e) => (st1, Outcome::Fault(e)),
                }
            },
            Stmt::While(w) => {
                let (env1, r) = eval_expr(st.env, w.condition);
                let st1 = State { env: env1, out: st.out };
                match r {
                    Ok(v) => {
                        if truthy(v) {
                            let (st2, h) = step_stmt(st1, *w.body, (fuel - 1) as nat);
                            match h {
                                Outcome::Done => step_stmt(st2, s, (fuel - 1) as nat),
                                _ => (st2, h),
                            }
                        } else {
                            (st1, Outcome::Done)
                        }
                    },
                    Err(e) => (st1, Outcome::Fault(e)),
                }
            },
        }
    }
}

/// Executing the statements of a sequence from index `i` on, in order,
/// stopping at the first one that does not end in `Done`.
pub open spec fn step_block(st: State, ss: Seq<Stmt>, i: int, fuel: nat) -> (State, Outcome)
    decreases fuel, ss.len() - i + 1,
{
    if i < 0 || i >= ss.len() {
        (st, Outcome::Done)
    } else {
        let (st1, h) = step_stmt(st, ss[i], fuel);
        match h {
            Outcome::Done => step_block(st1, ss, i + 1, fuel),
            _ => (st1, h),
        }
    }
}

/// Evaluating an expression never changes the frame count of the scope
/// chain.
pub proof fn lemma_eval_env_len(env: Chain, e: Expr)
    ensures
        eval_expr(env, e).0.len() == env.len(),
    decreases e,
{
    match e {
        Expr::Literal(l) => {},
        Expr::Grouping(g) => {
            lemma_eval_env_len(env, *g.expression);
        },
        Expr::Unary(u) => {
            lemma_eval_env_len(env, *u.right);
        },
        Expr::Binary(b) => {
            lemma_eval_env_len(env, *b.left);
            let (env1, r1) = eval_expr(env, *b.left);
            if r1 is Ok {
                lemma_eval_env_len(env1, *b.right);
            }
        },
        Expr::Logical(l) => {
            lemma_eval_env_len(env, *l.left);
            let (env1, r1) = eval_expr(env, *l.left);
            if r1 is Ok {
                lemma_eval_env_len(env1, *l.right);
            }
        },
        Expr::Variable(v) => {},
        Expr::Assign(a) => {
            lemma_eval_env_len(env, *a.value);
            let (env1, r) = eval_expr(env, *a.value);
            if r is Ok {
                lemma_chain_assign_len(env1, a.name.lexeme@, r->Ok_0);
            }
        },
    }
}

/// Assigning in a chain keeps its frame count.
pub proof fn lemma_chain_assign_len(chain: Chain, name: Seq<char>, v: Val)
    ensures
        chain_assign(chain, name, v) matches Some(c) ==> c.len() == chain.len(),
    decreases chain.len(),
{
    if chain.len() > 0 && !chain.last().contains_key(name) {
        lemma_chain_assign_len(chain.drop_last(), name, v);
    }
}

/// Executing a statement never changes the frame count of the scope chain.
pub proof fn lemma_step_env_len(st: State, s: Stmt, fuel: nat)
    requires
        st.env.len() >= 1,
    ensures
        step_stmt(st, s, fuel).0.env.len() == st.env.len(),
    decreases fuel, 0int,
{
    if fuel > 0 {
        match s {
            Stmt::Expression(es) => {
                lemma_eval_env_len(st.env, es.expression);
            },
            Stmt::Print(p) => {
                lemma_eval_env_len(st.env, p.expression);
            },
            Stmt::Variable(d) => {
                lemma_eval_env_len(st.env, d.initializer);
            },
            Stmt::Block(b) => {
                let entered = State { env: st.env.push(Map::empty()), out: st.out };
                lemma_step_block_env_len(entered, b.statements@, 0, (fuel - 1) as nat);
            },
            Stmt::If(i) => {
                lemma_eval_env_len(st.env, i.condition);
                let (env1, r) = eval_expr(st.env, i.condition);
                let st1 = State { env: env1, out: st.out };
                match r {
                    Ok(v) => {
                        if truthy(v) {
                            lemma_step_env_len(st1, *i.then_branch, (fuel - 1) as nat);
                        } else {
                            match i.else_branch {
                                Some(e) => lemma_step_env_len(st1, *e, (fuel - 1) as nat),
                                None => {},
                            }
                        }
                    },
                    Err(_) => {},
                }
            },
            Stmt::While(w) => {
                lemma_eval_env_len(st.env, w.condition);
                let (env1, r) = eval_expr(st.env, w.condition);
                let st1 = State { env: env1, out: st.out };
                match r {
                    Ok(v) => {
                        if truthy(v) {
                            lemma_step_env_len(st1, *w.body, (fuel - 1) as nat);
                            let (st2, h) = step_stmt(st1, *w.body, (fuel - 1) as nat);
                            if h is Done {
                                lemma_step_env_len(st2, s, (fuel - 1) as nat);
                            }
                        }
                    },
                    Err(_) => {},
                }
            },
        }
    }
}

/// Grouping is transparent: a parenthesized expression evaluates exactly
/// as its inner expression does, in value and in side effects. This is
/// why a rendering that re-parses with extra grouping nodes — as the
/// fully parenthesized debug printer's output does — still evaluates to
/// the same result.
pub proof fn lemma_grouping_transparent(env: Chain, g: crate::expr::Grouping)
    ensures
        eval_expr(env, Expr::Grouping(g)) == eval_expr(env, *g.expression),
{
}

/// Short-circuit of `and`: when the left side evaluates to a falsy value,
/// the whole expression is exactly the left side's evaluation — the right
/// side never runs, so none of its side effects happen.
pub proof fn lemma_and_short_circuit(env: Chain, l: crate::expr::Logical)
    requires
        l.condition.kind == TokenType::And,
        ({
            let (env1, r) = eval_expr(env, *l.left);
            r matches Ok(v) && !truthy(v)
        }),
    ensures
        eval_expr(env, Expr::Logical(l)) == eval_expr(env, *l.left),
{
}

/// Short-circuit of `or`: when the left side evaluates to a truthy value,
/// the whole expression is exactly the left side's evaluation.
pub proof fn lemma_or_short_circuit(env: Chain, l: crate::expr::Logical)
    requires
        l.condition.kind == TokenType::Or,
        ({
            let (env1, r) = eval_expr(env, *l.left);
            r matches Ok(v) && truthy(v)
        }),
    ensures
        eval_expr(env, Expr::Logical(l)) == eval_expr(env, *l.left),
{
}

/// A bare reference to a name resolves to the nearest binding in the
/// chain, and fails with `UndefinedVariable` — carrying the reference's
/// source line — exactly when no frame binds the name. It never silently
/// produces `nil`, and it never touches the chain.
pub proof fn lemma_variable_reference(env: Chain, v: crate::expr::Variable)
    ensures
        eval_expr(env, Expr::Variable(v)).0 == env,
        chain_lookup(env, v.name.lexeme@) matches Some(value) ==> eval_expr(
            env,
            Expr::Variable(v),
        ).1 == Ok::<Val, RuntimeError>(value),
        chain_lookup(env, v.name.lexeme@) is None ==> eval_expr(env, Expr::Variable(v)).1
            == Err::<Val, RuntimeError>(
            RuntimeError {
                line: v.name.line,
                kind: ErrorKind::UndefinedVariable(v.name.lexeme),
            },
        ),
{
}

/// Dividing by an exact zero is a `DivisionByZero` runtime error, never a
/// value; dividing by anything else yields a number.
pub proof fn lemma_division_by_zero(line: usize, x: i64, y: i64)
    ensures
        y == 0 ==> binary_value(TokenType::Slash, line, Val::Num(x), Val::Num(y)) == Err::<
            Val,
            RuntimeError,
        >(RuntimeError { line, kind: ErrorKind::DivisionByZero }),
        y != 0 ==> binary_value(TokenType::Slash, line, Val::Num(x), Val::Num(y)) == Ok::<
            Val,
            RuntimeError,
        >(Val::Num(div64(x, y))),
{
}

/// Assignment in a chain never adds or removes a binding anywhere: every
/// frame keeps exactly its names.
pub proof fn lemma_chain_assign_domains(chain: Chain, name: Seq<char>, v: Val)
    ensures
        chain_assign(chain, name, v) matches Some(c) ==> c.len() == chain.len() && forall|j: int|
            0 <= j < chain.len() ==> (#[trigger] c[j]).dom() =~= chain[j].dom(),
    decreases chain.len(),
{
    if chain.len() > 0 {
        if chain.last().contains_key(name) {
            assert(chain.last().insert(name, v).dom() =~= chain.last().dom());
        } else {
            lemma_chain_assign_domains(chain.drop_last(), name, v);
        }
    }
}

/// Evaluating an expression never adds or removes a binding in any frame:
/// assignments overwrite values, they never declare.
pub proof fn lemma_eval_domains(env: Chain, e: Expr)
    ensures
        eval_expr(env, e).0.len() == env.len(),
        forall|j: int|
            0 <= j < env.len() ==> (#[trigger] eval_expr(env, e).0[j]).dom() =~= env[j].dom(),
    decreases e,
{
    lemma_eval_env_len(env, e);
    match e {
        Expr::Literal(l) => {},
        Expr::Grouping(g) => {
            lemma_eval_domains(env, *g.expression);
        },
        Expr::Unary(u) => {
            lemma_eval_domains(env, *u.right);
        },
        Expr::Binary(b) => {
            lemma_eval_domains(env, *b.left);
            let (env1, r1) = eval_expr(env, *b.left);
            if r1 is Ok {
                lemma_eval_domains(env1, *b.right);
            }
        },
        Expr::Logical(l) => {
            lemma_eval_domains(env, *l.left);
            let (env1, r1) = eval_expr(env, *l.left);
            if r1 is Ok {
                lemma_eval_domains(env1, *l.right);
            }
        },
        Expr::Variable(v) => {},
        Expr::Assign(a) => {
            lemma_eval_domains(env, *a.value);
            let (env1, r) = eval_expr(env, *a.value);
            if r is Ok {
                lemma_chain_assign_domains(env1, a.name.lexeme@, r->Ok_0);
            }
        },
    }
}

/// Executing a statement keeps the names of every enclosing frame: only
/// the innermost frame can gain a binding (from a declaration).
pub proof fn lemma_step_domains(st: State, s: Stmt, fuel: nat)
    requires
        st.env.len() >= 1,
    ensures
        step_stmt(st, s, fuel).0.env.len() == st.env.len(),
        forall|j: int|
            0 <= j < st.env.len() - 1 ==> (#[trigger] step_stmt(st, s, fuel).0.env[j]).dom()
                =~= st.env[j].dom(),
    decreases fuel, 0int,
{
    lemma_step_env_len(st, s, fuel);
    if fuel > 0 {
        match s {
            Stmt::Expression(es) => {
                lemma_eval_domains(st.env, es.expression);
            },
            Stmt::Print(p) => {
                lemma_eval_domains(st.env, p.expression);
            },
            Stmt::Variable(d) => {
                lemma_eval_domains(st.env, d.initializer);
            },
            Stmt::Block(b) => {
                let entered = State { env: st.env.push(Map::empty()), out: st.out };
                lemma_step_block_domains(entered, b.statements@, 0, (fuel - 1) as nat);
            },
            Stmt::If(i) => {
                lemma_eval_domains(st.env, i.condition);
                let (env1, r) = eval_expr(st.env, i.condition);
                let st1 = State { env: env1, out: st.out };
                match r {
                    Ok(v) => {
                        if truthy(v) {
                            lemma_step_domains(st1, *i.then_branch, (fuel - 1) as nat);
                        } else {
                            match i.else_branch {
                                Some(e) => lemma_step_domains(st1, *e, (fuel - 1) as nat),
                                None => {},
                            }
                        }
                    },
                    Err(_) => {},
                }
            },
            Stmt::While(w) => {
                lemma_eval_domains(st.env, w.condition);
                let (env1, r) = eval_expr(st.env, w.condition);
                let st1 = State { env: env1, out: st.out };
                match r {
                    Ok(v) => {
                        if truthy(v) {
                            lemma_step_domains(st1, *w.body, (fuel - 1) as nat);
                            let (st2, h) = step_stmt(st1, *w.body, (fuel - 1) as nat);
                            if h is Done {
                                lemma_step_domains(st2, s, (fuel - 1) as nat);
                            }
                        }
                    },
                    Err(_) => {},
                }
            },
        }
    }
}

/// Executing a statement sequence keeps the names of every enclosing
/// frame.
pub proof fn lemma_step_block_domains(st: State, ss: Seq<Stmt>, i: int, fuel: nat)
    requires
        st.env.len() >= 1,
    ensures
        step_block(st, ss, i, fuel).0.env.len() == st.env.len(),
        forall|j: int|
            0 <= j < st.env.len() - 1 ==> (#[trigger] step_block(st, ss, i, fuel).0.env[j]).dom()
                =~= st.env[j].dom(),
    decreases fuel, ss.len() - i + 1,
{
    if 0 <= i < ss.len() {
        lemma_step_domains(st, ss[i], fuel);
        let (st1, h) = step_stmt(st, ss[i], fuel);
        if h is Done {
            lemma_step_block_domains(st1, ss, i + 1, fuel);
        }
    }
}

/// Lexical scoping: a declaration inside a block lives in the block's own
/// child frame and is dropped with it. Executing a block never adds or
/// removes a name in any scope that encloses it — including the scope the
/// block appears in — whatever the block's body does and however it ends.
pub proof fn lemma_block_scoping(st: State, b: crate::stmt::Block, fuel: nat)
    requires
        st.env.len() >= 1,
    ensures
        step_stmt(st, Stmt::Block(b), fuel).0.env.len() == st.env.len(),
        forall|j: int|
            0 <= j < st.env.len() ==> (#[trigger] step_stmt(st, Stmt::Block(b), fuel).0.env[
                j
            ]).dom() =~= st.env[j].dom(),
{
    if fuel > 0 {
        let entered = State { env: st.env.push(Map::empty()), out: st.out };
        lemma_step_block_domains(entered, b.statements@, 0, (fuel - 1) as nat);
        lemma_step_block_env_len(entered, b.statements@, 0, (fuel - 1) as nat);
    }
}

/// Executing a statement sequence never changes the frame count.
pub proof fn lemma_step_block_env_len(st: State, ss: Seq<Stmt>, i: int, fuel: nat)
    requires
        st.env.len() >= 1,
    ensures
        step_block(st, ss, i, fuel).0.env.len() == st.env.len(),
    decreases fuel, ss.len() - i + 1,
{
    if 0 <= i < ss.len() {
        lemma_step_env_len(st, ss[i], fuel);
        let (st1, h) = step_stmt(st, ss[i], fuel);
        if h is Done {
            lemma_step_block_env_len(st1, ss, i + 1, fuel);
        }
    }
}

} // verus!
