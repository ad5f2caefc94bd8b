//! The tree-walking evaluator: executes statements against a scope chain,
//! collecting printed output, and propagates the first runtime error. Every
//! public entry point is proved to follow the big-step semantics in
//! `semantics` exactly.

use crate::environment::Environment;
use crate::expr::Expr;
use crate::object::Object;
use crate::semantics::{
    binary_value, eval_expr, lemma_step_block_env_len, step_block, step_stmt, unary_value,
    Outcome, State,
};
use crate::stmt::Stmt;
use crate::text::{chars_to_string, dec_digits, push_int_text, push_str_chars, push_usize_text};
use vstd::prelude::*;

verus! {

/// What went wrong at runtime. `UndefinedVariable` carries the name that
/// was looked up or assigned.
pub enum ErrorKind {
    UndefinedVariable(String),
    TypeMismatch,
    DivisionByZero,
}

/// A runtime error: the first one encountered aborts the remainder of
/// evaluation and is surfaced with the offending source line.
pub struct RuntimeError {
    pub line: usize,
    pub kind: ErrorKind,
}

/// The message text for an error kind.
pub open spec fn kind_text(kind: ErrorKind) -> Seq<char> {
    match kind {
        ErrorKind::UndefinedVariable(name) => "Undefined variable '"@ + name@ + "'."@,
        ErrorKind::TypeMismatch => "Type mismatch."@,
        ErrorKind::DivisionByZero => "Division by zero."@,
    }
}

/// The rendering of a runtime error: `[line <n>] <message>`.
pub open spec fn runtime_error_text(e: RuntimeError) -> Seq<char> {
    "[line "@ + dec_digits(e.line as nat) + "] "@ + kind_text(e.kind)
}

impl RuntimeError {
    pub fn new(line: usize, kind: ErrorKind) -> (e: RuntimeError)
        ensures
            e.line == line,
            e.kind == kind,
    {
        RuntimeError { line, kind }
    }

    /// Renders the error for user-facing reporting.
    pub fn render(&self) -> (s: String)
        ensures
            s@ == runtime_error_text(*self),
    {
        let mut out: Vec<char> = Vec::new();
        push_str_chars(&mut out, "[line ");
        push_usize_text(&mut out, self.line);
        push_str_chars(&mut out, "] ");
        match &self.kind {
            ErrorKind::UndefinedVariable(name) => {
                push_str_chars(&mut out, "Undefined variable '");
                push_str_chars(&mut out, name.as_str());
                push_str_chars(&mut out, "'.");
            },
            ErrorKind::TypeMismatch => {
                push_str_chars(&mut out, "Type mismatch.");
            },
            ErrorKind::DivisionByZero => {
                push_str_chars(&mut out, "Division by zero.");
            },
        }
        proof {
            assert(out@ =~= runtime_error_text(*self));
        }
        chars_to_string(&out)
    }
}

/// Why a run stopped early: a runtime fault, or an exhausted step budget.
pub enum Halt {
    Fault(RuntimeError),
    OutOfSteps,
}

/// The semantic outcome that an execution result stands for.
pub open spec fn outcome_of(r: Result<(), Halt>) -> Outcome {
    match r {
        Ok(_) => Outcome::Done,
        Err(Halt::Fault(e)) => Outcome::Fault(e),
        Err(Halt::OutOfSteps) => Outcome::OutOfSteps,
    }
}

/// An evaluation result follows a semantic result when an `Ok` value
/// models the semantic value and an `Err` carries the very same error.
pub open spec fn res_matches(
    r: Result<Object, RuntimeError>,
    s: Result<crate::object::Val, RuntimeError>,
) -> bool {
    match (r, s) {
        (Ok(o), Ok(v)) => o@ == v,
        (Err(a), Err(b)) => a == b,
        _ => false,
    }
}

/// The evaluator: the current scope chain and the output emitted so far,
/// one entry per executed `print` statement.
pub struct Interpreter {
    pub environment: Environment,
    pub output: Vec<String>,
}

impl Interpreter {
    /// The semantic state this evaluator is in.
    pub open spec fn state(&self) -> State {
        State { env: self.environment@, out: self.output.deep_view() }
    }

    pub open spec fn wf(&self) -> bool {
        self.environment.wf()
    }

    /// A fresh evaluator: one empty global scope, no output.
    pub fn new() -> (it: Interpreter)
        ensures
            it.wf(),
            it.state().env =~= seq![Map::<Seq<char>, crate::object::Val>::empty()],
            it.state().out =~= Seq::<Seq<char>>::empty(),
    {
        let it = Interpreter { environment: Environment::new(), output: Vec::new() };
        proof {
            assert(it.output.deep_view() =~= Seq::<Seq<char>>::empty());
        }
        it
    }

    /// Renders a value as the `print` statement emits it.
    pub fn stringify(&self, obj: &Object) -> (s: String)
        ensures
            s@ == crate::semantics::val_text(obj@),
    {
        match obj {
            Object::Null => {
                let mut out: Vec<char> = Vec::new();
                push_str_chars(&mut out, "nil");
                proof {
                    assert(out@ =~= "nil"@);
                }
                chars_to_string(&out)
            },
            Object::Number(n) => {
                let mut out: Vec<char> = Vec::new();
                push_int_text(&mut out, *n);
                proof {
                    assert(out@ =~= crate::text::int_text(*n as int));
                }
                chars_to_string(&out)
            },
            Object::Boolean(b) => {
                let mut out: Vec<char> = Vec::new();
                if *b {
                    push_str_chars(&mut out, "true");
                    proof {
                        assert(out@ =~= "true"@);
                    }
                } else {
                    push_str_chars(&mut out, "false");
                    proof {
                        assert(out@ =~= "false"@);
                    }
                }
                chars_to_string(&out)
            },
            Object::Str(s) => s.clone(),
        }
    }

    /// Evaluates an expression: the scope chain afterwards and the result
    /// are exactly those of the semantics; no output is emitted.
    pub fn evaluate(&mut self, e: &Expr) -> (r: Result<Object, RuntimeError>)
        requires
            old(self).wf(),
        ensures
            final(self).wf(),
            final(self).output == old(self).output,
            ({
                let (env2, rr) = eval_expr(old(self).environment@, *e);
                final(self).environment@ == env2 && res_matches(r, rr)
            }),
        decreases e,
    {
        match e {
            Expr::Literal(l) => {
                match l {
                    crate::token::Literal::Number(n) => Ok(Object::Number(*n)),
                    crate::token::Literal::Str(s) => Ok(Object::Str(s.clone())),
                    crate::token::Literal::Bool(b) => Ok(Object::Boolean(*b)),
                    crate::token::Literal::Nil => Ok(Object::Null),
                }
            },
            Expr::Grouping(g) => self.evaluate(&g.expression),
            Expr::Unary(u) => {
                match self.evaluate(&u.right) {
                    Ok(v) => unary_apply(u.op.kind, u.op.line, v),
                    Err(e1) => Err(e1),
                }
            },
            Expr::Binary(b) => {
                match self.evaluate(&b.left) {
                    Ok(a) => {
                        match self.evaluate(&b.right) {
                            Ok(c) => binary_apply(b.op.kind, b.op.line, a, c),
                            Err(e2) => Err(e2),
                        }
                    },
                    Err(e1) => Err(e1),
                }
            },
            Expr::Logical(l) => {
                match self.evaluate(&l.left) {
                    Ok(v) => {
                        if l.condition.kind == crate::token::TokenType::Or {
                            if v.is_truthy() {
                                Ok(v)
                            } else {
                                self.evaluate(&l.right)
                            }
                        } else if l.condition.kind == crate::token::TokenType::And {
                            if !v.is_truthy() {
                                Ok(v)
                            } else {
                                self.evaluate(&l.right)
                            }
                        } else {
                            Err(RuntimeError { line: l.condition.line, kind: ErrorKind::TypeMismatch })
                        }
                    },
                    Err(e1) => Err(e1),
                }
            },
            Expr::Variable(v) => self.environment.get(&v.name),
            Expr::Assign(a) => {
                match self.evaluate(&a.value) {
                    Ok(v) => {
                        match self.environment.assign(&a.name, v.clone()) {
                            Ok(_) => Ok(v),
                            Err(e1) => Err(e1),
                        }
                    },
                    Err(e1) => Err(e1),
                }
            },
        }
    }

    /// Executes one statement under a step budget: the state afterwards and
    /// the outcome are exactly those of the semantics.
    pub fn execute(&mut self, s: &Stmt, fuel: u64) -> (r: Result<(), Halt>)
        requires
            old(self).wf(),
        ensures
            final(self).wf(),
            ({
                let (st1, h) = step_stmt(old(self).state(), *s, fuel as nat);
                final(self).state() == st1 && outcome_of(r) == h
            }),
        decreases fuel, 0int,
    {
        if fuel == 0 {
            return Err(Halt::OutOfSteps);
        }
        match s {
            Stmt::Expression(es) => {
                match self.evaluate(&es.expression) {
                    Ok(_) => Ok(()),
                    Err(e) => Err(Halt::Fault(e)),
                }
            },
            Stmt::Print(p) => {
                match self.evaluate(&p.expression) {
                    Ok(v) => {
                        let text = self.stringify(&v);
                        let ghost before = self.output.deep_view();
                        self.output.push(text);
                        proof {
                            assert(self.output.deep_view() =~= before.push(text@));
                        }
                        Ok(())
                    },
                    Err(e) => Err(Halt::Fault(e)),
                }
            },
            Stmt::Variable(d) => {
                match self.evaluate(&d.initializer) {
                    Ok(v) => {
                        self.environment.define(d.name.lexeme.clone(), v);
                        Ok(())
                    },
                    Err(e) => Err(Halt::Fault(e)),
                }
            },
            Stmt::Block(b) => {
                self.environment.push_frame();
                let r = self.execute_block(&b.statements, fuel - 1);
                proof {
                    lemma_step_block_env_len(
                        State {
                            env: old(self).state().env.push(Map::empty()),
                            out: old(self).state().out,
                        },
                        b.statements@,
                        0,
                        (fuel - 1) as nat,
                    );
                }
                self.environment.pop_frame();
                r
            },
            Stmt::If(i) => {
                match self.evaluate(&i.condition) {
                    Ok(v) => {
                        if v.is_truthy() {
                            self.execute(&i.then_branch, fuel - 1)
                        } else {
                            match &i.else_branch {
                                Some(els) => self.execute(els, fuel - 1),
                                None => Ok(()),
                            }
                        }
                    },
                    Err(e) => Err(Halt::Fault(e)),
                }
            },
            Stmt::While(w) => {
                let mut g: u64 = fuel;
                loop
                    invariant
                        self.wf(),
                        g <= fuel,
                        step_stmt(old(self).state(), *s, fuel as nat) == step_stmt(
                            self.state(),
                            *s,
                            g as nat,
                        ),
                        *s == Stmt::While(*w),
                    decreases g,
                {
                    if g == 0 {
                        return Err(Halt::OutOfSteps);
                    }
                    match self.evaluate(&w.condition) {
                        Ok(v) => {
                            if !v.is_truthy() {
                                return Ok(());
                            }
                            match self.execute(&w.body, g - 1) {
                                Ok(_) => {
                                    g = g - 1;
                                },
                                Err(h) => {
                                    return Err(h);
                                },
                            }
                        },
                        Err(e) => {
                            return Err(Halt::Fault(e));
                        },
                    }
                }
            },
        }
    }

    /// Executes the statements of a sequence in order, stopping at the
    /// first that does not complete.
    pub fn execute_block(&mut self, ss: &Vec<Stmt>, fuel: u64) -> (r: Result<(), Halt>)
        requires
            old(self).wf(),
        ensures
            final(self).wf(),
            ({
                let (st1, h) = step_block(old(self).state(), ss@, 0, fuel as nat);
                final(self).state() == st1 && outcome_of(r) == h
            }),
        decreases fuel, 1int,
    {
        let mut i: usize = 0;
        while i < ss.len()
            invariant
                self.wf(),
                i <= ss@.len(),
                step_block(old(self).state(), ss@, 0, fuel as nat) == step_block(
                    self.state(),
                    ss@,
                    i as int,
                    fuel as nat,
                ),
            decreases ss@.len() - i,
        {
            match self.execute(&ss[i], fuel) {
                Ok(_) => {
                    i = i + 1;
                },
                Err(h) => {
                    return Err(h);
                },
            }
        }
        Ok(())
    }

    /// Runs a statement sequence against the evaluator's state: executes to
    /// completion, to the first runtime error (remaining statements at
    /// every nesting level are skipped), or to an exhausted step budget.
    pub fn interpret(&mut self, stmts: &Vec<Stmt>, fuel: u64) -> (r: Result<(), Halt>)
        requires
            old(self).wf(),
        ensures
            final(self).wf(),
            ({
                let (st1, h) = step_block(old(self).state(), stmts@, 0, fuel as nat);
                final(self).state() == st1 && outcome_of(r) == h
            }),
    {
        self.execute_block(stmts, fuel)
    }
}

/// Applies a unary operator to an evaluated operand, following
/// `unary_value`.
pub fn unary_apply(op: crate::token::TokenType, line: usize, v: Object) -> (r: Result<
    Object,
    RuntimeError,
>)
    ensures
        res_matches(r, unary_value(op, line, v@)),
{
    match op {
        crate::token::TokenType::Minus => match v {
            Object::Number(n) => Ok(Object::Number((0i64).wrapping_sub(n))),
            _ => Err(RuntimeError { line, kind: ErrorKind::TypeMismatch }),
        },
        crate::token::TokenType::Bang => Ok(Object::Boolean(!v.is_truthy())),
        _ => Err(RuntimeError { line, kind: ErrorKind::TypeMismatch }),
    }
}

/// Applies a binary operator to two evaluated operands, following
/// `binary_value`.
pub fn binary_apply(op: crate::token::TokenType, line: usize, a: Object, b: Object) -> (r: Result<
    Object,
    RuntimeError,
>)
    ensures
        res_matches(r, binary_value(op, line, a@, b@)),
{
    match op {
        crate::token::TokenType::Minus => match (a, b) {
            (Object::Number(x), Object::Number(y)) => Ok(Object::Number(x.wrapping_sub(y))),
            _ => Err(RuntimeError { line, kind: ErrorKind::TypeMismatch }),
        },
        crate::token::TokenType::Plus => match (a, b) {
            (Object::Number(x), Object::Number(y)) => Ok(Object::Number(x.wrapping_add(y))),
            (Object::Str(x), Object::Str(y)) => Ok(Object::Str(x.concat(y.as_str()))),
            _ => Err(RuntimeError { line, kind: ErrorKind::TypeMismatch }),
        },
        crate::token::TokenType::Star => match (a, b) {
            (Object::Number(x), Object::Number(y)) => Ok(Object::Number(x.wrapping_mul(y))),
            _ => Err(RuntimeError { line, kind: ErrorKind::TypeMismatch }),
        },
        crate::token::TokenType::Slash => match (a, b) {
            (Object::Number(x), Object::Number(y)) => {
                if y == 0 {
                    Err(RuntimeError { line, kind: ErrorKind::DivisionByZero })
                } else {
                    match x.checked_div(y) {
                        Some(q) => Ok(Object::Number(q)),
                        None => Ok(Object::Number(i64::MIN)),
                    }
                }
            },
            _ => Err(RuntimeError { line, kind: ErrorKind::TypeMismatch }),
        },
        crate::token::TokenType::Greater => match (a, b) {
            (Object::Number(x), Object::Number(y)) => Ok(Object::Boolean(x > y)),
            _ => Err(RuntimeError { line, kind: ErrorKind::TypeMismatch }),
        },
        crate::token::TokenType::GreaterEqual => match (a, b) {
            (Object::Number(x), Object::Number(y)) => Ok(Object::Boolean(x >= y)),
            _ => Err(RuntimeError { line, kind: ErrorKind::TypeMismatch }),
        },
        crate::token::TokenType::Less => match (a, b) {
            (Object::Number(x), Object::Number(y)) => Ok(Object::Boolean(x < y)),
            _ => Err(RuntimeError { line, kind: ErrorKind::TypeMismatch }),
        },
        crate::token::TokenType::LessEqual => match (a, b) {
            (Object::Number(x), Object::Number(y)) => Ok(Object::Boolean(x <= y)),
            _ => Err(RuntimeError { line, kind: ErrorKind::TypeMismatch }),
        },
        crate::token::TokenType::EqualEqual => Ok(Object::Boolean(a.is_equal(&b))),
        crate::token::TokenType::BangEqual => Ok(Object::Boolean(!a.is_equal(&b))),
        _ => Err(RuntimeError { line, kind: ErrorKind::TypeMismatch }),
    }
}

} // verus!
