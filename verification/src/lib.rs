//! A tree-walking interpreter front-end for a small dynamically-typed
//! scripting language: a recursive-descent parser with operator-precedence
//! climbing and syntax-error recovery, and a tree-walking evaluator with
//! lexical scoping via chained environment frames.
//!
//! Expression and statement evaluation are specified by a mathematical
//! big-step semantics (see `semantics`); the executable evaluator is proved
//! to follow it exactly.

pub mod ast_printer;
pub mod environment;
pub mod expr;
pub mod interpreter;
pub mod object;
pub mod parser;
pub mod scanner;
pub mod semantics;
pub mod stmt;
pub mod text;
pub mod token;

use crate::text::{chars_to_string, dec_digits, push_str_chars, push_usize_text};
use vstd::prelude::*;

verus! {

/// The rendering of a diagnostic report: `line <n> Error <hint>: <message>`.
pub open spec fn report_text(line: usize, location: Seq<char>, message: Seq<char>) -> Seq<char> {
    "line "@ + dec_digits(line as nat) + " Error "@ + location + ": "@ + message
}

/// Renders a diagnostic report for a line, a location hint, and a message.
pub fn report(line: usize, location: &str, message: &str) -> (s: String)
    ensures
        s@ == report_text(line, location@, message@),
{
    let mut out: Vec<char> = Vec::new();
    push_str_chars(&mut out, "line ");
    push_usize_text(&mut out, line);
    push_str_chars(&mut out, " Error ");
    push_str_chars(&mut out, location);
    push_str_chars(&mut out, ": ");
    push_str_chars(&mut out, message);
    proof {
        assert(out@ =~= report_text(line, location@, message@));
    }
    chars_to_string(&out)
}

/// Renders a diagnostic report with no location hint.
pub fn lox_error(line: usize, message: &str) -> (s: String)
    ensures
        s@ == report_text(line, ""@, message@),
{
    report(line, "", message)
}

} // verus!
