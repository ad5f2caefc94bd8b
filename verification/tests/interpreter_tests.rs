use rlox::interpreter::{ErrorKind, Halt, Interpreter};
use rlox::parser::Parser;
use rlox::scanner::Scanner;

const FUEL: u64 = 1_000_000;

/// Scans, parses and runs a source text; fails the test on any syntax
/// diagnostic. Returns the printed lines and the run's result.
fn run_source(source: &str) -> (Vec<String>, Result<(), Halt>) {
    let mut scanner = Scanner::new(source);
    let tokens = scanner.scan_tokens();
    assert!(scanner.diagnostics.is_empty(), "unexpected scan diagnostics");
    let mut parser = Parser::new(tokens);
    let stmts = parser.parse();
    assert!(parser.diagnostics.is_empty(), "unexpected parse diagnostics");
    let mut interp = Interpreter::new();
    let result = interp.interpret(&stmts, FUEL);
    (interp.output, result)
}

fn expect_output(source: &str, expected: &[&str]) {
    let (output, result) = run_source(source);
    assert!(result.is_ok(), "run failed");
    let got: Vec<&str> = output.iter().map(|s| s.as_str()).collect();
    assert_eq!(got, expected);
}

#[test]
fn precedence_multiplication_binds_tighter() {
    expect_output("print 1 + 2 * 3;", &["7"]);
}

#[test]
fn precedence_with_grouping() {
    expect_output("print (1 + 2) * 3;", &["9"]);
}

#[test]
fn subtraction_is_left_associative() {
    expect_output("print 10 - 2 - 3;", &["5"]);
}

#[test]
fn assignment_is_right_associative() {
    expect_output("var a = 0; var b = 0; a = b = 1; print a; print b;", &["1", "1"]);
}

#[test]
fn assignment_yields_the_assigned_value() {
    expect_output("var x = 0; print x = 3;", &["3"]);
}

#[test]
fn and_short_circuit_skips_side_effect() {
    expect_output("var x = 0; false and (x = 1); print x;", &["0"]);
}

#[test]
fn or_short_circuit_skips_side_effect() {
    expect_output("var x = 0; true or (x = 1); print x;", &["0"]);
}

#[test]
fn and_yields_right_when_left_truthy() {
    expect_output("print 1 and 2;", &["2"]);
}

#[test]
fn or_yields_left_when_truthy() {
    expect_output("print 1 or 2;", &["1"]);
}

#[test]
fn block_declaration_does_not_leak() {
    expect_output("var a = 1;\n{ var a = 2; }\nprint a;", &["1"]);
}

#[test]
fn block_sees_enclosing_scope() {
    expect_output("var a = 1; { print a; a = 2; } print a;", &["1", "2"]);
}

#[test]
fn undefined_variable_fails_with_its_line() {
    let (output, result) = run_source("var a = 1;\nprint b;");
    assert!(output.is_empty());
    match result {
        Err(Halt::Fault(e)) => {
            assert_eq!(e.line, 2);
            match e.kind {
                ErrorKind::UndefinedVariable(name) => assert_eq!(name, "b"),
                _ => panic!("expected an undefined-variable error"),
            }
        }
        _ => panic!("expected a runtime fault"),
    }
}

#[test]
fn assignment_to_undeclared_name_fails() {
    let (_, result) = run_source("x = 1;");
    match result {
        Err(Halt::Fault(e)) => match e.kind {
            ErrorKind::UndefinedVariable(name) => assert_eq!(name, "x"),
            _ => panic!("expected an undefined-variable error"),
        },
        _ => panic!("expected a runtime fault"),
    }
}

#[test]
fn division_by_zero_is_an_error() {
    let (output, result) = run_source("print 1 / 0;");
    assert!(output.is_empty());
    match result {
        Err(Halt::Fault(e)) => {
            assert_eq!(e.line, 1);
            assert!(matches!(e.kind, ErrorKind::DivisionByZero));
            assert_eq!(e.render(), "[line 1] Division by zero.");
        }
        _ => panic!("expected a runtime fault"),
    }
}

#[test]
fn division_truncates_toward_zero() {
    expect_output("print 7 / 2; print -7 / 2;", &["3", "-3"]);
}

#[test]
fn for_loop_matches_hand_written_while() {
    let (for_out, r1) = run_source("for (var i = 0; i < 3; i = i + 1) print i;");
    let (while_out, r2) =
        run_source("{ var i = 0; while (i < 3) { print i; i = i + 1; } }");
    assert!(r1.is_ok() && r2.is_ok());
    assert_eq!(for_out, vec!["0", "1", "2"]);
    assert_eq!(for_out, while_out);
}

#[test]
fn for_loop_without_initializer_or_increment() {
    expect_output("var i = 0; for (; i < 2;) { print i; i = i + 1; }", &["0", "1"]);
}

#[test]
fn while_loop_runs_to_falsy_condition() {
    expect_output("var n = 3; while (n > 0) { print n; n = n - 1; }", &["3", "2", "1"]);
}

#[test]
fn if_else_dispatches_on_truthiness() {
    expect_output("if (1 > 2) print 1; else print 2;", &["2"]);
    expect_output("if (2 > 1) print 1; else print 2;", &["1"]);
}

#[test]
fn zero_and_empty_text_are_truthy() {
    expect_output("if (0) print 1; else print 2;", &["1"]);
    expect_output("if (\"\") print 1; else print 2;", &["1"]);
}

#[test]
fn nil_and_false_are_falsy() {
    expect_output("if (nil) print 1; else print 2;", &["2"]);
    expect_output("if (false) print 1; else print 2;", &["2"]);
}

#[test]
fn string_concatenation() {
    expect_output("print \"foo\" + \"bar\";", &["foobar"]);
}

#[test]
fn adding_number_and_text_is_a_type_mismatch() {
    let (_, result) = run_source("print 1 + \"a\";");
    match result {
        Err(Halt::Fault(e)) => assert!(matches!(e.kind, ErrorKind::TypeMismatch)),
        _ => panic!("expected a runtime fault"),
    }
}

#[test]
fn negating_text_is_a_type_mismatch() {
    let (_, result) = run_source("print -\"a\";");
    match result {
        Err(Halt::Fault(e)) => assert!(matches!(e.kind, ErrorKind::TypeMismatch)),
        _ => panic!("expected a runtime fault"),
    }
}

#[test]
fn comparing_text_with_less_than_is_a_type_mismatch() {
    let (_, result) = run_source("print \"a\" < \"b\";");
    match result {
        Err(Halt::Fault(e)) => assert!(matches!(e.kind, ErrorKind::TypeMismatch)),
        _ => panic!("expected a runtime fault"),
    }
}

#[test]
fn equality_is_structural_and_total() {
    expect_output("print 1 == 1; print 1 == 2; print 1 == \"1\";", &["true", "false", "false"]);
    expect_output("print nil == nil; print nil == false;", &["true", "false"]);
    expect_output("print \"a\" == \"a\"; print \"a\" != \"b\";", &["true", "true"]);
}

#[test]
fn bang_negates_truthiness() {
    expect_output("print !nil; print !0; print !false; print !\"\";", &["true", "false", "true", "false"]);
}

#[test]
fn declaration_without_initializer_is_nil() {
    expect_output("var a; print a;", &["nil"]);
}

#[test]
fn print_renders_each_kind() {
    expect_output(
        "print nil; print true; print false; print 42; print -7; print \"hi\";",
        &["nil", "true", "false", "42", "-7", "hi"],
    );
}

#[test]
fn first_runtime_error_stops_the_run() {
    let (output, result) = run_source("print 1; print x; print 2;");
    assert_eq!(output, vec!["1"]);
    assert!(matches!(result, Err(Halt::Fault(_))));
}

#[test]
fn error_inside_nested_block_skips_all_remaining_statements() {
    let (output, result) = run_source("{ { print 1; x = 1; } print 2; } print 3;");
    assert_eq!(output, vec!["1"]);
    assert!(matches!(result, Err(Halt::Fault(_))));
}

#[test]
fn infinite_loop_exhausts_the_step_budget() {
    let mut scanner = Scanner::new("while (true) {}");
    let tokens = scanner.scan_tokens();
    let mut parser = Parser::new(tokens);
    let stmts = parser.parse();
    assert!(parser.diagnostics.is_empty());
    let mut interp = Interpreter::new();
    let result = interp.interpret(&stmts, 1000);
    assert!(matches!(result, Err(Halt::OutOfSteps)));
}

#[test]
fn redefinition_in_same_frame_overwrites() {
    expect_output("var a = 1; var a = 2; print a;", &["2"]);
}

#[test]
fn wrapping_addition_at_the_numeric_limit() {
    expect_output(
        "print 9223372036854775807 + 1;",
        &["-9223372036854775808"],
    );
}

#[test]
fn negating_the_smallest_number_wraps() {
    expect_output(
        "print -(0 - 9223372036854775807 - 1);",
        &["-9223372036854775808"],
    );
}

#[test]
fn dividing_the_smallest_number_by_minus_one_wraps() {
    expect_output(
        "print (0 - 9223372036854775807 - 1) / (0 - 1);",
        &["-9223372036854775808"],
    );
}

#[test]
fn chained_comparisons_parse_left_associative() {
    // (1 < 2) yields true; true > 0 is a type mismatch, so this fails at
    // runtime rather than parsing as 1 < (2 > 0).
    let (_, result) = run_source("print 1 < 2 > 0;");
    match result {
        Err(Halt::Fault(e)) => assert!(matches!(e.kind, ErrorKind::TypeMismatch)),
        _ => panic!("expected a runtime fault"),
    }
}
