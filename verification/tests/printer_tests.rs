use rlox::ast_printer::AstPrinter;
use rlox::expr::Expr;
use rlox::interpreter::Interpreter;
use rlox::parser::Parser;
use rlox::scanner::Scanner;

fn parse_expression(source: &str) -> Expr {
    let mut scanner = Scanner::new(source);
    let tokens = scanner.scan_tokens();
    assert!(scanner.diagnostics.is_empty(), "unexpected scan diagnostics");
    let mut parser = Parser::new(tokens);
    let expr = parser.expression().ok().expect("expression should parse");
    assert!(parser.diagnostics.is_empty(), "unexpected parse diagnostics");
    expr
}

fn eval_to_text(expr: &Expr) -> String {
    let mut interp = Interpreter::new();
    // Predeclare the names the round-trip expressions may mention.
    run_decl(&mut interp, "var a = 10; var b = 0;");
    let value = interp.evaluate(expr).ok().expect("evaluation should succeed");
    interp.stringify(&value)
}

fn run_decl(interp: &mut Interpreter, source: &str) {
    let mut scanner = Scanner::new(source);
    let tokens = scanner.scan_tokens();
    let mut parser = Parser::new(tokens);
    let stmts = parser.parse();
    assert!(parser.diagnostics.is_empty());
    assert!(interp.interpret(&stmts, 1_000_000).is_ok());
}

/// Re-parsing the printed rendering of an expression yields a tree with
/// the same evaluation result, even when the text is not identical.
fn assert_round_trip(source: &str) {
    let first = parse_expression(source);
    let mut printer = AstPrinter;
    let printed = printer.print(&first);
    let second = parse_expression(printed.as_str());
    assert_eq!(
        eval_to_text(&first),
        eval_to_text(&second),
        "round trip changed the value of {source} (printed as {printed})"
    );
}

#[test]
fn round_trip_arithmetic() {
    assert_round_trip("1 + 2 * 3");
    assert_round_trip("10 - 2 - 3");
    assert_round_trip("(1 + 2) * 3");
    assert_round_trip("7 / 2");
}

#[test]
fn round_trip_unary_and_grouping() {
    assert_round_trip("-(3 - 4)");
    assert_round_trip("--5");
    assert_round_trip("!(1 > 2)");
    assert_round_trip("!!true");
}

#[test]
fn round_trip_literals() {
    assert_round_trip("nil");
    assert_round_trip("true");
    assert_round_trip("false");
    assert_round_trip("42");
    assert_round_trip("\"some text\"");
}

#[test]
fn round_trip_comparisons_and_logic() {
    assert_round_trip("1 < 2 == true");
    assert_round_trip("1 >= 2 or 3 <= 4");
    assert_round_trip("true and 1 != 2");
}

#[test]
fn round_trip_variables_and_assignment() {
    assert_round_trip("a + 1");
    assert_round_trip("b = a * 2");
    assert_round_trip("a = b = 5");
}

#[test]
fn round_trip_string_concatenation() {
    assert_round_trip("\"foo\" + \"bar\"");
}

#[test]
fn printed_form_is_fully_parenthesized() {
    let expr = parse_expression("1 + 2 * 3");
    let mut printer = AstPrinter;
    assert_eq!(printer.print(&expr), "(1 + (2 * 3))");
}

#[test]
fn printed_unary_reads_back() {
    let expr = parse_expression("-123 * (45 + 1)");
    let mut printer = AstPrinter;
    assert_eq!(printer.print(&expr), "(-123 * ((45 + 1)))");
}
