use rlox::expr::Expr;
use rlox::parser::Parser;
use rlox::scanner::Scanner;
use rlox::stmt::Stmt;
use rlox::token::TokenType;

fn parse_source(source: &str) -> Parser {
    let mut scanner = Scanner::new(source);
    let tokens = scanner.scan_tokens();
    assert!(scanner.diagnostics.is_empty(), "unexpected scan diagnostics");
    let mut parser = Parser::new(tokens);
    let _ = parser.parse();
    parser
}

fn parse_statements(source: &str) -> Vec<Stmt> {
    let mut scanner = Scanner::new(source);
    let tokens = scanner.scan_tokens();
    assert!(scanner.diagnostics.is_empty(), "unexpected scan diagnostics");
    let mut parser = Parser::new(tokens);
    let stmts = parser.parse();
    assert!(parser.diagnostics.is_empty(), "unexpected parse diagnostics");
    stmts
}

#[test]
fn two_independent_errors_are_both_reported() {
    let parser = parse_source("var = 1;\nprint ;");
    assert!(parser.diagnostics.len() >= 2, "expected both diagnostics in one pass");
    let lines: Vec<usize> = parser.diagnostics.iter().map(|d| d.line).collect();
    assert!(lines.contains(&1));
    assert!(lines.contains(&2));
}

#[test]
fn error_recovery_still_parses_later_statements() {
    let mut scanner = Scanner::new("var = 1;\nvar b = 2;");
    let tokens = scanner.scan_tokens();
    let mut parser = Parser::new(tokens);
    let stmts = parser.parse();
    assert_eq!(parser.diagnostics.len(), 1);
    assert_eq!(stmts.len(), 1);
    assert!(matches!(stmts[0], Stmt::Variable(_)));
}

#[test]
fn invalid_assignment_target_is_reported() {
    let parser = parse_source("1 + 2 = 3;");
    assert!(!parser.diagnostics.is_empty());
    let found = parser
        .diagnostics
        .iter()
        .any(|d| d.message == "Invalid assignment target");
    assert!(found);
}

#[test]
fn missing_left_operand_recovers_within_the_expression() {
    // A leading binary operator is reported, but the right operand still
    // parses, so the rest of the file produces no cascade of errors.
    let parser = parse_source("+ 1 - 2;\nprint 3;");
    assert_eq!(parser.diagnostics.len(), 1);
    assert_eq!(parser.diagnostics[0].message, "Missing left-hand operand");
}

#[test]
fn for_desugars_to_block_with_while() {
    let stmts = parse_statements("for (var i = 0; i < 3; i = i + 1) print i;");
    assert_eq!(stmts.len(), 1);
    match &stmts[0] {
        Stmt::Block(outer) => {
            assert_eq!(outer.statements.len(), 2);
            assert!(matches!(outer.statements[0], Stmt::Variable(_)));
            match &outer.statements[1] {
                Stmt::While(w) => match w.body.as_ref() {
                    Stmt::Block(inner) => {
                        assert_eq!(inner.statements.len(), 2);
                        assert!(matches!(inner.statements[0], Stmt::Print(_)));
                        assert!(matches!(inner.statements[1], Stmt::Expression(_)));
                    }
                    _ => panic!("expected the body wrapped in a block"),
                },
                _ => panic!("expected a while inside the outer block"),
            }
        }
        _ => panic!("expected an outer block"),
    }
}

#[test]
fn for_without_condition_defaults_to_true() {
    let stmts = parse_statements("for (;;) print 1;");
    assert_eq!(stmts.len(), 1);
    match &stmts[0] {
        Stmt::While(w) => match &w.condition {
            Expr::Literal(rlox::token::Literal::Bool(b)) => assert!(*b),
            _ => panic!("expected the literal true as condition"),
        },
        _ => panic!("expected a bare while"),
    }
}

#[test]
fn else_binds_to_nearest_if() {
    let stmts = parse_statements("if (true) if (false) print 1; else print 2;");
    assert_eq!(stmts.len(), 1);
    match &stmts[0] {
        Stmt::If(outer) => {
            assert!(outer.else_branch.is_none());
            match outer.then_branch.as_ref() {
                Stmt::If(inner) => assert!(inner.else_branch.is_some()),
                _ => panic!("expected a nested if"),
            }
        }
        _ => panic!("expected an if statement"),
    }
}

#[test]
fn precedence_shapes_the_tree() {
    let stmts = parse_statements("1 + 2 * 3;");
    match &stmts[0] {
        Stmt::Expression(es) => match &es.expression {
            Expr::Binary(b) => {
                assert_eq!(b.op.kind, TokenType::Plus);
                assert!(matches!(*b.left, Expr::Literal(_)));
                match b.right.as_ref() {
                    Expr::Binary(inner) => assert_eq!(inner.op.kind, TokenType::Star),
                    _ => panic!("expected the product on the right"),
                }
            }
            _ => panic!("expected a binary expression"),
        },
        _ => panic!("expected an expression statement"),
    }
}

#[test]
fn assignment_parses_right_associative() {
    let stmts = parse_statements("a = b = 1;");
    match &stmts[0] {
        Stmt::Expression(es) => match &es.expression {
            Expr::Assign(a) => {
                assert_eq!(a.name.lexeme, "a");
                assert!(matches!(*a.value, Expr::Assign(_)));
            }
            _ => panic!("expected an assignment"),
        },
        _ => panic!("expected an expression statement"),
    }
}

#[test]
fn unterminated_group_is_reported() {
    let parser = parse_source("(1 + 2;");
    assert!(!parser.diagnostics.is_empty());
}

#[test]
fn keywords_dispatch_statements() {
    let stmts = parse_statements("print 1; { print 2; } while (false) print 3; if (true) print 4;");
    assert_eq!(stmts.len(), 4);
    assert!(matches!(stmts[0], Stmt::Print(_)));
    assert!(matches!(stmts[1], Stmt::Block(_)));
    assert!(matches!(stmts[2], Stmt::While(_)));
    assert!(matches!(stmts[3], Stmt::If(_)));
}
