use rlox::scanner::Scanner;
use rlox::token::{Literal, Token, TokenType};

fn scan(source: &str) -> Vec<Token> {
    let mut scanner = Scanner::new(source);
    let tokens = scanner.scan_tokens();
    assert!(scanner.diagnostics.is_empty(), "unexpected scan diagnostics");
    tokens
}

fn kinds(tokens: &[Token]) -> Vec<TokenType> {
    tokens.iter().map(|t| t.kind).collect()
}

#[test]
fn single_character_tokens() {
    let t = scan("(){},.-+;*/");
    assert_eq!(
        kinds(&t),
        vec![
            TokenType::LeftParen,
            TokenType::RightParen,
            TokenType::LeftBrace,
            TokenType::RightBrace,
            TokenType::Comma,
            TokenType::Dot,
            TokenType::Minus,
            TokenType::Plus,
            TokenType::Semicolon,
            TokenType::Star,
            TokenType::Slash,
            TokenType::Eof,
        ]
    );
}

#[test]
fn one_and_two_character_operators() {
    let t = scan("! != = == < <= > >=");
    assert_eq!(
        kinds(&t),
        vec![
            TokenType::Bang,
            TokenType::BangEqual,
            TokenType::Equal,
            TokenType::EqualEqual,
            TokenType::Less,
            TokenType::LessEqual,
            TokenType::Greater,
            TokenType::GreaterEqual,
            TokenType::Eof,
        ]
    );
}

#[test]
fn stream_always_ends_with_one_eof() {
    let t = scan("");
    assert_eq!(t.len(), 1);
    assert_eq!(t[0].kind, TokenType::Eof);
    let t = scan("1 + 2");
    assert_eq!(t.last().unwrap().kind, TokenType::Eof);
    assert!(t[..t.len() - 1].iter().all(|tok| tok.kind != TokenType::Eof));
}

#[test]
fn keywords_and_identifiers() {
    let t = scan("and var whale while_ while");
    assert_eq!(
        kinds(&t),
        vec![
            TokenType::And,
            TokenType::Var,
            TokenType::Identifier,
            TokenType::Identifier,
            TokenType::While,
            TokenType::Eof,
        ]
    );
    assert_eq!(t[2].lexeme, "whale");
}

#[test]
fn number_literal_carries_its_value() {
    let t = scan("123");
    assert_eq!(t[0].kind, TokenType::Number);
    assert!(matches!(t[0].literal, Literal::Number(123)));
    assert_eq!(t[0].lexeme, "123");
}

#[test]
fn dot_after_digits_is_its_own_token() {
    let t = scan("1.5");
    assert_eq!(
        kinds(&t),
        vec![TokenType::Number, TokenType::Dot, TokenType::Number, TokenType::Eof]
    );
}

#[test]
fn string_literal_drops_the_quotes() {
    let t = scan("\"hi there\"");
    assert_eq!(t[0].kind, TokenType::Str);
    match &t[0].literal {
        Literal::Str(s) => assert_eq!(s, "hi there"),
        _ => panic!("expected a text literal"),
    }
    assert_eq!(t[0].lexeme, "\"hi there\"");
}

#[test]
fn tokens_carry_their_line() {
    let t = scan("1\n2\n\n3");
    assert_eq!(t[0].line, 1);
    assert_eq!(t[1].line, 2);
    assert_eq!(t[2].line, 4);
}

#[test]
fn comments_and_whitespace_are_skipped() {
    let t = scan("1 // a comment\n+ /* block\ncomment */ 2");
    assert_eq!(
        kinds(&t),
        vec![TokenType::Number, TokenType::Plus, TokenType::Number, TokenType::Eof]
    );
}

#[test]
fn unexpected_character_is_a_diagnostic() {
    let mut scanner = Scanner::new("1 # 2");
    let tokens = scanner.scan_tokens();
    assert_eq!(scanner.diagnostics.len(), 1);
    assert_eq!(scanner.diagnostics[0].message, "Unexpected character.");
    // Scanning continues past the bad character.
    assert_eq!(
        kinds(&tokens),
        vec![TokenType::Number, TokenType::Number, TokenType::Eof]
    );
}

#[test]
fn unterminated_string_is_a_diagnostic() {
    let mut scanner = Scanner::new("\"never closed");
    let tokens = scanner.scan_tokens();
    assert_eq!(scanner.diagnostics.len(), 1);
    assert_eq!(scanner.diagnostics[0].message, "Unterminated string.");
    assert_eq!(kinds(&tokens), vec![TokenType::Eof]);
}

#[test]
fn oversized_number_is_a_diagnostic() {
    let mut scanner = Scanner::new("99999999999999999999");
    let tokens = scanner.scan_tokens();
    assert_eq!(scanner.diagnostics.len(), 1);
    assert_eq!(scanner.diagnostics[0].message, "Number literal too large.");
    assert_eq!(tokens[0].kind, TokenType::Number);
}

#[test]
fn largest_number_fits() {
    let t = scan("9223372036854775807");
    assert!(matches!(t[0].literal, Literal::Number(9223372036854775807)));
}
