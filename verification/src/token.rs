//! Lexical units: token kinds, literal payloads, and tokens with their
//! source line, as handed from the scanner to the parser.

use vstd::prelude::*;

verus! {

/// The kind of a lexical token.
#[derive(Clone, Copy, PartialEq, Eq, Structural, Debug)]
pub enum TokenType {
    // Single-character tokens.
    LeftParen,
    RightParen,
    LeftBrace,
    RightBrace,
    Comma,
    Dot,
    Minus,
    Plus,
    Semicolon,
    Slash,
    Star,
    // One- or two-character tokens.
    Bang,
    BangEqual,
    Equal,
    EqualEqual,
    Greater,
    GreaterEqual,
    Less,
    LessEqual,
    // Literals.
    Identifier,
    Str,
    Number,
    // Keywords.
    And,
    Class,
    Else,
    False,
    Fun,
    For,
    If,
    Nil,
    Or,
    Print,
    Return,
    Super,
    This,
    True,
    Var,
    While,
    Eof,
}

/// A literal payload carried by a token (and reused as the literal form in
/// the syntax tree). Numbers are signed 64-bit integers.
pub enum Literal {
    Number(i64),
    Str(String),
    Bool(bool),
    Nil,
}

impl Clone for Literal {
    fn clone(&self) -> (r: Self)
        ensures
            r == *self,
    {
        match self {
            Literal::Number(n) => Literal::Number(*n),
            Literal::Str(s) => Literal::Str(s.clone()),
            Literal::Bool(b) => Literal::Bool(*b),
            Literal::Nil => Literal::Nil,
        }
    }
}

/// A token: its kind, the source text it was scanned from, an optional
/// literal payload, and the source line it starts on.
pub struct Token {
    pub kind: TokenType,
    pub lexeme: String,
    pub literal: Literal,
    pub line: usize,
}

impl Clone for Token {
    fn clone(&self) -> (r: Self)
        ensures
            r == *self,
    {
        Token {
            kind: self.kind,
            lexeme: self.lexeme.clone(),
            literal: self.literal.clone(),
            line: self.line,
        }
    }
}

impl Token {
    pub fn new(kind: TokenType, lexeme: &str, literal: Literal, line: usize) -> (t: Token)
        ensures
            t.kind == kind,
            t.lexeme@ == lexeme@,
            t.literal == literal,
            t.line == line,
    {
        Token { kind, lexeme: lexeme.to_owned(), literal, line }
    }
}

impl TokenType {
    /// Classifies a scanned word: a reserved keyword maps to its own kind,
    /// every other word is an identifier.
    pub open spec fn spec_keyword_kind(word: Seq<char>) -> TokenType {
        if word == "and"@ {
            TokenType::And
        } else if word == "class"@ {
            TokenType::Class
        } else if word == "else"@ {
            TokenType::Else
        } else if word == "false"@ {
            TokenType::False
        } else if word == "for"@ {
            TokenType::For
        } else if word == "fun"@ {
            TokenType::Fun
        } else if word == "if"@ {
            TokenType::If
        } else if word == "nil"@ {
            TokenType::Nil
        } else if word == "or"@ {
            TokenType::Or
        } else if word == "print"@ {
            TokenType::Print
        } else if word == "return"@ {
            TokenType::Return
        } else if word == "super"@ {
            TokenType::Super
        } else if word == "this"@ {
            TokenType::This
        } else if word == "true"@ {
            TokenType::True
        } else if word == "var"@ {
            TokenType::Var
        } else if word == "while"@ {
            TokenType::While
        } else {
            TokenType::Identifier
        }
    }

    /// Executable form of `spec_keyword_kind`.
    pub fn keyword_kind(word: &str) -> (kind: TokenType)
        ensures
            kind == TokenType::spec_keyword_kind(word@),
    {
        let w: String = word.to_owned();
        if w == "and".to_owned() {
            TokenType::And
        } else if w == "class".to_owned() {
            TokenType::Class
        } else if w == "else".to_owned() {
            TokenType::Else
        } else if w == "false".to_owned() {
            TokenType::False
        } else if w == "for".to_owned() {
            TokenType::For
        } else if w == "fun".to_owned() {
            TokenType::Fun
        } else if w == "if".to_owned() {
            TokenType::If
        } else if w == "nil".to_owned() {
            TokenType::Nil
        } else if w == "or".to_owned() {
            TokenType::Or
        } else if w == "print".to_owned() {
            TokenType::Print
        } else if w == "return".to_owned() {
            TokenType::Return
        } else if w == "super".to_owned() {
            TokenType::Super
        } else if w == "this".to_owned() {
            TokenType::This
        } else if w == "true".to_owned() {
            TokenType::True
        } else if w == "var".to_owned() {
            TokenType::Var
        } else if w == "while".to_owned() {
            TokenType::While
        } else {
            TokenType::Identifier
        }
    }
}

} // verus!
