//! The scanner: turns source text into the flat token sequence the parser
//! consumes, always terminated by exactly one end-of-input token. Lexical
//! errors (an unexpected character, an unterminated string) are collected
//! as diagnostics; scanning always runs to the end of the source.
//!
//! Numbers are integer literals: a `.` is scanned as its own token.

use crate::parser::{wf_tokens, Diagnostic};
use crate::text::chars_to_string;
use crate::token::{Literal, Token, TokenType};
use vstd::prelude::*;

verus! {

/// A decimal digit.
pub open spec fn spec_is_digit(c: char) -> bool {
    '0' <= c && c <= '9'
}

/// The value of a run of decimal digits, most significant first.
pub open spec fn digits_value(s: Seq<char>) -> int
    decreases s.len(),
{
    if s.len() == 0 {
        0
    } else {
        digits_value(s.drop_last()) * 10 + (s.last() as u32 - 48)
    }
}

/// The scanner: the source as characters, a cursor, the start of the
/// lexeme being scanned, the current line, and the lexical diagnostics
/// collected so far.
pub struct Scanner {
    pub source: Vec<char>,
    pub start: usize,
    pub current: usize,
    pub line: usize,
    pub diagnostics: Vec<Diagnostic>,
}

impl Scanner {
    pub open spec fn wf(&self) -> bool {
        &&& self.start <= self.source@.len()
        &&& self.current <= self.source@.len()
    }

    /// A scanner over this source text, positioned at its beginning.
    pub fn new(source: &str) -> (sc: Scanner)
        ensures
            sc.wf(),
            sc.source@ == source@,
            sc.current == 0,
            sc.diagnostics@.len() == 0,
    {
        let n = source.unicode_len();
        let mut chars: Vec<char> = Vec::new();
        let mut i: usize = 0;
        while i < n
            invariant
                n == source@.len(),
                i <= n,
                chars@ == source@.subrange(0, i as int),
            decreases n - i,
        {
            chars.push(source.get_char(i));
            i = i + 1;
            proof {
                assert(chars@ =~= source@.subrange(0, i as int));
            }
        }
        proof {
            assert(chars@ =~= source@);
        }
        Scanner { source: chars, start: 0, current: 0, line: 1, diagnostics: Vec::new() }
    }

    fn is_at_end(&self) -> (r: bool)
        requires
            self.wf(),
        ensures
            r == (self.current == self.source@.len()),
    {
        self.current >= self.source.len()
    }

    /// The character under the cursor, without consuming it.
    fn peek(&self) -> (c: char)
        requires
            self.wf(),
            self.current < self.source@.len(),
        ensures
            c == self.source@[self.current as int],
    {
        self.source[self.current]
    }

    /// Consumes and returns the character under the cursor.
    fn advance_char(&mut self) -> (c: char)
        requires
            old(self).wf(),
            old(self).current < old(self).source@.len(),
        ensures
            final(self).wf(),
            final(self).source == old(self).source,
            final(self).start == old(self).start,
            final(self).line == old(self).line,
            final(self).diagnostics == old(self).diagnostics,
            final(self).current == old(self).current + 1,
            c == old(self).source@[old(self).current as int],
    {
        let n = self.source.len();
        let c = self.source[self.current];
        proof {
            assert(self.current < n);
        }
        self.current = self.current + 1;
        c
    }

    /// Consumes the character under the cursor when it is the expected
    /// one.
    fn match_char(&mut self, expected: char) -> (r: bool)
        requires
            old(self).wf(),
        ensures
            final(self).wf(),
            final(self).source == old(self).source,
            final(self).start == old(self).start,
            final(self).line == old(self).line,
            final(self).diagnostics == old(self).diagnostics,
            r == (old(self).current < old(self).source@.len() && old(self).source@[old(
                self).current as int] == expected),
            r ==> final(self).current == old(self).current + 1,
            !r ==> final(self).current == old(self).current,
    {
        if self.is_at_end() {
            return false;
        }
        if self.peek() != expected {
            return false;
        }
        let n = self.source.len();
        proof {
            assert(self.current < n);
        }
        self.current = self.current + 1;
        true
    }

    /// The text of the lexeme being scanned, `source[start..current]`.
    fn lexeme_string(&self) -> (s: String)
        requires
            self.wf(),
            self.start <= self.current,
        ensures
            s@ == self.source@.subrange(self.start as int, self.current as int),
    {
        let mut chars: Vec<char> = Vec::new();
        let mut i: usize = self.start;
        while i < self.current
            invariant
                self.wf(),
                self.start <= i <= self.current,
                chars@ == self.source@.subrange(self.start as int, i as int),
            decreases self.current - i,
        {
            chars.push(self.source[i]);
            i = i + 1;
            proof {
                assert(chars@ =~= self.source@.subrange(self.start as int, i as int));
            }
        }
        chars_to_string(&chars)
    }

    /// Appends a token of this kind for the current lexeme.
    fn add_token(&self, tokens: &mut Vec<Token>, kind: TokenType, literal: Literal)
        requires
            self.wf(),
            self.start <= self.current,
            kind != TokenType::Eof,
            forall|i: int|
                0 <= i < old(tokens)@.len() ==> (#[trigger] old(tokens)@[i]).kind
                    != TokenType::Eof,
        ensures
            final(tokens)@.len() == old(tokens)@.len() + 1,
            forall|i: int|
                0 <= i < final(tokens)@.len() ==> (#[trigger] final(tokens)@[i]).kind
                    != TokenType::Eof,
            final(tokens)@.last().kind == kind,
            final(tokens)@.last().literal == literal,
            final(tokens)@.last().line == self.line,
            final(tokens)@.last().lexeme@ == self.source@.subrange(
                self.start as int,
                self.current as int,
            ),
    {
        let text = self.lexeme_string();
        let t = Token { kind, lexeme: text, literal, line: self.line };
        tokens.push(t);
    }

    /// Scans the whole source: the returned stream ends with exactly one
    /// end-of-input token, which stands nowhere else, so the parser can
    /// rely on its shape.
    pub fn scan_tokens(&mut self) -> (tokens: Vec<Token>)
        requires
            old(self).wf(),
        ensures
            final(self).wf(),
            wf_tokens(tokens@),
            final(self).diagnostics@.len() >= old(self).diagnostics@.len(),
    {
        let mut tokens: Vec<Token> = Vec::new();
        while !self.is_at_end()
            invariant
                self.wf(),
                self.diagnostics@.len() >= old(self).diagnostics@.len(),
                forall|i: int|
                    0 <= i < tokens@.len() ==> (#[trigger] tokens@[i]).kind != TokenType::Eof,
            decreases self.source@.len() - self.current,
        {
            self.start = self.current;
            self.scan_token(&mut tokens);
        }
        tokens.push(Token::new(TokenType::Eof, "", Literal::Nil, self.line));
        proof {
            assert(tokens@.last().kind == TokenType::Eof);
            assert(wf_tokens(tokens@));
        }
        tokens
    }

    /// Scans one lexeme, consuming at least one character: a token is
    /// appended, or the lexeme is skipped (whitespace, a comment), or a
    /// diagnostic is recorded.
    fn scan_token(&mut self, tokens: &mut Vec<Token>)
        requires
            old(self).wf(),
            old(self).current < old(self).source@.len(),
            old(self).start == old(self).current,
            forall|i: int|
                0 <= i < old(tokens)@.len() ==> (#[trigger] old(tokens)@[i]).kind
                    != TokenType::Eof,
        ensures
            final(self).wf(),
            final(self).source == old(self).source,
            final(self).current > old(self).current,
            final(self).diagnostics@.len() >= old(self).diagnostics@.len(),
            forall|i: int|
                0 <= i < final(tokens)@.len() ==> (#[trigger] final(tokens)@[i]).kind
                    != TokenType::Eof,
    {
        let c = self.advance_char();
        match c {
            '(' => self.add_token(tokens, TokenType::LeftParen, Literal::Nil),
            ')' => self.add_token(tokens, TokenType::RightParen, Literal::Nil),
            '{' => self.add_token(tokens, TokenType::LeftBrace, Literal::Nil),
            '}' => self.add_token(tokens, TokenType::RightBrace, Literal::Nil),
            ',' => self.add_token(tokens, TokenType::Comma, Literal::Nil),
            '.' => self.add_token(tokens, TokenType::Dot, Literal::Nil),
            '-' => self.add_token(tokens, TokenType::Minus, Literal::Nil),
            '+' => self.add_token(tokens, TokenType::Plus, Literal::Nil),
            ';' => self.add_token(tokens, TokenType::Semicolon, Literal::Nil),
            '*' => self.add_token(tokens, TokenType::Star, Literal::Nil),
            '!' => {
                if self.match_char('=') {
                    self.add_token(tokens, TokenType::BangEqual, Literal::Nil);
                } else {
                    self.add_token(tokens, TokenType::Bang, Literal::Nil);
                }
            },
            '=' => {
                if self.match_char('=') {
                    self.add_token(tokens, TokenType::EqualEqual, Literal::Nil);
                } else {
                    self.add_token(tokens, TokenType::Equal, Literal::Nil);
                }
            },
            '<' => {
                if self.match_char('=') {
                    self.add_token(tokens, TokenType::LessEqual, Literal::Nil);
                } else {
                    self.add_token(tokens, TokenType::Less, Literal::Nil);
                }
            },
            '>' => {
                if self.match_char('=') {
                    self.add_token(tokens, TokenType::GreaterEqual, Literal::Nil);
                } else {
                    self.add_token(tokens, TokenType::Greater, Literal::Nil);
                }
            },
            '/' => {
                if self.match_char('/') {
                    // A line comment runs to the end of the line.
                    while !self.is_at_end() && self.peek() != '\n'
                        invariant
                            self.wf(),
                            self.source == old(self).source,
                            self.current > old(self).current,
                            self.diagnostics == old(self).diagnostics,
                        decreases self.source@.len() - self.current,
                    {
                        let _ = self.advance_char();
                    }
                } else if self.match_char('*') {
                    // A block comment runs to the closing `*/`.
                    loop
                        invariant
                            self.wf(),
                            self.source == old(self).source,
                            self.current > old(self).current,
                            self.diagnostics == old(self).diagnostics,
                        decreases self.source@.len() - self.current,
                    {
                        if self.is_at_end() {
                            break;
                        }
                        if self.match_char('*') {
                            if self.match_char('/') {
                                break;
                            }
                        } else {
                            let _ = self.advance_char();
                        }
                    }
                } else {
                    self.add_token(tokens, TokenType::Slash, Literal::Nil);
                }
            },
            ' ' => {},
            '\r' => {},
            '\t' => {},
            '\n' => {
                if self.line < usize::MAX {
                    self.line = self.line + 1;
                }
            },
            '"' => self.scan_string(tokens),
            _ => {
                if c >= '0' && c <= '9' {
                    self.scan_number(tokens);
                } else if (c >= 'a' && c <= 'z') || (c >= 'A' && c <= 'Z') || c == '_' {
                    self.scan_identifier(tokens);
                } else {
                    let line = self.line;
                    self.report_error(line, "Unexpected character.");
                }
            },
        }
    }

    /// Records a lexical diagnostic.
    fn report_error(&mut self, line: usize, message: &str)
        requires
            old(self).wf(),
        ensures
            final(self).wf(),
            final(self).source == old(self).source,
            final(self).start == old(self).start,
            final(self).current == old(self).current,
            final(self).line == old(self).line,
            final(self).diagnostics@.len() == old(self).diagnostics@.len() + 1,
            final(self).diagnostics@.last().line == line,
            final(self).diagnostics@.last().location@ == Seq::<char>::empty(),
            final(self).diagnostics@.last().message@ == message@,
    {
        let d = Diagnostic { line, location: String::new(), message: message.to_owned() };
        self.diagnostics.push(d);
    }

    /// Scans a string literal: the characters up to the closing quote,
    /// newlines included. An unterminated string is a diagnostic, and no
    /// token.
    fn scan_string(&mut self, tokens: &mut Vec<Token>)
        requires
            old(self).wf(),
            old(self).start < old(self).current <= old(self).source@.len(),
            forall|i: int|
                0 <= i < old(tokens)@.len() ==> (#[trigger] old(tokens)@[i]).kind
                    != TokenType::Eof,
        ensures
            final(self).wf(),
            final(self).source == old(self).source,
            final(self).start == old(self).start,
            final(self).current >= old(self).current,
            final(self).diagnostics@.len() >= old(self).diagnostics@.len(),
            forall|i: int|
                0 <= i < final(tokens)@.len() ==> (#[trigger] final(tokens)@[i]).kind
                    != TokenType::Eof,
            final(tokens)@.len() == old(tokens)@.len() + 1 || final(tokens)@.len() == old(
                tokens,
            )@.len(),
            final(tokens)@.len() == old(tokens)@.len() + 1 ==> ({
                &&& final(tokens)@.last().kind == TokenType::Str
                &&& final(tokens)@.last().literal matches Literal::Str(v) && v@ == old(
                    self,
                ).source@.subrange(old(self).start + 1, final(self).current - 1)
            }),
            final(tokens)@.len() == old(tokens)@.len() ==> final(self).diagnostics@.len() == old(
                self,
            ).diagnostics@.len() + 1,
    {
        while !self.is_at_end() && self.peek() != '"'
            invariant
                self.wf(),
                self.source == old(self).source,
                self.start == old(self).start,
                self.current >= old(self).current,
                self.diagnostics == old(self).diagnostics,
                old(self).start < self.current,
            decreases self.source@.len() - self.current,
        {
            if self.peek() == '\n' && self.line < usize::MAX {
                self.line = self.line + 1;
            }
            let _ = self.advance_char();
        }
        if self.is_at_end() {
            let line = self.line;
            self.report_error(line, "Unterminated string.");
            return;
        }
        // Consume the closing quote.
        let _ = self.advance_char();
        // The value drops the surrounding quotes.
        let mut chars: Vec<char> = Vec::new();
        let lo = self.start + 1;
        let hi = self.current - 1;
        let mut i: usize = lo;
        while i < hi
            invariant
                self.wf(),
                lo <= i <= hi <= self.source@.len(),
                chars@ == self.source@.subrange(lo as int, i as int),
            decreases hi - i,
        {
            chars.push(self.source[i]);
            i = i + 1;
            proof {
                assert(chars@ =~= self.source@.subrange(lo as int, i as int));
            }
        }
        let value = Literal::Str(chars_to_string(&chars));
        self.add_token(tokens, TokenType::Str, value);
    }

    /// Scans an integer literal: a run of decimal digits, whose value the
    /// token carries. A literal that does not fit a signed 64-bit value is
    /// a diagnostic, and the token carries the largest value instead.
    fn scan_number(&mut self, tokens: &mut Vec<Token>)
        requires
            old(self).wf(),
            old(self).current == old(self).start + 1,
            old(self).current <= old(self).source@.len(),
            spec_is_digit(old(self).source@[old(self).start as int]),
            forall|i: int|
                0 <= i < old(tokens)@.len() ==> (#[trigger] old(tokens)@[i]).kind
                    != TokenType::Eof,
        ensures
            final(self).wf(),
            final(self).source == old(self).source,
            final(self).start == old(self).start,
            final(self).current >= old(self).current,
            final(self).line == old(self).line,
            final(self).diagnostics@.len() >= old(self).diagnostics@.len(),
            final(tokens)@.len() == old(tokens)@.len() + 1,
            forall|i: int|
                0 <= i < final(tokens)@.len() ==> (#[trigger] final(tokens)@[i]).kind
                    != TokenType::Eof,
            ({
                let numeral = old(self).source@.subrange(
                    old(self).start as int,
                    final(self).current as int,
                );
                &&& final(tokens)@.last().kind == TokenType::Number
                &&& final(tokens)@.last().lexeme@ == numeral
                &&& final(tokens)@.last().line == old(self).line
                &&& digits_value(numeral) <= i64::MAX ==> final(tokens)@.last().literal
                    == Literal::Number(digits_value(numeral) as i64) && final(self).diagnostics
                    == old(self).diagnostics
                &&& digits_value(numeral) > i64::MAX ==> final(tokens)@.last().literal
                    == Literal::Number(i64::MAX) && final(self).diagnostics@.len() == old(
                    self,
                ).diagnostics@.len() + 1
            }),
    {
        while !self.is_at_end() && self.peek() >= '0' && self.peek() <= '9'
            invariant
                self.wf(),
                self.source == old(self).source,
                self.start == old(self).start,
                self.line == old(self).line,
                self.current >= old(self).current,
                self.diagnostics == old(self).diagnostics,
                old(self).start < self.current,
                forall|j: int|
                    self.start <= j < self.current ==> spec_is_digit(
                        #[trigger] self.source@[j],
                    ),
            decreases self.source@.len() - self.current,
        {
            let _ = self.advance_char();
        }
        // Fold the digits into a value, watching for overflow.
        let ghost sc = *self;
        let mut value: i64 = 0;
        let mut overflowed = false;
        let mut i: usize = self.start;
        while i < self.current
            invariant
                *self == sc,
                self.wf(),
                self.start <= i <= self.current,
                forall|j: int|
                    self.start <= j < self.current ==> spec_is_digit(
                        #[trigger] self.source@[j],
                    ),
                0 <= value,
                !overflowed ==> value == digits_value(
                    self.source@.subrange(self.start as int, i as int),
                ),
                overflowed ==> digits_value(self.source@.subrange(self.start as int, i as int))
                    > i64::MAX,
            decreases self.current - i,
        {
            let c = self.source[i];
            let code: u32 = c as u32;
            let d: i64 = (code - 48) as i64;
            let ghost before = self.source@.subrange(self.start as int, i as int);
            let ghost after = self.source@.subrange(self.start as int, i + 1);
            proof {
                assert(after.drop_last() =~= before);
                assert(digits_value(after) == digits_value(before) * 10 + d);
            }
            match value.checked_mul(10) {
                Some(v10) => match v10.checked_add(d) {
                    Some(v) => {
                        value = v;
                    },
                    None => {
                        overflowed = true;
                    },
                },
                None => {
                    overflowed = true;
                },
            }
            i = i + 1;
        }
        if overflowed {
            let line = self.line;
            self.report_error(line, "Number literal too large.");
            value = i64::MAX;
        }
        self.add_token(tokens, TokenType::Number, Literal::Number(value));
    }

    /// Scans an identifier or keyword: letters, digits and underscores.
    fn scan_identifier(&mut self, tokens: &mut Vec<Token>)
        requires
            old(self).wf(),
            old(self).start < old(self).current <= old(self).source@.len(),
            forall|i: int|
                0 <= i < old(tokens)@.len() ==> (#[trigger] old(tokens)@[i]).kind
                    != TokenType::Eof,
        ensures
            final(self).wf(),
            final(self).source == old(self).source,
            final(self).start == old(self).start,
            final(self).current >= old(self).current,
            final(self).line == old(self).line,
            final(self).diagnostics == old(self).diagnostics,
            final(tokens)@.len() == old(tokens)@.len() + 1,
            forall|i: int|
                0 <= i < final(tokens)@.len() ==> (#[trigger] final(tokens)@[i]).kind
                    != TokenType::Eof,
            ({
                let word = old(self).source@.subrange(
                    old(self).start as int,
                    final(self).current as int,
                );
                &&& final(tokens)@.last().kind == TokenType::spec_keyword_kind(word)
                &&& final(tokens)@.last().lexeme@ == word
                &&& final(tokens)@.last().literal == Literal::Nil
                &&& final(tokens)@.last().line == old(self).line
            }),
    {
        while !self.is_at_end() && ((self.peek() >= 'a' && self.peek() <= 'z') || (self.peek()
            >= 'A' && self.peek() <= 'Z') || self.peek() == '_' || (self.peek() >= '0'
            && self.peek() <= '9'))
            invariant
                self.wf(),
                self.source == old(self).source,
                self.start == old(self).start,
                self.line == old(self).line,
                self.current >= old(self).current,
                self.diagnostics == old(self).diagnostics,
                old(self).start < self.current,
            decreases self.source@.len() - self.current,
        {
            let _ = self.advance_char();
        }
        let text = self.lexeme_string();
        let kind = TokenType::keyword_kind(text.as_str());
        proof {
            assert(kind != TokenType::Eof);
        }
        let t = Token { kind, lexeme: text, literal: Literal::Nil, line: self.line };
        tokens.push(t);
    }
}

} // verus!
