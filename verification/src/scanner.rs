//! The scanner: a lazy sequence of lexical tokens over source text.

use vstd::prelude::*;
use vstd::string::StrSliceExecFns;
use vstd::string::StringExecFns;
use crate::num::{all_digits, is_number_text, num_parse, parse_bits};

verus! {

/// The kind of a lexical token, with the literal payloads the compiler
/// consumes.
#[derive(Debug, Clone, PartialEq)]
pub enum TokenType {
    LeftParen,
    RightParen,
    LeftBrace,
    RightBrace,
    Comma,
    Dot,
    Minus,
    Plus,
    Semicolon,
    Slash,
    Star,
    Bang,
    BangEqual,
    Equal,
    EqualEqual,
    Greater,
    GreaterEqual,
    Less,
    LessEqual,
    Identifier(String),
    String(String),
    Number(u64),
    And,
    Class,
    Else,
    False,
    For,
    Fun,
    If,
    Nil,
    Or,
    Print,
    Return,
    Super,
    This,
    True,
    Var,
    While,
    Error(String),
    EOF,
}

/// The mathematical shadow of a `TokenType`: text payloads as character
/// sequences.
pub enum TokenV {
    LeftParen,
    RightParen,
    LeftBrace,
    RightBrace,
    Comma,
    Dot,
    Minus,
    Plus,
    Semicolon,
    Slash,
    Star,
    Bang,
    BangEqual,
    Equal,
    EqualEqual,
    Greater,
    GreaterEqual,
    Less,
    LessEqual,
    Identifier(Seq<char>),
    String(Seq<char>),
    Number(u64),
    And,
    Class,
    Else,
    False,
    For,
    Fun,
    If,
    Nil,
    Or,
    Print,
    Return,
    Super,
    This,
    True,
    Var,
    While,
    Error(Seq<char>),
    EOF,
}

impl View for TokenType {
    type V = TokenV;

    open spec fn view(&self) -> TokenV {
        match self {
            TokenType::LeftParen => TokenV::LeftParen,
            TokenType::RightParen => TokenV::RightParen,
            TokenType::LeftBrace => TokenV::LeftBrace,
            TokenType::RightBrace => TokenV::RightBrace,
            TokenType::Comma => TokenV::Comma,
            TokenType::Dot => TokenV::Dot,
            TokenType::Minus => TokenV::Minus,
            TokenType::Plus => TokenV::Plus,
            TokenType::Semicolon => TokenV::Semicolon,
            TokenType::Slash => TokenV::Slash,
            TokenType::Star => TokenV::Star,
            TokenType::Bang => TokenV::Bang,
            TokenType::BangEqual => TokenV::BangEqual,
            TokenType::Equal => TokenV::Equal,
            TokenType::EqualEqual => TokenV::EqualEqual,
            TokenType::Greater => TokenV::Greater,
            TokenType::GreaterEqual => TokenV::GreaterEqual,
            TokenType::Less => TokenV::Less,
            TokenType::LessEqual => TokenV::LessEqual,
            TokenType::Identifier(s) => TokenV::Identifier(s@),
            TokenType::String(s) => TokenV::String(s@),
            TokenType::Number(n) => TokenV::Number(*n),
            TokenType::And => TokenV::And,
            TokenType::Class => TokenV::Class,
            TokenType::Else => TokenV::Else,
            TokenType::False => TokenV::False,
            TokenType::For => TokenV::For,
            TokenType::Fun => TokenV::Fun,
            TokenType::If => TokenV::If,
            TokenType::Nil => TokenV::Nil,
            TokenType::Or => TokenV::Or,
            TokenType::Print => TokenV::Print,
            TokenType::Return => TokenV::Return,
            TokenType::Super => TokenV::Super,
            TokenType::This => TokenV::This,
            TokenType::True => TokenV::True,
            TokenType::Var => TokenV::Var,
            TokenType::While => TokenV::While,
            TokenType::Error(s) => TokenV::Error(s@),
            TokenType::EOF => TokenV::EOF,
        }
    }
}

/// A token kind paired with the 1-based source line it ends on.
#[derive(Debug, Clone)]
pub struct Token {
    pub token_type: TokenType,
    pub line: usize,
}

/// The mathematical shadow of a `Token`.
pub struct TokenModel {
    pub kind: TokenV,
    pub line: int,
}

impl View for Token {
    type V = TokenModel;

    open spec fn view(&self) -> TokenModel {
        TokenModel { kind: self.token_type@, line: self.line as int }
    }
}

/// The character is a decimal digit.
pub open spec fn is_digit_c(c: char) -> bool {
    '0' <= c <= '9'
}

/// The character may begin an identifier.
pub open spec fn is_alpha_c(c: char) -> bool {
    ('a' <= c <= 'z') || ('A' <= c <= 'Z') || c == '_'
}

/// The first position at or after `i` holding a newline, or the end of
/// the source: where a line comment's content ends.
pub open spec fn comment_end(src: Seq<char>, i: int) -> int
    decreases src.len() - i,
{
    if i < 0 || i >= src.len() || src[i] == '\n' {
        i
    } else {
        comment_end(src, i + 1)
    }
}

/// A comment's content ends no earlier than it begins.
pub proof fn lemma_comment_end_ge(src: Seq<char>, i: int)
    ensures
        comment_end(src, i) >= i,
        comment_end(src, i) <= src.len() || comment_end(src, i) == i,
    decreases src.len() - i,
{
    if !(i < 0 || i >= src.len() || src[i] == '\n') {
        lemma_comment_end_ge(src, i + 1);
    }
}

/// Position and line after skipping whitespace and line comments from
/// position `i` on line `line`.
pub open spec fn skip_ws(src: Seq<char>, i: int, line: int) -> (int, int)
    decreases src.len() - i, 1int
        via skip_ws_decreases
{
    if i < 0 || i >= src.len() {
        (i, line)
    } else if src[i] == ' ' || src[i] == '\r' || src[i] == '\t' {
        skip_ws(src, i + 1, line)
    } else if src[i] == '\n' {
        skip_ws(src, i + 1, line + 1)
    } else if src[i] == '/' && i + 1 < src.len() && src[i + 1] == '/' {
        skip_ws(src, comment_end(src, i + 1), line)
    } else {
        (i, line)
    }
}

#[via_fn]
proof fn skip_ws_decreases(src: Seq<char>, i: int, line: int) {
    if 0 <= i < src.len() && src[i] == '/' && i + 1 < src.len() && src[i + 1] == '/' {
        lemma_comment_end_ge(src, i + 1);
    }
}

/// The first position at or after `i` holding a non-digit, or the end.
pub open spec fn digits_end(src: Seq<char>, i: int) -> int
    decreases src.len() - i,
{
    if i < 0 || i >= src.len() || !is_digit_c(src[i]) {
        i
    } else {
        digits_end(src, i + 1)
    }
}

/// Digits run at least to where they start, and every character of the
/// run is a digit.
pub proof fn lemma_digits_end(src: Seq<char>, i: int)
    requires
        0 <= i <= src.len(),
    ensures
        i <= digits_end(src, i) <= src.len(),
        forall|j: int| i <= j < digits_end(src, i) ==> is_digit_c(#[trigger] src[j]),
    decreases src.len() - i,
{
    if !(i >= src.len() || !is_digit_c(src[i])) {
        lemma_digits_end(src, i + 1);
    }
}

/// The first position at or after `i` holding a non-identifier character,
/// or the end.
pub open spec fn ident_end(src: Seq<char>, i: int) -> int
    decreases src.len() - i,
{
    if i < 0 || i >= src.len() || !(is_alpha_c(src[i]) || is_digit_c(src[i])) {
        i
    } else {
        ident_end(src, i + 1)
    }
}

/// An identifier runs at least to where it starts.
pub proof fn lemma_ident_end(src: Seq<char>, i: int)
    requires
        0 <= i <= src.len(),
    ensures
        i <= ident_end(src, i) <= src.len(),
    decreases src.len() - i,
{
    if !(i >= src.len() || !(is_alpha_c(src[i]) || is_digit_c(src[i]))) {
        lemma_ident_end(src, i + 1);
    }
}

/// The first position at or after `i` holding a closing quote, or the end.
pub open spec fn string_end(src: Seq<char>, i: int) -> int
    decreases src.len() - i,
{
    if i < 0 || i >= src.len() || src[i] == '"' {
        i
    } else {
        string_end(src, i + 1)
    }
}

/// A string literal's content ends no earlier than it begins.
pub proof fn lemma_string_end(src: Seq<char>, i: int)
    requires
        0 <= i <= src.len(),
    ensures
        i <= string_end(src, i) <= src.len(),
    decreases src.len() - i,
{
    if !(i >= src.len() || src[i] == '"') {
        lemma_string_end(src, i + 1);
    }
}

/// How many newlines the half-open range `[i, j)` of the source holds.
pub open spec fn newlines_in(src: Seq<char>, i: int, j: int) -> int
    decreases j - i,
{
    if i < 0 || i >= j || j > src.len() {
        0
    } else if src[i] == '\n' {
        1 + newlines_in(src, i + 1, j)
    } else {
        newlines_in(src, i + 1, j)
    }
}

/// Newline counts are non-negative and add one character at a time.
pub proof fn lemma_newlines_in(src: Seq<char>, i: int, j: int)
    requires
        0 <= i <= j <= src.len(),
    ensures
        0 <= newlines_in(src, i, j) <= j - i,
    decreases j - i,
{
    if i < j {
        lemma_newlines_in(src, i + 1, j);
    }
}

/// The token for an identifier lexeme: one of the sixteen keywords when
/// the lexeme equals it, else an identifier carrying the lexeme.
pub open spec fn keyword_or_ident(text: Seq<char>) -> TokenV {
    if text == "and"@ {
        TokenV::And
    } else if text == "class"@ {
        TokenV::Class
    } else if text == "else"@ {
        TokenV::Else
    } else if text == "false"@ {
        TokenV::False
    } else if text == "for"@ {
        TokenV::For
    } else if text == "fun"@ {
        TokenV::Fun
    } else if text == "if"@ {
        TokenV::If
    } else if text == "nil"@ {
        TokenV::Nil
    } else if text == "or"@ {
        TokenV::Or
    } else if text == "print"@ {
        TokenV::Print
    } else if text == "return"@ {
        TokenV::Return
    } else if text == "super"@ {
        TokenV::Super
    } else if text == "this"@ {
        TokenV::This
    } else if text == "true"@ {
        TokenV::True
    } else if text == "var"@ {
        TokenV::Var
    } else if text == "while"@ {
        TokenV::While
    } else {
        TokenV::Identifier(text)
    }
}

/// One step of the tokenizer: the token kind found at position `pos` on
/// line `line`, with the position and line after it.
pub struct ScanStep {
    pub kind: TokenV,
    pub pos: int,
    pub line: int,
}

/// Where a number token starting at `i` (a digit) ends: a digit run,
/// optionally continued by a point and a second digit run.
pub open spec fn number_end(src: Seq<char>, i: int) -> int {
    let d = digits_end(src, i);
    if d < src.len() && src[d] == '.' && d + 1 < src.len() && is_digit_c(src[d + 1]) {
        digits_end(src, d + 1)
    } else {
        d
    }
}

/// The tokenizer's step function: what `scan_token` returns and how it
/// moves the scanner, as a function of the source, position and line.
pub open spec fn spec_next_token(src: Seq<char>, pos: int, line: int) -> ScanStep {
    let (i, l) = skip_ws(src, pos, line);
    if i >= src.len() {
        ScanStep { kind: TokenV::EOF, pos: i, line: l }
    } else {
        let c = src[i];
        if is_alpha_c(c) {
            let e = ident_end(src, i + 1);
            ScanStep { kind: keyword_or_ident(src.subrange(i, e)), pos: e, line: l }
        } else if is_digit_c(c) {
            let e = number_end(src, i + 1);
            ScanStep { kind: TokenV::Number(parse_bits(src.subrange(i, e))), pos: e, line: l }
        } else if c == '(' {
            ScanStep { kind: TokenV::LeftParen, pos: i + 1, line: l }
        } else if c == ')' {
            ScanStep { kind: TokenV::RightParen, pos: i + 1, line: l }
        } else if c == '{' {
            ScanStep { kind: TokenV::LeftBrace, pos: i + 1, line: l }
        } else if c == '}' {
            ScanStep { kind: TokenV::RightBrace, pos: i + 1, line: l }
        } else if c == ';' {
            ScanStep { kind: TokenV::Semicolon, pos: i + 1, line: l }
        } else if c == ',' {
            ScanStep { kind: TokenV::Comma, pos: i + 1, line: l }
        } else if c == '.' {
            ScanStep { kind: TokenV::Dot, pos: i + 1, line: l }
        } else if c == '-' {
            ScanStep { kind: TokenV::Minus, pos: i + 1, line: l }
        } else if c == '+' {
            ScanStep { kind: TokenV::Plus, pos: i + 1, line: l }
        } else if c == '/' {
            ScanStep { kind: TokenV::Slash, pos: i + 1, line: l }
        } else if c == '*' {
            ScanStep { kind: TokenV::Star, pos: i + 1, line: l }
        } else if c == '!' {
            if i + 1 < src.len() && src[i + 1] == '=' {
                ScanStep { kind: TokenV::BangEqual, pos: i + 2, line: l }
            } else {
                ScanStep { kind: TokenV::Bang, pos: i + 1, line: l }
            }
        } else if c == '=' {
            if i + 1 < src.len() && src[i + 1] == '=' {
                ScanStep { kind: TokenV::EqualEqual, pos: i + 2, line: l }
            } else {
                ScanStep { kind: TokenV::Equal, pos: i + 1, line: l }
            }
        } else if c == '<' {
            if i + 1 < src.len() && src[i + 1] == '=' {
                ScanStep { kind: TokenV::LessEqual, pos: i + 2, line: l }
            } else {
                ScanStep { kind: TokenV::Less, pos: i + 1, line: l }
            }
        } else if c == '>' {
            if i + 1 < src.len() && src[i + 1] == '=' {
                ScanStep { kind: TokenV::GreaterEqual, pos: i + 2, line: l }
            } else {
                ScanStep { kind: TokenV::Greater, pos: i + 1, line: l }
            }
        } else if c == '"' {
            let e = string_end(src, i + 1);
            if e >= src.len() {
                ScanStep {
                    kind: TokenV::Error("Unterminated string."@),
                    pos: src.len() as int,
                    line: l + newlines_in(src, i + 1, src.len() as int),
                }
            } else {
                ScanStep {
                    kind: TokenV::String(src.subrange(i + 1, e)),
                    pos: e + 1,
                    line: l + newlines_in(src, i + 1, e),
                }
            }
        } else {
            ScanStep { kind: TokenV::Error("Unexpected character."@), pos: i + 1, line: l }
        }
    }
}

/// The mathematical shadow of a `Scanner`.
pub struct ScanModel {
    pub src: Seq<char>,
    pub start: int,
    pub pos: int,
    pub line: int,
}

/// The scanner's positions lie inside the source and lines start at 1.
pub open spec fn scanner_wf(m: ScanModel) -> bool {
    &&& 0 <= m.start <= m.src.len()
    &&& 0 <= m.pos <= m.src.len()
    &&& 1 <= m.line <= m.pos + 1
    &&& m.src.len() < usize::MAX
}

/// A cursor over source text producing one token at a time.
#[derive(Debug)]
pub struct Scanner {
    source: String,
    length: usize,
    start: usize,
    current: usize,
    line: usize,
}

impl Scanner {
    /// The scanner's mathematical state.
    pub closed spec fn model(&self) -> ScanModel {
        ScanModel {
            src: self.source@,
            start: self.start as int,
            pos: self.current as int,
            line: self.line as int,
        }
    }

    /// The scanner's fields agree with its model.
    pub closed spec fn inv(&self) -> bool {
        self.length == self.source@.len() && scanner_wf(self.model())
    }

    /// A scanner at the start of the source, on line 1.
    pub fn new(source: &str) -> (r: Scanner)
        requires
            source@.len() < usize::MAX,
        ensures
            r.inv(),
            r.model() == (ScanModel { src: source@, start: 0, pos: 0, line: 1 }),
    {
        let owned = String::from_str(source);
        let length = owned.as_str().unicode_len();
        Scanner { source: owned, length, start: 0, current: 0, line: 1 }
    }

    /// The cursor has consumed the whole source.
    pub fn is_at_end(&self) -> (r: bool)
        requires
            self.inv(),
        ensures
            r == (self.model().pos == self.model().src.len()),
    {
        self.current == self.length
    }

    /// Consume and return the character under the cursor.
    pub fn advance(&mut self) -> (c: char)
        requires
            old(self).inv(),
            old(self).model().pos < old(self).model().src.len(),
        ensures
            final(self).inv(),
            c == old(self).model().src[old(self).model().pos],
            final(self).model() == (ScanModel {
                pos: old(self).model().pos + 1,
                ..old(self).model()
            }),
    {
        let c = self.source.as_str().get_char(self.current);
        self.current = self.current + 1;
        c
    }

    /// The character under the cursor, if any.
    pub fn peek(&self) -> (r: Option<char>)
        requires
            self.inv(),
        ensures
            match r {
                Some(c) => self.model().pos < self.model().src.len() && c
                    == self.model().src[self.model().pos],
                None => self.model().pos == self.model().src.len(),
            },
    {
        if self.current == self.length {
            None
        } else {
            Some(self.source.as_str().get_char(self.current))
        }
    }

    /// The character after the one under the cursor, if any.
    pub fn peek_next(&self) -> (r: Option<char>)
        requires
            self.inv(),
        ensures
            match r {
                Some(c) => self.model().pos + 1 < self.model().src.len() && c
                    == self.model().src[self.model().pos + 1],
                None => self.model().pos + 1 >= self.model().src.len(),
            },
    {
        if self.current >= self.length || self.current + 1 >= self.length {
            None
        } else {
            Some(self.source.as_str().get_char(self.current + 1))
        }
    }

    /// Consume the character under the cursor if it equals `expected`.
    pub fn match_token(&mut self, expected: char) -> (r: bool)
        requires
            old(self).inv(),
        ensures
            final(self).inv(),
            r == (old(self).model().pos < old(self).model().src.len() && old(self).model().src[old(
                self,
            ).model().pos] == expected),
            final(self).model() == (ScanModel {
                pos: old(self).model().pos + (if r {
                    1int
                } else {
                    0int
                }),
                ..old(self).model()
            }),
    {
        if self.current == self.length {
            return false;
        }
        if self.source.as_str().get_char(self.current) != expected {
            return false;
        }
        self.current = self.current + 1;
        true
    }

    /// A token of the given kind on the current line.
    pub fn make_token(&self, token_type: TokenType) -> (t: Token)
        ensures
            t@.kind == token_type@,
            t@.line == self.model().line,
    {
        Token { token_type, line: self.line }
    }

    /// An error token carrying the given message.
    pub fn error_token(&self, message: &str) -> (t: Token)
        ensures
            t@.kind == TokenV::Error(message@),
            t@.line == self.model().line,
    {
        Token { token_type: TokenType::Error(String::from_str(message)), line: self.line }
    }

    /// The string token for the literal between the quotes at `start` and
    /// before `current`.
    pub fn make_string(&self) -> (t: Token)
        requires
            self.inv(),
            self.model().start + 1 <= self.model().pos - 1,
        ensures
            t@.kind == TokenV::String(
                self.model().src.subrange(self.model().start + 1, self.model().pos - 1),
            ),
            t@.line == self.model().line,
    {
        let s = self.source.as_str().substring_char(self.start + 1, self.current - 1).to_owned();
        Token { token_type: TokenType::String(s), line: self.line }
    }

    /// The identifier token for the current lexeme.
    pub fn make_identifier_type(&self) -> (t: TokenType)
        requires
            self.inv(),
            self.model().start <= self.model().pos,
        ensures
            t@ == TokenV::Identifier(
                self.model().src.subrange(self.model().start, self.model().pos),
            ),
    {
        let i = self.source.as_str().substring_char(self.start, self.current).to_owned();
        TokenType::Identifier(i)
    }

    /// The number token for the current lexeme.
    pub fn make_number(&self) -> (t: Token)
        requires
            self.inv(),
            self.model().start <= self.model().pos,
            is_number_text(self.model().src.subrange(self.model().start, self.model().pos)),
        ensures
            t@.kind == TokenV::Number(
                parse_bits(self.model().src.subrange(self.model().start, self.model().pos)),
            ),
            t@.line == self.model().line,
    {
        let text = self.source.as_str().substring_char(self.start, self.current);
        let n = num_parse(text);
        Token { token_type: TokenType::Number(n), line: self.line }
    }

    /// Skip whitespace and line comments, counting newlines.
    pub fn skip_whitespace(&mut self)
        requires
            old(self).inv(),
        ensures
            final(self).inv(),
            final(self).model().src == old(self).model().src,
            final(self).model().start == old(self).model().start,
            (final(self).model().pos, final(self).model().line) == skip_ws(
                old(self).model().src,
                old(self).model().pos,
                old(self).model().line,
            ),
    {
        let ghost src = self.model().src;
        let ghost p0 = self.model().pos;
        let ghost l0 = self.model().line;
        loop
            invariant
                self.inv(),
                src == old(self).model().src,
                p0 == old(self).model().pos,
                l0 == old(self).model().line,
                self.model().src == src,
                self.model().start == old(self).model().start,
                skip_ws(src, p0, l0) == skip_ws(src, self.model().pos, self.model().line),
            decreases src.len() - self.model().pos,
        {
            match self.peek() {
                Some(' ') => {
                    self.advance();
                }
                Some('\r') => {
                    self.advance();
                }
                Some('\t') => {
                    self.advance();
                }
                Some('\n') => {
                    self.advance();
                    self.line = self.line + 1;
                }
                Some('/') => {
                    let two = match self.peek_next() {
                        Some('/') => true,
                        _ => false,
                    };
                    if two {
                        let ghost pc = self.model().pos;
                        let mut done = false;
                        while !done
                            invariant
                                self.inv(),
                                src == old(self).model().src,
                                p0 == old(self).model().pos,
                                l0 == old(self).model().line,
                                self.model().src == src,
                                self.model().start == old(self).model().start,
                                skip_ws(src, p0, l0) == skip_ws(
                                    src,
                                    pc,
                                    self.model().line,
                                ),
                                0 <= pc,
                                pc + 1 < src.len(),
                                src[pc] == '/',
                                src[pc + 1] == '/',
                                pc <= self.model().pos,
                                comment_end(src, pc + 1) == comment_end(src, self.model().pos),
                                done ==> self.model().pos == comment_end(src, pc + 1),
                            decreases src.len() - self.model().pos + (if done {
                                0int
                            } else {
                                1int
                            }),
                        {
                            match self.peek() {
                                Some('\n') => {
                                    done = true;
                                }
                                None => {
                                    done = true;
                                }
                                Some(_) => {
                                    self.advance();
                                }
                            }
                        }
                        proof {
                            lemma_comment_end_ge(src, pc + 1);
                        }
                    } else {
                        return ;
                    }
                }
                _ => {
                    return ;
                }
            }
        }
    }

    /// Scan the string literal whose opening quote the cursor has just
    /// consumed.
    pub fn string(&mut self) -> (t: Token)
        requires
            old(self).inv(),
            old(self).model().start + 1 == old(self).model().pos,
            old(self).model().src[old(self).model().start] == '"',
        ensures
            final(self).inv(),
            final(self).model().src == old(self).model().src,
            final(self).model().start == old(self).model().start,
            ({
                let src = old(self).model().src;
                let i = old(self).model().start;
                let l = old(self).model().line;
                let e = string_end(src, i + 1);
                if e >= src.len() {
                    &&& t@.kind == TokenV::Error("Unterminated string."@)
                    &&& final(self).model().pos == src.len()
                    &&& final(self).model().line == l + newlines_in(src, i + 1, src.len() as int)
                    &&& t@.line == final(self).model().line
                } else {
                    &&& t@.kind == TokenV::String(src.subrange(i + 1, e))
                    &&& final(self).model().pos == e + 1
                    &&& final(self).model().line == l + newlines_in(src, i + 1, e)
                    &&& t@.line == final(self).model().line
                }
            }),
    {
        let ghost src = self.model().src;
        let ghost i = self.model().start;
        let ghost l0 = self.model().line;
        proof {
            lemma_string_end(src, i + 1);
        }
        let mut done = false;
        while !done
            invariant
                self.inv(),
                src == old(self).model().src,
                i == old(self).model().start,
                l0 == old(self).model().line,
                old(self).model().pos == i + 1,
                0 <= i < src.len(),
                src[i] == '"',
                self.model().src == src,
                self.model().start == i,
                i + 1 <= self.model().pos,
                self.model().line == l0 + newlines_in(src, i + 1, self.model().pos),
                string_end(src, i + 1) == string_end(src, self.model().pos),
                done ==> self.model().pos == string_end(src, i + 1),
                done ==> self.model().pos == src.len() || src[self.model().pos] == '"',
            decreases src.len() - self.model().pos + (if done {
                0int
            } else {
                1int
            }),
        {
            match self.peek() {
                Some('"') => {
                    done = true;
                }
                None => {
                    done = true;
                }
                Some(c) => {
                    proof {
                        lemma_newlines_snoc(src, i + 1, self.model().pos);
                    }
                    if c == '\n' {
                        self.advance();
                        self.line = self.line + 1;
                    } else {
                        self.advance();
                    }
                }
            }
        }
        proof {
            lemma_newlines_in(src, i + 1, self.model().pos);
        }
        if self.is_at_end() {
            return self.error_token("Unterminated string.");
        }
        self.advance();
        self.make_string()
    }

    /// Scan the rest of the number whose first digit the cursor has just
    /// consumed.
    pub fn number(&mut self) -> (t: Token)
        requires
            old(self).inv(),
            old(self).model().start + 1 == old(self).model().pos,
            is_digit_c(old(self).model().src[old(self).model().start]),
        ensures
            final(self).inv(),
            final(self).model().src == old(self).model().src,
            final(self).model().start == old(self).model().start,
            final(self).model().line == old(self).model().line,
            final(self).model().pos == number_end(old(self).model().src, old(self).model().pos),
            t@.kind == TokenV::Number(
                parse_bits(
                    old(self).model().src.subrange(
                        old(self).model().start,
                        number_end(old(self).model().src, old(self).model().pos),
                    ),
                ),
            ),
            t@.line == old(self).model().line,
    {
        let ghost src = self.model().src;
        let ghost st = self.model().start;
        let ghost c0 = self.model().pos;
        proof {
            lemma_digits_end(src, c0);
        }
        let mut done = false;
        while !done
            invariant
                self.inv(),
                src == old(self).model().src,
                st == old(self).model().start,
                c0 == old(self).model().pos,
                st + 1 == c0,
                0 <= st < src.len(),
                is_digit_c(src[st]),
                self.model().src == src,
                self.model().start == st,
                self.model().line == old(self).model().line,
                c0 <= self.model().pos,
                digits_end(src, c0) == digits_end(src, self.model().pos),
                done ==> self.model().pos == digits_end(src, c0),
            decreases src.len() - self.model().pos + (if done {
                0int
            } else {
                1int
            }),
        {
            let go = match self.peek() {
                Some(c) => is_digit(c),
                None => false,
            };
            if go {
                self.advance();
            } else {
                done = true;
            }
        }
        let ghost d = digits_end(src, c0);
        let dot = match self.peek() {
            Some('.') => true,
            _ => false,
        };
        let frac = dot && match self.peek_next() {
            Some(c) => is_digit(c),
            None => false,
        };
        if frac {
            self.advance();
            let ghost c1 = self.model().pos;
            proof {
                lemma_digits_end(src, c1);
            }
            let mut done2 = false;
            while !done2
                invariant
                    self.inv(),
                    src == old(self).model().src,
                    st == old(self).model().start,
                    c0 == old(self).model().pos,
                    st + 1 == c0,
                    0 <= st < src.len(),
                    is_digit_c(src[st]),
                    d == digits_end(src, c0),
                    c0 <= d,
                    d < src.len(),
                    src[d] == '.',
                    c1 == d + 1,
                    c1 < src.len(),
                    is_digit_c(src[c1]),
                    self.model().src == src,
                    self.model().start == st,
                    self.model().line == old(self).model().line,
                    c1 <= self.model().pos,
                    digits_end(src, c1) == digits_end(src, self.model().pos),
                    done2 ==> self.model().pos == digits_end(src, c1),
                decreases src.len() - self.model().pos + (if done2 {
                    0int
                } else {
                    1int
                }),
            {
                let go = match self.peek() {
                    Some(c) => is_digit(c),
                    None => false,
                };
                if go {
                    self.advance();
                } else {
                    done2 = true;
                }
            }
            proof {
                lemma_digits_end(src, c0);
                lemma_digits_end(src, d + 1);
                assert(digits_end(src, d + 1) == digits_end(src, d + 2));
                lemma_digits_end(src, d + 2);
                assert(number_end(src, c0) == digits_end(src, d + 1));
                lemma_number_text(src, st, d, digits_end(src, d + 1));
            }
        } else {
            proof {
                lemma_digits_end(src, c0);
                assert(number_end(src, c0) == d) by {
                    if d < src.len() && src[d] == '.' && d + 1 < src.len() && is_digit_c(
                        src[d + 1],
                    ) {
                        assert(frac);
                    }
                };
                lemma_number_text_plain(src, st, d);
            }
        }
        self.make_number()
    }

    /// The current lexeme equals the given word, character for character.
    pub fn lexeme_is(&self, w: &str) -> (r: bool)
        requires
            self.inv(),
            self.model().start <= self.model().pos,
        ensures
            r == (self.model().src.subrange(self.model().start, self.model().pos) == w@),
    {
        let wl = w.unicode_len();
        if self.current - self.start != wl {
            proof {
                let lex = self.model().src.subrange(self.model().start, self.model().pos);
                assert(lex.len() != w@.len());
            }
            return false;
        }
        let mut k: usize = 0;
        while k < wl
            invariant
                self.inv(),
                self.model().start <= self.model().pos,
                wl == w@.len(),
                wl == self.model().pos - self.model().start,
                0 <= k <= wl,
                forall|j: int|
                    0 <= j < k ==> self.model().src[self.model().start + j] == w@[j],
            decreases wl - k,
        {
            let a = self.source.as_str().get_char(self.start + k);
            let b = w.get_char(k);
            if a != b {
                proof {
                    let lex = self.model().src.subrange(self.model().start, self.model().pos);
                    assert(lex[k as int] != w@[k as int]);
                }
                return false;
            }
            k = k + 1;
        }
        proof {
            let lex = self.model().src.subrange(self.model().start, self.model().pos);
            assert(lex =~= w@);
        }
        true
    }

    /// The keyword token for the current lexeme when it is one of the
    /// sixteen keywords, else an identifier token.
    pub fn identifier_type(&self) -> (t: TokenType)
        requires
            self.inv(),
            self.model().start <= self.model().pos,
        ensures
            t@ == keyword_or_ident(
                self.model().src.subrange(self.model().start, self.model().pos),
            ),
    {
        if self.lexeme_is("and") {
            TokenType::And
        } else if self.lexeme_is("class") {
            TokenType::Class
        } else if self.lexeme_is("else") {
            TokenType::Else
        } else if self.lexeme_is("false") {
            TokenType::False
        } else if self.lexeme_is("for") {
            TokenType::For
        } else if self.lexeme_is("fun") {
            TokenType::Fun
        } else if self.lexeme_is("if") {
            TokenType::If
        } else if self.lexeme_is("nil") {
            TokenType::Nil
        } else if self.lexeme_is("or") {
            TokenType::Or
        } else if self.lexeme_is("print") {
            TokenType::Print
        } else if self.lexeme_is("return") {
            TokenType::Return
        } else if self.lexeme_is("super") {
            TokenType::Super
        } else if self.lexeme_is("this") {
            TokenType::This
        } else if self.lexeme_is("true") {
            TokenType::True
        } else if self.lexeme_is("var") {
            TokenType::Var
        } else if self.lexeme_is("while") {
            TokenType::While
        } else {
            self.make_identifier_type()
        }
    }

    /// Scan the rest of the identifier whose first character the cursor
    /// has just consumed.
    pub fn identifier(&mut self) -> (t: Token)
        requires
            old(self).inv(),
            old(self).model().start + 1 == old(self).model().pos,
        ensures
            final(self).inv(),
            final(self).model().src == old(self).model().src,
            final(self).model().start == old(self).model().start,
            final(self).model().line == old(self).model().line,
            final(self).model().pos == ident_end(old(self).model().src, old(self).model().pos),
            t@.kind == keyword_or_ident(
                old(self).model().src.subrange(
                    old(self).model().start,
                    ident_end(old(self).model().src, old(self).model().pos),
                ),
            ),
            t@.line == old(self).model().line,
    {
        let ghost src = self.model().src;
        let ghost c0 = self.model().pos;
        proof {
            lemma_ident_end(src, c0);
        }
        let mut done = false;
        while !done
            invariant
                self.inv(),
                src == old(self).model().src,
                c0 == old(self).model().pos,
                self.model().src == src,
                self.model().start == old(self).model().start,
                self.model().line == old(self).model().line,
                c0 <= self.model().pos,
                ident_end(src, c0) == ident_end(src, self.model().pos),
                done ==> self.model().pos == ident_end(src, c0),
            decreases src.len() - self.model().pos + (if done {
                0int
            } else {
                1int
            }),
        {
            let go = match self.peek() {
                Some(c) => is_alpha(c) || is_digit(c),
                None => false,
            };
            if go {
                self.advance();
            } else {
                done = true;
            }
        }
        let tt = self.identifier_type();
        self.make_token(tt)
    }

    /// Produce the next token, as `spec_next_token` describes it.
    pub fn scan_token(&mut self) -> (t: Token)
        requires
            old(self).inv(),
        ensures
            final(self).inv(),
            final(self).model().src == old(self).model().src,
            ({
                let st = spec_next_token(
                    old(self).model().src,
                    old(self).model().pos,
                    old(self).model().line,
                );
                &&& final(self).model().pos == st.pos
                &&& final(self).model().line == st.line
                &&& t@.kind == st.kind
                &&& t@.line == st.line
            }),
    {
        let ghost src = self.model().src;
        let ghost p0 = self.model().pos;
        let ghost l0 = self.model().line;
        self.skip_whitespace();
        self.start = self.current;
        proof {
            lemma_skip_ws_bounds(src, p0, l0);
        }
        if self.is_at_end() {
            return self.make_token(TokenType::EOF);
        }
        let c = self.advance();
        if is_alpha(c) {
            self.identifier()
        } else if is_digit(c) {
            self.number()
        } else if c == '(' {
            self.make_token(TokenType::LeftParen)
        } else if c == ')' {
            self.make_token(TokenType::RightParen)
        } else if c == '{' {
            self.make_token(TokenType::LeftBrace)
        } else if c == '}' {
            self.make_token(TokenType::RightBrace)
        } else if c == ';' {
            self.make_token(TokenType::Semicolon)
        } else if c == ',' {
            self.make_token(TokenType::Comma)
        } else if c == '.' {
            self.make_token(TokenType::Dot)
        } else if c == '-' {
            self.make_token(TokenType::Minus)
        } else if c == '+' {
            self.make_token(TokenType::Plus)
        } else if c == '/' {
            self.make_token(TokenType::Slash)
        } else if c == '*' {
            self.make_token(TokenType::Star)
        } else if c == '!' {
            if self.match_token('=') {
                self.make_token(TokenType::BangEqual)
            } else {
                self.make_token(TokenType::Bang)
            }
        } else if c == '=' {
            if self.match_token('=') {
                self.make_token(TokenType::EqualEqual)
            } else {
                self.make_token(TokenType::Equal)
            }
        } else if c == '<' {
            if self.match_token('=') {
                self.make_token(TokenType::LessEqual)
            } else {
                self.make_token(TokenType::Less)
            }
        } else if c == '>' {
            if self.match_token('=') {
                self.make_token(TokenType::GreaterEqual)
            } else {
                self.make_token(TokenType::Greater)
            }
        } else if c == '"' {
            self.string()
        } else {
            self.error_token("Unexpected character.")
        }
    }
}

/// One character extends the newline count by that character's own count.
pub proof fn lemma_newlines_snoc(src: Seq<char>, a: int, b: int)
    requires
        0 <= a <= b < src.len(),
    ensures
        newlines_in(src, a, b + 1) == newlines_in(src, a, b) + (if src[b] == '\n' {
            1int
        } else {
            0int
        }),
    decreases b - a,
{
    if a < b {
        lemma_newlines_snoc(src, a + 1, b);
    } else {
        assert(newlines_in(src, b + 1, b + 1) == 0);
    }
}

/// A digit run followed by a point and a digit run is a number text.
pub proof fn lemma_number_text(src: Seq<char>, st: int, d: int, e: int)
    requires
        0 <= st < d <= src.len(),
        d < e <= src.len(),
        forall|j: int| st <= j < d ==> is_digit_c(#[trigger] src[j]),
        src[d] == '.',
        d + 1 < e,
        forall|j: int| d + 1 <= j < e ==> is_digit_c(#[trigger] src[j]),
    ensures
        is_number_text(src.subrange(st, e)),
{
    let text = src.subrange(st, e);
    let k = d - st;
    assert(text[k] == '.');
    assert(all_digits(text.subrange(0, k))) by {
        assert forall|j: int| 0 <= j < k implies '0' <= #[trigger] text.subrange(0, k)[j]
            <= '9' by {
            assert(text.subrange(0, k)[j] == src[st + j]);
        }
    }
    assert(all_digits(text.subrange(k + 1, text.len() as int))) by {
        assert forall|j: int|
            0 <= j < text.len() - k - 1 implies '0' <= #[trigger] text.subrange(
            k + 1,
            text.len() as int,
        )[j] <= '9' by {
            assert(text.subrange(k + 1, text.len() as int)[j] == src[st + k + 1 + j]);
        }
    }
    assert(0 < k < text.len() as int - 1);
}

/// A plain digit run is a number text.
pub proof fn lemma_number_text_plain(src: Seq<char>, st: int, d: int)
    requires
        0 <= st < d <= src.len(),
        forall|j: int| st <= j < d ==> is_digit_c(#[trigger] src[j]),
    ensures
        is_number_text(src.subrange(st, d)),
{
    let text = src.subrange(st, d);
    assert(all_digits(text)) by {
        assert forall|j: int| 0 <= j < text.len() implies '0' <= #[trigger] text[j] <= '9' by {
            assert(text[j] == src[st + j]);
        }
    }
}

/// Skipping whitespace never moves backwards nor past the end, and never
/// lowers the line number.
pub proof fn lemma_skip_ws_bounds(src: Seq<char>, i: int, line: int)
    requires
        0 <= i <= src.len(),
        1 <= line,
    ensures
        i <= skip_ws(src, i, line).0 <= src.len(),
        line <= skip_ws(src, i, line).1,
    decreases src.len() - i,
{
    if i < src.len() {
        let c = src[i];
        if c == ' ' || c == '\r' || c == '\t' {
            lemma_skip_ws_bounds(src, i + 1, line);
        } else if c == '\n' {
            lemma_skip_ws_bounds(src, i + 1, line + 1);
        } else if c == '/' && i + 1 < src.len() && src[i + 1] == '/' {
            lemma_comment_end_ge(src, i + 1);
            lemma_comment_end_le(src, i + 1);
            lemma_skip_ws_bounds(src, comment_end(src, i + 1), line);
        }
    }
}

/// A comment's content ends no later than the end of the source.
pub proof fn lemma_comment_end_le(src: Seq<char>, i: int)
    requires
        0 <= i <= src.len(),
    ensures
        comment_end(src, i) <= src.len(),
    decreases src.len() - i,
{
    if !(i >= src.len() || src[i] == '\n') {
        lemma_comment_end_le(src, i + 1);
    }
}

/// The character is a decimal digit.
pub fn is_digit(c: char) -> (r: bool)
    ensures
        r == is_digit_c(c),
{
    c >= '0' && c <= '9'
}

/// The character may begin an identifier: a letter or an underscore.
pub fn is_alpha(c: char) -> (r: bool)
    ensures
        r == is_alpha_c(c),
{
    (c >= 'a' && c <= 'z') || (c >= 'A' && c <= 'Z') || c == '_'
}

/// The model of a diagnostic's optional token.
pub open spec fn opt_token_model(o: Option<Token>) -> Option<TokenModel> {
    match o {
        Some(t) => Some(t@),
        None => None,
    }
}

/// A well-formed scanner has a well-formed model.
pub proof fn lemma_scanner_inv_wf(s: &Scanner)
    requires
        s.inv(),
    ensures
        scanner_wf(s.model()),
{
}

/// Scanning never moves backwards, stays inside the source, never lowers
/// the line, and moves strictly forward for every token but `EOF`.
pub proof fn lemma_next_token_progress(src: Seq<char>, pos: int, line: int)
    requires
        0 <= pos <= src.len(),
        1 <= line,
    ensures
        ({
            let st = spec_next_token(src, pos, line);
            &&& pos <= st.pos <= src.len()
            &&& line <= st.line
            &&& (!(st.kind matches TokenV::EOF) ==> st.pos > pos)
        }),
{
    lemma_skip_ws_bounds(src, pos, line);
    let (i, l) = skip_ws(src, pos, line);
    if i < src.len() {
        let c = src[i];
        if is_alpha_c(c) {
            lemma_ident_end(src, i + 1);
        } else if is_digit_c(c) {
            lemma_digits_end(src, i + 1);
            let d = digits_end(src, i + 1);
            if d < src.len() && src[d] == '.' && d + 1 < src.len() && is_digit_c(src[d + 1]) {
                lemma_digits_end(src, d + 1);
            }
        } else if c == '"' {
            lemma_string_end(src, i + 1);
            let e = string_end(src, i + 1);
            if e >= src.len() {
                lemma_newlines_in(src, i + 1, src.len() as int);
            } else {
                lemma_newlines_in(src, i + 1, e);
            }
        }
    }
}

} // verus!
