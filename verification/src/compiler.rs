//! The single-pass Pratt compiler: tokens in, bytecode out.

use vstd::prelude::*;
use vstd::string::StringExecFns;
use crate::chunk::{Chunk, Instruction, OpCode, balanced_from, chunk_wf, expr_code, expr_op,
    lemma_balanced_concat, lemma_balanced_one, lemma_balanced_shift, no_return};
use crate::interner::{Interner, interner_wf, spec_intern};
use crate::scanner::{Scanner, Token, TokenModel, TokenType, TokenV, ident_end, keyword_or_ident,
    opt_token_model, skip_ws, spec_next_token, lemma_next_token_progress, lemma_scanner_inv_wf};
use crate::value::{Value, syms_valid};

verus! {

/// The precedence ladder the Pratt parser climbs.
#[derive(Copy, Clone, Debug, PartialEq, Eq, Structural)]
pub enum Precedence {
    Lowest,
    Assignment,
    Or,
    And,
    Equality,
    Comparison,
    Term,
    Factor,
    Unary,
    Call,
    Primary,
}

/// The rank of a precedence level.
pub open spec fn spec_prec_value(p: Precedence) -> u8 {
    match p {
        Precedence::Lowest => 0,
        Precedence::Assignment => 1,
        Precedence::Or => 2,
        Precedence::And => 3,
        Precedence::Equality => 4,
        Precedence::Comparison => 5,
        Precedence::Term => 6,
        Precedence::Factor => 7,
        Precedence::Unary => 8,
        Precedence::Call => 9,
        Precedence::Primary => 10,
    }
}

/// The precedence level of a rank; ranks above the ladder fall back to
/// `None`.
pub open spec fn spec_prec_of(v: u8) -> Precedence {
    if v == 0 {
        Precedence::Lowest
    } else if v == 1 {
        Precedence::Assignment
    } else if v == 2 {
        Precedence::Or
    } else if v == 3 {
        Precedence::And
    } else if v == 4 {
        Precedence::Equality
    } else if v == 5 {
        Precedence::Comparison
    } else if v == 6 {
        Precedence::Term
    } else if v == 7 {
        Precedence::Factor
    } else if v == 8 {
        Precedence::Unary
    } else if v == 9 {
        Precedence::Call
    } else if v == 10 {
        Precedence::Primary
    } else {
        Precedence::Lowest
    }
}

impl Precedence {
    /// The rank of this level.
    pub fn value(&self) -> (r: u8)
        ensures
            r == spec_prec_value(*self),
    {
        match self {
            Precedence::Lowest => 0,
            Precedence::Assignment => 1,
            Precedence::Or => 2,
            Precedence::And => 3,
            Precedence::Equality => 4,
            Precedence::Comparison => 5,
            Precedence::Term => 6,
            Precedence::Factor => 7,
            Precedence::Unary => 8,
            Precedence::Call => 9,
            Precedence::Primary => 10,
        }
    }

    /// The level of a rank; ranks above the ladder fall back to `None`.
    pub fn from_value(value: u8) -> (r: Precedence)
        ensures
            r == spec_prec_of(value),
    {
        match value {
            0 => Self::Lowest,
            1 => Self::Assignment,
            2 => Self::Or,
            3 => Self::And,
            4 => Self::Equality,
            5 => Self::Comparison,
            6 => Self::Term,
            7 => Self::Factor,
            8 => Self::Unary,
            9 => Self::Call,
            10 => Self::Primary,
            _ => Self::Lowest,
        }
    }

    /// The level `value` ranks above this one.
    pub fn add(&self, value: u8) -> (r: Precedence)
        requires
            spec_prec_value(*self) + value <= u8::MAX,
        ensures
            r == spec_prec_of((spec_prec_value(*self) + value) as u8),
    {
        Self::from_value(self.value() + value)
    }
}

/// A compile diagnostic: the token it points at, if any, and its message.
#[derive(Debug, Clone)]
pub struct ParserError {
    pub token: Option<Token>,
    pub message: String,
}

/// The kind an optional token holds; an absent token reads as `EOF`.
pub open spec fn tok_kind(o: Option<Token>) -> TokenV {
    match o {
        Some(t) => t@.kind,
        None => TokenV::EOF,
    }
}

/// The two token kinds agree, payloads aside.
pub open spec fn same_kind(a: TokenV, b: TokenV) -> bool {
    match (a, b) {
        (TokenV::LeftParen, TokenV::LeftParen) => true,
        (TokenV::RightParen, TokenV::RightParen) => true,
        (TokenV::LeftBrace, TokenV::LeftBrace) => true,
        (TokenV::RightBrace, TokenV::RightBrace) => true,
        (TokenV::Comma, TokenV::Comma) => true,
        (TokenV::Dot, TokenV::Dot) => true,
        (TokenV::Minus, TokenV::Minus) => true,
        (TokenV::Plus, TokenV::Plus) => true,
        (TokenV::Semicolon, TokenV::Semicolon) => true,
        (TokenV::Slash, TokenV::Slash) => true,
        (TokenV::Star, TokenV::Star) => true,
        (TokenV::Bang, TokenV::Bang) => true,
        (TokenV::BangEqual, TokenV::BangEqual) => true,
        (TokenV::Equal, TokenV::Equal) => true,
        (TokenV::EqualEqual, TokenV::EqualEqual) => true,
        (TokenV::Greater, TokenV::Greater) => true,
        (TokenV::GreaterEqual, TokenV::GreaterEqual) => true,
        (TokenV::Less, TokenV::Less) => true,
        (TokenV::LessEqual, TokenV::LessEqual) => true,
        (TokenV::Identifier(_), TokenV::Identifier(_)) => true,
        (TokenV::String(_), TokenV::String(_)) => true,
        (TokenV::Number(_), TokenV::Number(_)) => true,
        (TokenV::And, TokenV::And) => true,
        (TokenV::Class, TokenV::Class) => true,
        (TokenV::Else, TokenV::Else) => true,
        (TokenV::False, TokenV::False) => true,
        (TokenV::For, TokenV::For) => true,
        (TokenV::Fun, TokenV::Fun) => true,
        (TokenV::If, TokenV::If) => true,
        (TokenV::Nil, TokenV::Nil) => true,
        (TokenV::Or, TokenV::Or) => true,
        (TokenV::Print, TokenV::Print) => true,
        (TokenV::Return, TokenV::Return) => true,
        (TokenV::Super, TokenV::Super) => true,
        (TokenV::This, TokenV::This) => true,
        (TokenV::True, TokenV::True) => true,
        (TokenV::Var, TokenV::Var) => true,
        (TokenV::While, TokenV::While) => true,
        (TokenV::Error(_), TokenV::Error(_)) => true,
        (TokenV::EOF, TokenV::EOF) => true,
        _ => false,
    }
}

/// The token kinds a prefix handler exists for.
pub open spec fn has_prefix(k: TokenV) -> bool {
    match k {
        TokenV::LeftParen => true,
        TokenV::Minus => true,
        TokenV::Bang => true,
        TokenV::Number(_) => true,
        TokenV::String(_) => true,
        TokenV::Nil => true,
        TokenV::True => true,
        TokenV::False => true,
        _ => false,
    }
}

/// The infix precedence rank of a token kind; zero for kinds with no
/// infix handler.
pub open spec fn spec_infix_prec(k: TokenV) -> u8 {
    match k {
        TokenV::Minus => 6,
        TokenV::Plus => 6,
        TokenV::Slash => 7,
        TokenV::Star => 7,
        TokenV::BangEqual => 4,
        TokenV::EqualEqual => 5,
        TokenV::Greater => 5,
        TokenV::GreaterEqual => 5,
        TokenV::Less => 5,
        TokenV::LessEqual => 5,
        _ => 0,
    }
}

/// The token kinds that carry an infix handler.
pub open spec fn is_binary_op(k: TokenV) -> bool {
    spec_infix_prec(k) >= 1
}

/// The compiler's working state: the scanner, a one-token lookahead, the
/// chunk being filled, and the interner literals go through.
pub struct Parser {
    scanner: Scanner,
    previous: Option<Token>,
    current: Option<Token>,
    chunk: Chunk,
    interner: Interner,
}

impl Parser {
    /// The scanner's cursor position.
    spec fn pos(&self) -> int {
        self.scanner.model().pos
    }

    /// The source the scanner reads.
    spec fn src(&self) -> Seq<char> {
        self.scanner.model().src
    }

    /// One when the lookahead token is not `EOF`: the part of the parser's
    /// termination measure that a token-less advance lowers.
    pub closed spec fn cur_measure(&self) -> int {
        if tok_kind(self.current) == TokenV::EOF {
            0
        } else {
            1
        }
    }

    /// The characters the scanner has not consumed yet: the parser's main
    /// termination measure.
    pub closed spec fn rem(&self) -> int {
        self.scanner.model().src.len() - self.scanner.model().pos
    }

    /// The mathematical state of the chunk being built.
    pub closed spec fn spec_chunk(&self) -> (Seq<Instruction>, Seq<Value>) {
        (self.chunk.instructions@, self.chunk.constants@)
    }

    /// The interner's contents.
    pub closed spec fn spec_interner(&self) -> Seq<Seq<char>> {
        self.interner@
    }

    /// The lookahead token.
    pub closed spec fn spec_current(&self) -> Option<Token> {
        self.current
    }

    /// A token has been consumed.
    pub closed spec fn has_previous(&self) -> bool {
        self.previous matches Some(_)
    }

    /// The parser's mathematical state, as the specification parser
    /// transforms it.
    pub closed spec fn pstate(&self) -> ParseState {
        ParseState {
            src: self.scanner.model().src,
            pos: self.scanner.model().pos,
            line: self.scanner.model().line,
            prev: opt_token_model(self.previous),
            cur: opt_token_model(self.current),
            instrs: self.chunk.instructions@,
            consts: self.chunk.constants@,
            interner: self.interner@,
        }
    }

    /// The parser's invariant before the first token is read.
    pub closed spec fn pinv0(&self) -> bool {
        &&& self.scanner.inv()
        &&& crate::scanner::scanner_wf(self.scanner.model())
        &&& interner_wf(self.interner@)
        &&& chunk_wf(self.chunk.instructions@, self.chunk.constants@)
        &&& syms_valid(self.chunk.constants@, self.interner@.len() as int)
    }

    /// The parser's invariant while parsing: a lookahead token is present.
    pub closed spec fn pinv(&self) -> bool {
        &&& self.pinv0()
        &&& self.current matches Some(_)
    }

    /// A parser at the start of its source, with nothing read and an
    /// empty chunk.
    pub fn new(scanner: Scanner, interner: Interner) -> (r: Parser)
        requires
            scanner.inv(),
            interner_wf(interner@),
        ensures
            r.pinv0(),
            r.spec_current() matches Option::<Token>::None,
            r.spec_chunk().0 == Seq::<Instruction>::empty(),
            r.spec_chunk().1 == Seq::<Value>::empty(),
            r.spec_interner() == interner@,
            r.pstate() == (ParseState {
                src: scanner.model().src,
                pos: scanner.model().pos,
                line: scanner.model().line,
                prev: None,
                cur: None,
                instrs: Seq::<Instruction>::empty(),
                consts: Seq::<Value>::empty(),
                interner: interner@,
            }),
    {
        proof {
            lemma_scanner_inv_wf(&scanner);
        }
        let r = Parser { scanner, previous: None, current: None, chunk: Chunk::new(), interner };
        proof {
            assert(r.pstate() =~= (ParseState {
                src: r.scanner.model().src,
                pos: r.scanner.model().pos,
                line: r.scanner.model().line,
                prev: None,
                cur: None,
                instrs: Seq::<Instruction>::empty(),
                consts: Seq::<Value>::empty(),
                interner: r.interner@,
            }));
        }
        r
    }

    /// A diagnostic pointing at the lookahead token.
    fn error_at_current(&self, message: &str) -> (e: ParserError)
        ensures
            e.message@ == message@,
            tok_kind(e.token) == tok_kind(self.current),
            err_model(e) == (ErrModel {
                token: opt_token_model(self.current),
                message: message@,
            }),
    {
        ParserError { token: clone_opt_token(&self.current), message: String::from_str(message) }
    }

    /// A diagnostic with no token.
    fn error(&self, message: &str) -> (e: ParserError)
        ensures
            e.message@ == message@,
            e.token matches Option::<Token>::None,
            err_model(e) == (ErrModel { token: None, message: message@ }),
    {
        ParserError { token: None, message: String::from_str(message) }
    }

    /// Shift the lookahead: the previous token becomes the one just
    /// consumed, and the scanner yields the next. A lexical error token
    /// becomes a diagnostic.
    fn advance(&mut self) -> (r: Result<(), ParserError>)
        requires
            old(self).pinv0(),
        ensures
            final(self).pinv0(),
            final(self).src() == old(self).src(),
            final(self).chunk.instructions@ == old(self).chunk.instructions@,
            final(self).chunk.constants@ == old(self).chunk.constants@,
            final(self).interner@ == old(self).interner@,
            final(self).previous == old(self).current,
            final(self).current matches Some(_),
            old(self).pos() <= final(self).pos(),
            final(self).pos() == old(self).pos() ==> tok_kind(final(self).current)
                matches TokenV::EOF,
            ({
                let st = spec_next_token(
                    old(self).src(),
                    old(self).scanner.model().pos,
                    old(self).scanner.model().line,
                );
                &&& tok_kind(final(self).current) == st.kind
                &&& final(self).pos() == st.pos
                &&& (r matches Ok(_) <==> !(st.kind matches TokenV::Error(_)))
            }),
            refines(final(self).pstate(), r, spec_advance(old(self).pstate())),
    {
        proof {
            lemma_scanner_inv_wf(&self.scanner);
            lemma_next_token_progress(
                self.src(),
                self.scanner.model().pos,
                self.scanner.model().line,
            );
        }
        let tok = self.scanner.scan_token();
        proof {
            lemma_scanner_inv_wf(&self.scanner);
        }
        let is_err = match &tok.token_type {
            TokenType::Error(_) => true,
            _ => false,
        };
        let mut slot = Some(tok);
        core::mem::swap(&mut self.current, &mut slot);
        self.previous = slot;
        if is_err {
            let msg = match &self.current {
                Some(t) => match &t.token_type {
                    TokenType::Error(m) => m.clone(),
                    _ => String::new(),
                },
                None => String::new(),
            };
            let e = ParserError { token: clone_opt_token(&self.current), message: msg };
            proof {
                assert(self.pstate() =~= spec_advance(old(self).pstate()).0);
            }
            return Err(e);
        }
        proof {
            assert(self.pstate() =~= spec_advance(old(self).pstate()).0);
        }
        Ok(())
    }

    /// The lookahead token has the given kind.
    fn check(&self, token_type: &TokenType) -> (r: bool)
        requires
            self.pinv(),
        ensures
            r == same_kind(tok_kind(self.current), token_type@),
    {
        match &self.current {
            Some(t) => token_kind_matches(&t.token_type, token_type),
            None => false,
        }
    }

    /// Consume the lookahead when it has the given kind, else fail with
    /// the message.
    fn consume(&mut self, token_type: TokenType, message: &str) -> (r: Result<(), ParserError>)
        requires
            old(self).pinv(),
        ensures
            final(self).pinv(),
            final(self).src() == old(self).src(),
            final(self).chunk.instructions@ == old(self).chunk.instructions@,
            final(self).chunk.constants@ == old(self).chunk.constants@,
            final(self).interner@ == old(self).interner@,
            old(self).pos() <= final(self).pos(),
            final(self).pos() == old(self).pos() ==> (final(self).current == old(self).current
                || tok_kind(final(self).current) matches TokenV::EOF),
            r matches Ok(_) ==> same_kind(tok_kind(old(self).current), token_type@)
                && final(self).previous == old(self).current,
            refines(
                final(self).pstate(),
                r,
                spec_consume(old(self).pstate(), token_type@, message@),
            ),
    {
        if self.check(&token_type) {
            match self.advance() {
                Ok(_) => Ok(()),
                Err(e) => Err(e),
            }
        } else {
            Err(self.error_at_current(message))
        }
    }

    /// Consume the lookahead when it has the given kind; say whether it
    /// was consumed.
    fn match_token(&mut self, token_type: TokenType) -> (r: Result<bool, ParserError>)
        requires
            old(self).pinv(),
        ensures
            final(self).pinv(),
            final(self).src() == old(self).src(),
            final(self).chunk.instructions@ == old(self).chunk.instructions@,
            final(self).chunk.constants@ == old(self).chunk.constants@,
            final(self).interner@ == old(self).interner@,
            old(self).pos() <= final(self).pos(),
            final(self).pos() == old(self).pos() ==> (final(self).current == old(self).current
                || tok_kind(final(self).current) matches TokenV::EOF),
            r matches Ok(b) ==> (b == same_kind(tok_kind(old(self).current), token_type@)),
            r matches Ok(true) ==> final(self).previous == old(self).current,
            r matches Ok(false) ==> *final(self) == *old(self),
            ({
                let (s2, e, b) = spec_match(old(self).pstate(), token_type@);
                &&& final(self).pstate() == s2
                &&& match r {
                    Ok(bb) => bb == b && e matches Option::<ErrModel>::None,
                    Err(er) => e == Some(err_model(er)),
                }
            }),
    {
        if !self.check(&token_type) {
            return Ok(false);
        }
        match self.advance() {
            Ok(_) => Ok(true),
            Err(e) => Err(e),
        }
    }

    /// Append one instruction on the line of the token just consumed.
    fn emit_byte(&mut self, byte: OpCode)
        requires
            old(self).pinv(),
            old(self).previous matches Some(_),
            match byte {
                OpCode::Constant(c) => c < old(self).chunk.constants@.len(),
                OpCode::DefineGlobal(c) => c < old(self).chunk.constants@.len(),
                _ => true,
            },
        ensures
            final(self).pinv(),
            final(self).scanner.model() == old(self).scanner.model(),
            final(self).src() == old(self).src(),
            final(self).pos() == old(self).pos(),
            final(self).current == old(self).current,
            final(self).previous == old(self).previous,
            final(self).interner@ == old(self).interner@,
            final(self).chunk.constants@ == old(self).chunk.constants@,
            final(self).chunk.instructions@ == old(self).chunk.instructions@.push(
                Instruction { code: byte, line: tok_line(old(self).previous) },
            ),
    {
        let line = match &self.previous {
            Some(t) => t.line,
            None => 1,
        };
        self.chunk.write_chunk(byte, line);
    }

    /// Append a constant to the table and return the instruction that
    /// loads it.
    fn make_constant(&mut self, value: Value) -> (r: OpCode)
        requires
            old(self).pinv(),
            value matches Value::String(s) ==> (s as int) < old(self).interner@.len(),
        ensures
            final(self).pinv(),
            final(self).scanner.model() == old(self).scanner.model(),
            final(self).src() == old(self).src(),
            final(self).pos() == old(self).pos(),
            final(self).current == old(self).current,
            final(self).previous == old(self).previous,
            final(self).interner@ == old(self).interner@,
            final(self).chunk.instructions@ == old(self).chunk.instructions@,
            final(self).chunk.constants@ == old(self).chunk.constants@.push(value),
            r == OpCode::Constant(old(self).chunk.constants@.len() as usize),
    {
        let constant = self.chunk.add_constant(value);
        OpCode::Constant(constant)
    }

    /// Append a constant and the instruction that loads it.
    fn emit_constant(&mut self, value: Value)
        requires
            old(self).pinv(),
            old(self).previous matches Some(_),
            value matches Value::String(s) ==> (s as int) < old(self).interner@.len(),
        ensures
            final(self).pinv(),
            final(self).scanner.model() == old(self).scanner.model(),
            final(self).src() == old(self).src(),
            final(self).pos() == old(self).pos(),
            final(self).current == old(self).current,
            final(self).previous == old(self).previous,
            final(self).interner@ == old(self).interner@,
            final(self).chunk.constants@ == old(self).chunk.constants@.push(value),
            final(self).chunk.instructions@ == old(self).chunk.instructions@.push(
                Instruction {
                    code: OpCode::Constant(old(self).chunk.constants@.len() as usize),
                    line: tok_line(old(self).previous),
                },
            ),
    {
        let constant = self.make_constant(value);
        self.emit_byte(constant);
    }

    /// Append the final `Return`.
    fn emit_return(&mut self)
        requires
            old(self).pinv(),
            old(self).previous matches Some(_),
        ensures
            final(self).pinv(),
            final(self).scanner.model() == old(self).scanner.model(),
            final(self).current == old(self).current,
            final(self).previous == old(self).previous,
            final(self).interner@ == old(self).interner@,
            final(self).chunk.constants@ == old(self).chunk.constants@,
            final(self).chunk.instructions@ == old(self).chunk.instructions@.push(
                Instruction { code: OpCode::Return, line: tok_line(old(self).previous) },
            ),
    {
        self.emit_byte(OpCode::Return);
    }

    /// Close compilation: every chunk ends with `Return`.
    fn end_compiler(&mut self)
        requires
            old(self).pinv(),
            old(self).previous matches Some(_),
        ensures
            final(self).pinv(),
            final(self).scanner.model() == old(self).scanner.model(),
            final(self).current == old(self).current,
            final(self).previous == old(self).previous,
            final(self).interner@ == old(self).interner@,
            final(self).chunk.constants@ == old(self).chunk.constants@,
            final(self).chunk.instructions@ == old(self).chunk.instructions@.push(
                Instruction { code: OpCode::Return, line: tok_line(old(self).previous) },
            ),
    {
        self.emit_return();
    }
}

/// What every parsing step preserves: the invariant, the source, the
/// append-only chunk and interner, and the scanner's forward motion.
spec fn frame(p0: Parser, p1: Parser) -> bool {
    &&& p1.pinv()
    &&& p1.src() == p0.src()
    &&& p0.chunk.instructions@.is_prefix_of(p1.chunk.instructions@)
    &&& p0.chunk.constants@.is_prefix_of(p1.chunk.constants@)
    &&& p0.interner@.is_prefix_of(p1.interner@)
    &&& p0.pos() <= p1.pos()
    &&& (p1.pos() == p0.pos() ==> (p1.current == p0.current || tok_kind(p1.current)
        == TokenV::EOF))
}

/// The instructions a step appended.
spec fn emitted(p0: Parser, p1: Parser) -> Seq<Instruction> {
    p1.chunk.instructions@.skip(p0.chunk.instructions@.len() as int)
}

/// The appended instructions compile an expression: expression opcodes
/// only, leaving exactly one value on the stack.
spec fn expr_result(p0: Parser, p1: Parser) -> bool {
    &&& expr_code(emitted(p0, p1))
    &&& balanced_from(emitted(p0, p1), 0) == Some(1int)
}

/// The shape a compiled statement leaves: balanced to depth zero, or a
/// trailing expression's single value at the very end of the source.
spec fn stmt_shape(p0: Parser, p1: Parser) -> bool {
    &&& no_return(emitted(p0, p1))
    &&& (balanced_from(emitted(p0, p1), 0) == Some(0int) || (balanced_from(emitted(p0, p1), 0)
        == Some(1int) && tok_kind(p1.current) == TokenV::EOF))
}

/// The shape an expression statement leaves: expression code and then
/// exactly one `Pop`, or a kept trailing expression.
spec fn expr_stmt_shape(p0: Parser, p1: Parser) -> bool {
    let seg = emitted(p0, p1);
    ||| (seg.len() >= 1 && seg.last().code == OpCode::Pop && expr_code(seg.drop_last())
        && balanced_from(seg, 0) == Some(0int))
    ||| (expr_code(seg) && balanced_from(seg, 0) == Some(1int) && tok_kind(p1.current)
        == TokenV::EOF)
}

/// Expression code followed by one closing instruction other than
/// `Return` never terminates the chunk.
proof fn lemma_stmt_seg_no_return(seg: Seq<Instruction>)
    requires
        seg.len() >= 1,
        !(seg.last().code matches OpCode::Return),
        expr_code(seg.drop_last()),
    ensures
        no_return(seg),
{
    assert forall|i: int| 0 <= i < seg.len() implies !((#[trigger] seg[i].code)
        matches OpCode::Return) by {
        if i < seg.len() - 1 {
            assert(seg.drop_last()[i] == seg[i]);
            assert(expr_op(seg[i].code));
        }
    }
}

/// Expression code never terminates the chunk.
proof fn lemma_expr_code_no_return(seg: Seq<Instruction>)
    requires
        expr_code(seg),
    ensures
        no_return(seg),
{
}

/// Return-free segments stay return-free under concatenation.
proof fn lemma_no_return_concat(a: Seq<Instruction>, b: Seq<Instruction>)
    requires
        no_return(a),
        no_return(b),
    ensures
        no_return(a + b),
{
    assert forall|i: int| 0 <= i < (a + b).len() implies !((#[trigger] (a + b)[i].code)
        matches OpCode::Return) by {
        if i < a.len() {
            assert((a + b)[i] == a[i]);
        } else {
            assert((a + b)[i] == b[i - a.len()]);
        }
    }
}

/// An expression statement's shape is a statement shape.
proof fn lemma_expr_stmt_no_return(p0: Parser, p1: Parser)
    requires
        expr_stmt_shape(p0, p1),
    ensures
        stmt_shape(p0, p1),
{
    let seg = emitted(p0, p1);
    if seg.len() >= 1 && seg.last().code == OpCode::Pop && expr_code(seg.drop_last())
        && balanced_from(seg, 0) == Some(0int) {
        assert forall|i: int| 0 <= i < seg.len() implies !((#[trigger] seg[i].code)
            matches OpCode::Return) by {
            if i < seg.len() - 1 {
                assert(seg.drop_last()[i] == seg[i]);
                assert(expr_op(seg[i].code));
            }
        }
    } else {
        lemma_expr_code_no_return(seg);
    }
}

/// The step consumed nothing.
spec fn final_pos_eq(p0: Parser, p1: Parser) -> bool {
    p1.pos() == p0.pos()
}

/// Prefixes compose.
proof fn lemma_prefix_trans<T>(a: Seq<T>, b: Seq<T>, c: Seq<T>)
    requires
        a.is_prefix_of(b),
        b.is_prefix_of(c),
    ensures
        a.is_prefix_of(c),
{
    assert(a =~= c.subrange(0, a.len() as int));
}

/// Splitting an append-only history at an intermediate point splits the
/// emitted instructions.
proof fn lemma_emitted_concat(p0: Parser, p1: Parser, p2: Parser)
    requires
        p0.chunk.instructions@.is_prefix_of(p1.chunk.instructions@),
        p1.chunk.instructions@.is_prefix_of(p2.chunk.instructions@),
    ensures
        p0.chunk.instructions@.is_prefix_of(p2.chunk.instructions@),
        emitted(p0, p2) == emitted(p0, p1) + emitted(p1, p2),
{
    assert(emitted(p0, p2) =~= emitted(p0, p1) + emitted(p1, p2));
}

/// Expression code stays expression code under concatenation.
proof fn lemma_expr_code_concat(a: Seq<Instruction>, b: Seq<Instruction>)
    requires
        expr_code(a),
        expr_code(b),
    ensures
        expr_code(a + b),
{
    assert forall|i: int| 0 <= i < (a + b).len() implies expr_op(#[trigger] (a + b)[i].code) by {
        if i < a.len() {
            assert((a + b)[i] == a[i]);
        } else {
            assert((a + b)[i] == b[i - a.len()]);
        }
    }
}

impl Parser {
    /// Compile a number literal, from the token just consumed.
    fn number(&mut self) -> (r: Result<(), ParserError>)
        requires
            old(self).pinv(),
            old(self).previous matches Some(_),
        ensures
            frame(*old(self), *final(self)),
            final(self).pos() == old(self).pos(),
            final(self).current == old(self).current,
            final(self).previous == old(self).previous,
            r matches Ok(_) ==> expr_result(*old(self), *final(self)),
            refines(final(self).pstate(), r, spec_number(old(self).pstate())),
    {
        let ghost g0 = *self;
        let bits = match &self.previous {
            Some(t) => match &t.token_type {
                TokenType::Number(n) => Some(*n),
                _ => None,
            },
            None => None,
        };
        match bits {
            Some(n) => {
                self.emit_constant(Value::Number(n));
                proof {
                    let seg = emitted(g0, *self);
                    assert(seg =~= seq![
                        Instruction {
                            code: OpCode::Constant(g0.chunk.constants@.len() as usize),
                            line: tok_line(g0.previous),
                        },
                    ]);
                    lemma_balanced_one(seg[0], 0);
                    assert(g0.chunk.instructions@.is_prefix_of(self.chunk.instructions@));
                    assert(g0.chunk.constants@.is_prefix_of(self.chunk.constants@));
                    assert(self.pstate() =~= spec_number(g0.pstate()).0);
                }
                Ok(())
            },
            None => Err(self.error_at_current("Expected number.")),
        }
    }

    /// Compile a string literal: intern its content and load the symbol.
    fn string(&mut self) -> (r: Result<(), ParserError>)
        requires
            old(self).pinv(),
            old(self).previous matches Some(_),
            tok_kind(old(self).previous) matches TokenV::String(_),
        ensures
            frame(*old(self), *final(self)),
            final(self).pos() == old(self).pos(),
            final(self).current == old(self).current,
            final(self).previous == old(self).previous,
            r matches Ok(_) ==> expr_result(*old(self), *final(self)),
            refines(final(self).pstate(), r, spec_string(old(self).pstate())),
    {
        let ghost g0 = *self;
        let text = match &self.previous {
            Some(t) => match &t.token_type {
                TokenType::String(s) => s.clone(),
                _ => String::new(),
            },
            None => String::new(),
        };
        let id = self.interner.intern(text.as_str());
        self.emit_constant(Value::String(id));
        proof {
            let seg = emitted(g0, *self);
            assert(seg =~= seq![
                Instruction {
                    code: OpCode::Constant(g0.chunk.constants@.len() as usize),
                    line: tok_line(g0.previous),
                },
            ]);
            lemma_balanced_one(seg[0], 0);
            assert(g0.chunk.instructions@.is_prefix_of(self.chunk.instructions@));
            assert(g0.chunk.constants@.is_prefix_of(self.chunk.constants@));
            if crate::interner::spec_find(g0.interner@, text@) >= 0 {
                assert(g0.interner@.is_prefix_of(self.interner@));
            } else {
                assert(g0.interner@.is_prefix_of(g0.interner@.push(text@)));
            }
            assert(self.pstate() =~= spec_string(g0.pstate()).0);
        }
        Ok(())
    }

    /// Compile `nil`, `true` or `false`, from the token just consumed.
    fn literal(&mut self) -> (r: Result<(), ParserError>)
        requires
            old(self).pinv(),
            old(self).previous matches Some(_),
            tok_kind(old(self).previous) == TokenV::Nil || tok_kind(old(self).previous)
                == TokenV::True || tok_kind(old(self).previous) == TokenV::False,
        ensures
            frame(*old(self), *final(self)),
            final(self).pos() == old(self).pos(),
            final(self).current == old(self).current,
            final(self).previous == old(self).previous,
            r matches Ok(_) ==> expr_result(*old(self), *final(self)),
            refines(final(self).pstate(), r, spec_literal(old(self).pstate())),
    {
        let ghost g0 = *self;
        let code = match &self.previous {
            Some(t) => match &t.token_type {
                TokenType::True => OpCode::True,
                TokenType::False => OpCode::False,
                _ => OpCode::Nil,
            },
            None => OpCode::Nil,
        };
        self.emit_byte(code);
        proof {
            let seg = emitted(g0, *self);
            assert(seg =~= seq![
                Instruction { code, line: tok_line(g0.previous) },
            ]);
            lemma_balanced_one(seg[0], 0);
            assert(g0.chunk.instructions@.is_prefix_of(self.chunk.instructions@));
            assert(self.pstate() =~= spec_literal(g0.pstate()).0);
        }
        Ok(())
    }

    /// Compile a parenthesized expression.
    fn grouping(&mut self) -> (r: Result<(), ParserError>)
        requires
            old(self).pinv(),
        ensures
            frame(*old(self), *final(self)),
            r matches Ok(_) ==> expr_result(*old(self), *final(self)),
            r matches Ok(_) ==> final(self).previous matches Some(_),
            refines(final(self).pstate(), r, spec_grouping(old(self).pstate())),
        decreases self.rem(), self.cur_measure(), 3int,
    {
        let ghost g0 = *self;
        match self.expression() {
            Ok(_) => {},
            Err(e) => {
                return Err(e);
            },
        }
        let ghost g1 = *self;
        match self.consume(TokenType::RightParen, "Expect ')' after expression.") {
            Ok(_) => {},
            Err(e) => {
                return Err(e);
            },
        }
        proof {
            assert(emitted(g0, *self) == emitted(g0, g1));
        }
        Ok(())
    }

    /// Compile a unary operator and its operand.
    fn unary(&mut self) -> (r: Result<(), ParserError>)
        requires
            old(self).pinv(),
            old(self).previous matches Some(_),
            tok_kind(old(self).previous) == TokenV::Bang || tok_kind(old(self).previous)
                == TokenV::Minus,
        ensures
            frame(*old(self), *final(self)),
            r matches Ok(_) ==> expr_result(*old(self), *final(self)),
            r matches Ok(_) ==> final(self).previous matches Some(_),
            refines(final(self).pstate(), r, spec_unary(old(self).pstate())),
        decreases self.rem(), self.cur_measure(), 3int,
    {
        let ghost g0 = *self;
        let is_bang = match &self.previous {
            Some(t) => match &t.token_type {
                TokenType::Bang => true,
                _ => false,
            },
            None => false,
        };
        match self.parse_precedence(Precedence::Unary) {
            Ok(_) => {},
            Err(e) => {
                return Err(e);
            },
        }
        let ghost g1 = *self;
        if is_bang {
            self.emit_byte(OpCode::Not);
        } else {
            self.emit_byte(OpCode::Negate);
        }
        proof {
            let op = if is_bang {
                OpCode::Not
            } else {
                OpCode::Negate
            };
            let tail = seq![Instruction { code: op, line: tok_line(g1.previous) }];
            assert(emitted(g1, *self) =~= tail);
            lemma_emitted_concat(g0, g1, *self);
            lemma_balanced_one(tail[0], 1);
            lemma_balanced_concat(emitted(g0, g1), tail, 0);
            lemma_expr_code_concat(emitted(g0, g1), tail);
            assert(self.pstate() =~= spec_emit(g1.pstate(), op));
        }
        Ok(())
    }

    /// Compile a binary operator's right operand and the operator.
    fn binary(&mut self) -> (r: Result<(), ParserError>)
        requires
            old(self).pinv(),
            old(self).previous matches Some(_),
            is_binary_op(tok_kind(old(self).previous)),
        ensures
            frame(*old(self), *final(self)),
            r matches Ok(_) ==> has_prefix(tok_kind(old(self).current)),
            r matches Ok(_) ==> expr_code(emitted(*old(self), *final(self))) && balanced_from(
                emitted(*old(self), *final(self)),
                1,
            ) == Some(1int),
            r matches Ok(_) ==> final(self).previous matches Some(_),
            refines(final(self).pstate(), r, spec_binary(old(self).pstate())),
        decreases self.rem(), self.cur_measure(), 3int,
    {
        let ghost g0 = *self;
        let cls = match &self.previous {
            Some(t) => binary_class(&t.token_type),
            None => 0,
        };
        let prec = match &self.previous {
            Some(t) => infix_precedence(&t.token_type),
            None => Precedence::Lowest,
        };
        proof {
            assert(spec_prec_value(spec_prec_of((spec_infix_prec(kind_m(g0.pstate().prev))
                + 1) as u8)) == spec_infix_prec(kind_m(g0.pstate().prev)) + 1);
        }
        match self.parse_precedence(prec.add(1)) {
            Ok(_) => {},
            Err(e) => {
                return Err(e);
            },
        }
        let ghost g1 = *self;
        proof {
            lemma_balanced_shift(emitted(g0, g1), 0, 1);
            assert(g1.pstate() == spec_parse_precedence(
                g0.pstate(),
                (spec_infix_prec(kind_m(g0.pstate().prev)) + 1) as u8,
            ).0);
        }
        if cls == 1 {
            self.emit_byte(OpCode::Equal);
            let ghost g2 = *self;
            self.emit_byte(OpCode::Not);
            proof {
                let tail = seq![
                    Instruction { code: OpCode::Equal, line: tok_line(g1.previous) },
                    Instruction { code: OpCode::Not, line: tok_line(g2.previous) },
                ];
                assert(emitted(g1, *self) =~= tail);
                assert(tail.drop_first() =~= seq![tail[1]]);
                lemma_balanced_one(tail[1], 1);
                lemma_emitted_concat(g0, g1, *self);
                lemma_balanced_concat(emitted(g0, g1), tail, 1);
                lemma_expr_code_concat(emitted(g0, g1), tail);
                assert(self.pstate() =~= spec_operator_tail(
                    g1.pstate(),
                    kind_m(g0.pstate().prev),
                ));
            }
        } else if cls == 2 {
            self.emit_byte(OpCode::Equal);
            proof {
                self.finish_single_op(g0, g1, OpCode::Equal);
                assert(self.pstate() =~= spec_operator_tail(
                    g1.pstate(),
                    kind_m(g0.pstate().prev),
                ));
            }
        } else if cls == 3 {
            self.emit_byte(OpCode::Greater);
            proof {
                self.finish_single_op(g0, g1, OpCode::Greater);
                assert(self.pstate() =~= spec_operator_tail(
                    g1.pstate(),
                    kind_m(g0.pstate().prev),
                ));
            }
        } else if cls == 4 {
            self.emit_byte(OpCode::Less);
            let ghost g2 = *self;
            self.emit_byte(OpCode::Not);
            proof {
                let tail = seq![
                    Instruction { code: OpCode::Less, line: tok_line(g1.previous) },
                    Instruction { code: OpCode::Not, line: tok_line(g2.previous) },
                ];
                assert(emitted(g1, *self) =~= tail);
                assert(tail.drop_first() =~= seq![tail[1]]);
                lemma_balanced_one(tail[1], 1);
                lemma_emitted_concat(g0, g1, *self);
                lemma_balanced_concat(emitted(g0, g1), tail, 1);
                lemma_expr_code_concat(emitted(g0, g1), tail);
                assert(self.pstate() =~= spec_operator_tail(
                    g1.pstate(),
                    kind_m(g0.pstate().prev),
                ));
            }
        } else if cls == 5 {
            self.emit_byte(OpCode::Less);
            proof {
                self.finish_single_op(g0, g1, OpCode::Less);
                assert(self.pstate() =~= spec_operator_tail(
                    g1.pstate(),
                    kind_m(g0.pstate().prev),
                ));
            }
        } else if cls == 6 {
            self.emit_byte(OpCode::Greater);
            let ghost g2 = *self;
            self.emit_byte(OpCode::Not);
            proof {
                let tail = seq![
                    Instruction { code: OpCode::Greater, line: tok_line(g1.previous) },
                    Instruction { code: OpCode::Not, line: tok_line(g2.previous) },
                ];
                assert(emitted(g1, *self) =~= tail);
                assert(tail.drop_first() =~= seq![tail[1]]);
                lemma_balanced_one(tail[1], 1);
                lemma_emitted_concat(g0, g1, *self);
                lemma_balanced_concat(emitted(g0, g1), tail, 1);
                lemma_expr_code_concat(emitted(g0, g1), tail);
                assert(self.pstate() =~= spec_operator_tail(
                    g1.pstate(),
                    kind_m(g0.pstate().prev),
                ));
            }
        } else if cls == 7 {
            self.emit_byte(OpCode::Add);
            proof {
                self.finish_single_op(g0, g1, OpCode::Add);
                assert(self.pstate() =~= spec_operator_tail(
                    g1.pstate(),
                    kind_m(g0.pstate().prev),
                ));
            }
        } else if cls == 8 {
            self.emit_byte(OpCode::Subtract);
            proof {
                self.finish_single_op(g0, g1, OpCode::Subtract);
                assert(self.pstate() =~= spec_operator_tail(
                    g1.pstate(),
                    kind_m(g0.pstate().prev),
                ));
            }
        } else if cls == 9 {
            self.emit_byte(OpCode::Multiply);
            proof {
                self.finish_single_op(g0, g1, OpCode::Multiply);
                assert(self.pstate() =~= spec_operator_tail(
                    g1.pstate(),
                    kind_m(g0.pstate().prev),
                ));
            }
        } else {
            self.emit_byte(OpCode::Divide);
            proof {
                self.finish_single_op(g0, g1, OpCode::Divide);
                assert(self.pstate() =~= spec_operator_tail(
                    g1.pstate(),
                    kind_m(g0.pstate().prev),
                ));
            }
        }
        Ok(())
    }

    /// The depth bookkeeping for a binary operator emitted as one
    /// instruction after its right operand.
    proof fn finish_single_op(&self, g0: Parser, g1: Parser, op: OpCode)
        requires
            g0.chunk.instructions@.is_prefix_of(g1.chunk.instructions@),
            self.chunk.instructions@ == g1.chunk.instructions@.push(
                Instruction { code: op, line: tok_line(g1.previous) },
            ),
            expr_code(emitted(g0, g1)),
            expr_op(op),
            crate::chunk::op_pops(op) == 2,
            crate::chunk::op_pushes(op) == 1,
            balanced_from(emitted(g0, g1), 1) == Some(2int),
        ensures
            expr_code(emitted(g0, *self)),
            balanced_from(emitted(g0, *self), 1) == Some(1int),
    {
        assert(g1.chunk.instructions@.is_prefix_of(self.chunk.instructions@)) by {
            assert(g1.chunk.instructions@ =~= self.chunk.instructions@.subrange(
                0,
                g1.chunk.instructions@.len() as int,
            ));
        }
        let tail = emitted(g1, *self);
        assert(tail =~= seq![Instruction { code: op, line: tok_line(g1.previous) }]);
        lemma_balanced_one(tail[0], 2);
        lemma_emitted_concat(g0, g1, *self);
        lemma_balanced_concat(emitted(g0, g1), tail, 1);
        lemma_expr_code_concat(emitted(g0, g1), tail);
    }

    /// Parse and compile everything at the given precedence or tighter:
    /// a prefix expression, then every infix operator that binds at least
    /// as strongly.
    fn parse_precedence(&mut self, precedence: Precedence) -> (r: Result<(), ParserError>)
        requires
            old(self).pinv(),
            spec_prec_value(precedence) >= 1,
        ensures
            frame(*old(self), *final(self)),
            r matches Ok(_) ==> expr_result(*old(self), *final(self)),
            r matches Ok(_) ==> has_prefix(tok_kind(old(self).current)),
            r matches Ok(_) ==> final(self).previous matches Some(_),
            refines(
                final(self).pstate(),
                r,
                spec_parse_precedence(old(self).pstate(), spec_prec_value(precedence)),
            ),
        decreases self.rem(), self.cur_measure(), 1int,
    {
        let ghost g0 = *self;
        match self.advance() {
            Ok(_) => {},
            Err(e) => {
                return Err(e);
            },
        }
        let ghost g1 = *self;
        let cls = match &self.previous {
            Some(t) => prefix_class(&t.token_type),
            None => 0,
        };
        if cls == 0 {
            return Err(self.error("Expect expression."));
        }
        proof {
            assert(has_prefix(tok_kind(old(self).current)));
            assert(old(self).cur_measure() == 1);
            if self.pos() == old(self).pos() {
                assert(self.cur_measure() == 0);
                assert(self.rem() == old(self).rem());
            } else {
                assert(self.rem() < old(self).rem());
            }
            assert(decreases_to!(
                old(self).rem(), old(self).cur_measure(), 1int =>
                self.rem(), self.cur_measure(), 3int
            ));
        }
        let pr = if cls == 1 {
            self.grouping()
        } else if cls == 2 {
            self.unary()
        } else if cls == 3 {
            self.number()
        } else if cls == 4 {
            self.string()
        } else {
            self.literal()
        };
        match pr {
            Ok(_) => {},
            Err(e) => {
                return Err(e);
            },
        }
        let ghost gp = *self;
        let ghost pv = spec_prec_value(precedence);
        proof {
            lemma_emitted_concat(g0, g1, gp);
            assert(emitted(g0, g1) =~= Seq::<Instruction>::empty());
            assert(emitted(g0, gp) =~= emitted(g1, gp));
            assert(steps_down(g0.pstate(), g1.pstate()));
            assert(steps_down(g0.pstate(), gp.pstate()));
            assert(spec_parse_precedence(g0.pstate(), pv) == spec_infix(gp.pstate(), pv));
        }
        let mut done = false;
        while !done
            invariant
                self.pinv(),
                g0.pinv(),
                g0 == *old(self),
                spec_prec_value(precedence) >= 1,
                self.previous matches Some(_),
                self.src() == g0.src(),
                g0.chunk.instructions@.is_prefix_of(self.chunk.instructions@),
                g0.chunk.constants@.is_prefix_of(self.chunk.constants@),
                g0.interner@.is_prefix_of(self.interner@),
                g0.pos() <= self.pos(),
                self.pos() == g0.pos() ==> tok_kind(self.current) == TokenV::EOF,
                expr_code(emitted(g0, *self)),
                balanced_from(emitted(g0, *self), 0) == Some(1int),
                pv == spec_prec_value(precedence),
                spec_parse_precedence(g0.pstate(), pv) == spec_infix(self.pstate(), pv),
                done ==> pv > spec_infix_prec(kind_m(self.pstate().cur)),
            decreases self.rem(), self.cur_measure(), (if done {
                0int
            } else {
                1int
            }),
        {
            let cont = match &self.current {
                Some(t) => {
                    let p = infix_precedence(&t.token_type);
                    precedence.value() <= p.value()
                },
                None => false,
            };
            if cont {
                let ghost h0 = *self;
                match self.advance() {
                    Ok(_) => {},
                    Err(e) => {
                        return Err(e);
                    },
                }
                let ghost h1 = *self;
                proof {
                    assert(is_binary_op(tok_kind(h0.current)));
                    assert(h0.pos() > g0.pos());
                    if self.pos() == h0.pos() {
                        assert(self.cur_measure() == 0);
                    } else {
                        assert(self.rem() < h0.rem());
                    }
                    assert(decreases_to!(
                        old(self).rem(), old(self).cur_measure(), 1int =>
                        self.rem(), self.cur_measure(), 3int
                    ));
                }
                let br = self.binary();
                match br {
                    Ok(_) => {},
                    Err(e) => {
                        return Err(e);
                    },
                }
                proof {
                    lemma_emitted_concat(h0, h1, *self);
                    assert(emitted(h0, h1) =~= Seq::<Instruction>::empty());
                    assert(emitted(h0, *self) =~= emitted(h1, *self));
                    lemma_emitted_concat(g0, h0, *self);
                    lemma_balanced_concat(emitted(g0, h0), emitted(h0, *self), 0);
                    lemma_expr_code_concat(emitted(g0, h0), emitted(h0, *self));
                    assert(steps_down(h0.pstate(), self.pstate()));
                    assert(spec_infix(h0.pstate(), pv) == spec_infix(self.pstate(), pv));
                }
            } else {
                done = true;
            }
        }
        proof {
            assert(spec_infix(self.pstate(), pv) == (self.pstate(), None::<ErrModel>));
        }
        Ok(())
    }

    /// Consume a variable name and hand its text back.
    fn parse_variable(&mut self, error_message: &str) -> (r: Result<String, ParserError>)
        requires
            old(self).pinv(),
        ensures
            final(self).pinv(),
            final(self).src() == old(self).src(),
            final(self).chunk.instructions@ == old(self).chunk.instructions@,
            final(self).chunk.constants@ == old(self).chunk.constants@,
            final(self).interner@ == old(self).interner@,
            old(self).pos() <= final(self).pos(),
            final(self).pos() == old(self).pos() ==> (final(self).current == old(self).current
                || tok_kind(final(self).current) matches TokenV::EOF),
            r matches Ok(_) ==> tok_kind(old(self).current) matches TokenV::Identifier(_)
                && final(self).previous == old(self).current,
            ({
                let (s1, e, name) = spec_parse_variable(old(self).pstate(), error_message@);
                &&& final(self).pstate() == s1
                &&& match r {
                    Ok(n) => (e matches Option::<ErrModel>::None) && n@ == name,
                    Err(er) => e == Some(err_model(er)),
                }
            }),
    {
        match self.consume(TokenType::Identifier(String::new()), error_message) {
            Ok(_) => {},
            Err(e) => {
                return Err(e);
            },
        }
        let name = match &self.previous {
            Some(t) => match &t.token_type {
                TokenType::Identifier(s) => s.clone(),
                _ => String::new(),
            },
            None => String::new(),
        };
        Ok(name)
    }

    /// Intern a variable's name and record it in the constant table;
    /// the index of the recorded name comes back.
    fn identifier_constant(&mut self, name: &str) -> (g: usize)
        requires
            old(self).pinv(),
        ensures
            final(self).pinv(),
            final(self).scanner.model() == old(self).scanner.model(),
            final(self).src() == old(self).src(),
            final(self).pos() == old(self).pos(),
            final(self).current == old(self).current,
            final(self).previous == old(self).previous,
            old(self).interner@.is_prefix_of(final(self).interner@),
            final(self).chunk.instructions@ == old(self).chunk.instructions@,
            g == old(self).chunk.constants@.len(),
            final(self).chunk.constants@.len() == g + 1,
            old(self).chunk.constants@.is_prefix_of(final(self).chunk.constants@),
            final(self).chunk.constants@.last() matches Value::String(_),
            ({
                let (m2, sym) = spec_intern(old(self).interner@, name@);
                &&& final(self).interner@ == m2
                &&& final(self).chunk.constants@ == old(self).chunk.constants@.push(
                    Value::String(sym as usize),
                )
            }),
    {
        let ghost g0 = *self;
        let id = self.interner.intern(name);
        let constant = self.chunk.add_constant(Value::String(id));
        proof {
            if crate::interner::spec_find(g0.interner@, name@) >= 0 {
                assert(g0.interner@.is_prefix_of(self.interner@));
            } else {
                assert(g0.interner@.is_prefix_of(g0.interner@.push(name@)));
            }
            assert(g0.chunk.constants@.is_prefix_of(self.chunk.constants@)) by {
                assert(g0.chunk.constants@ =~= self.chunk.constants@.subrange(
                    0,
                    g0.chunk.constants@.len() as int,
                ));
            }
        }
        constant
    }

    /// Emit the binding of a parsed variable.
    fn define_variable(&mut self, global: usize)
        requires
            old(self).pinv(),
            old(self).previous matches Some(_),
            global < old(self).chunk.constants@.len(),
        ensures
            final(self).pinv(),
            final(self).scanner.model() == old(self).scanner.model(),
            final(self).src() == old(self).src(),
            final(self).pos() == old(self).pos(),
            final(self).current == old(self).current,
            final(self).previous == old(self).previous,
            final(self).interner@ == old(self).interner@,
            final(self).chunk.constants@ == old(self).chunk.constants@,
            final(self).chunk.instructions@ == old(self).chunk.instructions@.push(
                Instruction {
                    code: OpCode::DefineGlobal(global),
                    line: tok_line(old(self).previous),
                },
            ),
    {
        self.emit_byte(OpCode::DefineGlobal(global));
    }

    /// Compile `var IDENT ("=" expression)? ";"`: the initializer (or
    /// `nil`), then the binding of the name.
    fn var_declaration(&mut self) -> (r: Result<(), ParserError>)
        requires
            old(self).pinv(),
        ensures
            frame(*old(self), *final(self)),
            r matches Ok(_) ==> balanced_from(emitted(*old(self), *final(self)), 0) == Some(0int),
            r matches Ok(_) ==> no_return(emitted(*old(self), *final(self))),
            r matches Ok(_) ==> final(self).pos() > old(self).pos(),
            r matches Ok(_) ==> final(self).previous matches Some(_),
            refines(final(self).pstate(), r, spec_var_declaration(old(self).pstate())),
    {
        let ghost g0 = *self;
        let name = match self.parse_variable("Expect variable name.") {
            Ok(n) => n,
            Err(e) => {
                return Err(e);
            },
        };
        let ghost g1 = *self;
        let assigned = match self.match_token(TokenType::Equal) {
            Ok(b) => b,
            Err(e) => {
                return Err(e);
            },
        };
        if assigned {
            match self.expression() {
                Ok(_) => {},
                Err(e) => {
                    return Err(e);
                },
            }
        } else {
            let ghost gm = *self;
            self.emit_byte(OpCode::Nil);
            proof {
                assert(emitted(g1, *self) =~= seq![
                    Instruction { code: OpCode::Nil, line: tok_line(g1.previous) },
                ]);
                lemma_balanced_one(emitted(g1, *self)[0], 0);
                assert(self.pstate() =~= spec_emit(gm.pstate(), OpCode::Nil));
            }
        }
        let ghost g2 = *self;
        proof {
            assert(balanced_from(emitted(g1, g2), 0) == Some(1int));
        }
        match self.consume(TokenType::Semicolon, "Expect ';' after variable declaration.") {
            Ok(_) => {},
            Err(e) => {
                return Err(e);
            },
        }
        let ghost g3 = *self;
        let global = self.identifier_constant(name.as_str());
        let ghost g4 = *self;
        self.define_variable(global);
        proof {
            assert(self.pstate() =~= spec_emit(g4.pstate(), OpCode::DefineGlobal(global)));
            assert(g4.pstate() =~= (ParseState {
                consts: g3.pstate().consts.push(
                    Value::String(spec_intern(g3.pstate().interner, name@).1 as usize),
                ),
                interner: spec_intern(g3.pstate().interner, name@).0,
                ..g3.pstate()
            }));
            assert(emitted(g4, *self) =~= seq![
                Instruction { code: OpCode::DefineGlobal(global), line: tok_line(g4.previous) },
            ]);
            lemma_balanced_one(emitted(g4, *self)[0], 1);
            assert(emitted(g1, g3) == emitted(g1, g2));
            assert(emitted(g1, g4) == emitted(g1, g2));
            lemma_emitted_concat(g1, g4, *self);
            lemma_balanced_concat(emitted(g1, g4), emitted(g4, *self), 0);
            assert(emitted(g0, *self) == emitted(g1, *self));
            assert(balanced_from(emitted(g0, *self), 0) == Some(0int));
            assert(emitted(g0, *self).drop_last() =~= emitted(g1, g4));
            lemma_stmt_seg_no_return(emitted(g0, *self));
            lemma_prefix_trans(
                g0.chunk.constants@,
                g3.chunk.constants@,
                self.chunk.constants@,
            );
            if final_pos_eq(g0, *self) {
                assert(g1.pos() == g0.pos());
                assert(g2.pos() == g1.pos());
                if assigned {
                    assert(same_kind(tok_kind(g1.current), TokenV::Equal));
                    assert(tok_kind(g1.current) matches TokenV::Identifier(_)
                        || tok_kind(g1.current) matches TokenV::EOF
                        || g1.current == g0.current);
                    assert(false);
                } else {
                    assert(same_kind(tok_kind(g2.current), TokenV::Semicolon));
                    assert(g2.current == g1.current || tok_kind(g2.current) matches TokenV::EOF);
                    assert(g1.current == g0.current || tok_kind(g1.current) matches TokenV::EOF);
                    assert(tok_kind(g0.current) matches TokenV::Identifier(_));
                    assert(false);
                }
            }
        }
        Ok(())
    }

    /// Compile `expression ";"`, discarding the value; at the very end of
    /// the source a bare expression is kept as the program's result.
    fn expression_statement(&mut self) -> (r: Result<(), ParserError>)
        requires
            old(self).pinv(),
        ensures
            frame(*old(self), *final(self)),
            r matches Ok(_) ==> expr_stmt_shape(*old(self), *final(self)),
            r matches Ok(_) ==> final(self).pos() > old(self).pos() || tok_kind(
                final(self).current,
            ) matches TokenV::EOF,
            r matches Ok(_) ==> final(self).previous matches Some(_),
            refines(final(self).pstate(), r, spec_expression_statement(old(self).pstate())),
    {
        let ghost g0 = *self;
        match self.expression() {
            Ok(_) => {},
            Err(e) => {
                return Err(e);
            },
        }
        let ghost g1 = *self;
        let semi = match self.match_token(TokenType::Semicolon) {
            Ok(b) => b,
            Err(e) => {
                return Err(e);
            },
        };
        if semi {
            let ghost g2 = *self;
            self.emit_byte(OpCode::Pop);
            proof {
                assert(self.pstate() =~= spec_emit(g2.pstate(), OpCode::Pop));
                assert(emitted(g2, *self) =~= seq![
                    Instruction { code: OpCode::Pop, line: tok_line(g2.previous) },
                ]);
                lemma_balanced_one(emitted(g2, *self)[0], 1);
                assert(emitted(g1, g2) == emitted(g1, g1));
                lemma_emitted_concat(g1, g2, *self);
                assert(emitted(g1, g1) =~= Seq::<Instruction>::empty());
                assert(emitted(g1, *self) =~= emitted(g2, *self));
                lemma_emitted_concat(g0, g1, *self);
                lemma_balanced_concat(emitted(g0, g1), emitted(g1, *self), 0);
                let seg = emitted(g0, *self);
                assert(seg.last().code == OpCode::Pop);
                assert(seg.drop_last() =~= emitted(g0, g1));
                if final_pos_eq(g0, *self) {
                    assert(same_kind(tok_kind(g1.current), TokenV::Semicolon));
                    assert(g1.current == g0.current || tok_kind(g1.current) matches TokenV::EOF);
                    assert(has_prefix(tok_kind(g0.current)));
                    assert(false);
                }
            }
            Ok(())
        } else {
            if self.check(&TokenType::EOF) {
                Ok(())
            } else {
                Err(self.error_at_current("Expect ';' after expression."))
            }
        }
    }

    /// Compile `print expression ";"`.
    fn print_statement(&mut self) -> (r: Result<(), ParserError>)
        requires
            old(self).pinv(),
        ensures
            frame(*old(self), *final(self)),
            r matches Ok(_) ==> balanced_from(emitted(*old(self), *final(self)), 0) == Some(0int),
            r matches Ok(_) ==> no_return(emitted(*old(self), *final(self))),
            r matches Ok(_) ==> final(self).previous matches Some(_),
            r matches Ok(_) ==> has_prefix(tok_kind(old(self).current)),
            refines(final(self).pstate(), r, spec_print_statement(old(self).pstate())),
    {
        let ghost g0 = *self;
        match self.expression() {
            Ok(_) => {},
            Err(e) => {
                return Err(e);
            },
        }
        let ghost g1 = *self;
        match self.consume(TokenType::Semicolon, "Expect ';' after value.") {
            Ok(_) => {},
            Err(e) => {
                return Err(e);
            },
        }
        let ghost g2 = *self;
        self.emit_byte(OpCode::Print);
        proof {
            assert(self.pstate() =~= spec_emit(g2.pstate(), OpCode::Print));
            assert(emitted(g2, *self) =~= seq![
                Instruction { code: OpCode::Print, line: tok_line(g2.previous) },
            ]);
            lemma_balanced_one(emitted(g2, *self)[0], 1);
            assert(emitted(g0, g2) == emitted(g0, g1));
            lemma_emitted_concat(g0, g2, *self);
            lemma_balanced_concat(emitted(g0, g2), emitted(g2, *self), 0);
            assert(emitted(g0, *self).drop_last() =~= emitted(g0, g2));
            lemma_stmt_seg_no_return(emitted(g0, *self));
        }
        Ok(())
    }

    /// Skip to the likely start of the next declaration after an error.
    fn synchronize(&mut self) -> (r: Result<(), ParserError>)
        requires
            old(self).pinv(),
        ensures
            final(self).pinv(),
            final(self).src() == old(self).src(),
            final(self).chunk.instructions@ == old(self).chunk.instructions@,
            final(self).chunk.constants@ == old(self).chunk.constants@,
            final(self).interner@ == old(self).interner@,
            old(self).pos() <= final(self).pos(),
            final(self).pos() == old(self).pos() ==> (final(self).current == old(self).current
                || tok_kind(final(self).current) matches TokenV::EOF),
            refines(final(self).pstate(), r, spec_synchronize(old(self).pstate())),
    {
        let ghost g0 = *self;
        let mut done = false;
        while !done
            invariant
                self.pinv(),
                g0 == *old(self),
                self.src() == g0.src(),
                self.chunk.instructions@ == g0.chunk.instructions@,
                self.chunk.constants@ == g0.chunk.constants@,
                self.interner@ == g0.interner@,
                g0.pos() <= self.pos(),
                self.pos() == g0.pos() ==> (self.current == g0.current || tok_kind(self.current)
                    matches TokenV::EOF),
                spec_synchronize(g0.pstate()) == spec_synchronize(self.pstate()),
                done ==> (same_kind(kind_m(self.pstate().cur), TokenV::EOF) || kind_m(
                    self.pstate().prev,
                ) == TokenV::Semicolon || sync_boundary(kind_m(self.pstate().cur))),
            decreases self.rem(), self.cur_measure(), (if done {
                0int
            } else {
                1int
            }),
        {
            if self.check(&TokenType::EOF) {
                done = true;
            } else {
                let at_semi = match &self.previous {
                    Some(t) => match &t.token_type {
                        TokenType::Semicolon => true,
                        _ => false,
                    },
                    None => false,
                };
                let at_boundary = self.check(&TokenType::Class) || self.check(&TokenType::Fun)
                    || self.check(&TokenType::Var) || self.check(&TokenType::For) || self.check(
                    &TokenType::If,
                ) || self.check(&TokenType::While) || self.check(&TokenType::Print) || self.check(
                    &TokenType::Return,
                );
                if at_semi || at_boundary {
                    done = true;
                } else {
                    let ghost h0 = *self;
                    match self.advance() {
                        Ok(_) => {},
                        Err(e) => {
                            return Err(e);
                        },
                    }
                    proof {
                        assert(steps_down(h0.pstate(), self.pstate()));
                        assert(spec_synchronize(h0.pstate()) == spec_synchronize(
                            self.pstate(),
                        ));
                    }
                }
            }
        }
        proof {
            assert(spec_synchronize(self.pstate()) == (self.pstate(), None::<ErrModel>));
        }
        Ok(())
    }

    /// Compile one declaration: a `var` declaration or a statement; on a
    /// parse error, skip to the next declaration boundary and report the
    /// original error.
    fn declaration(&mut self) -> (r: Result<(), ParserError>)
        requires
            old(self).pinv(),
        ensures
            frame(*old(self), *final(self)),
            r matches Ok(_) ==> stmt_shape(*old(self), *final(self)),
            r matches Ok(_) ==> final(self).pos() > old(self).pos() || tok_kind(
                final(self).current,
            ) matches TokenV::EOF,
            r matches Ok(_) ==> final(self).previous matches Some(_),
            refines(final(self).pstate(), r, spec_declaration(old(self).pstate())),
    {
        let ghost g0 = *self;
        let is_var = match self.match_token(TokenType::Var) {
            Ok(b) => b,
            Err(e) => {
                return Err(e);
            },
        };
        let ghost g1 = *self;
        let inner = if is_var {
            self.var_declaration()
        } else {
            self.statement()
        };
        match inner {
            Ok(_) => {
                proof {
                    if is_var {
                        assert(emitted(g0, *self) == emitted(g1, *self));
                        if final_pos_eq(g0, *self) {
                            assert(false);
                        }
                    }
                }
                Ok(())
            },
            Err(e) => {
                match self.synchronize() {
                    Ok(_) => {},
                    Err(e2) => {
                        return Err(e2);
                    },
                }
                Err(e)
            },
        }
    }

    /// Compile one statement: a `print` statement or an expression
    /// statement.
    fn statement(&mut self) -> (r: Result<(), ParserError>)
        requires
            old(self).pinv(),
        ensures
            frame(*old(self), *final(self)),
            r matches Ok(_) ==> stmt_shape(*old(self), *final(self)),
            r matches Ok(_) ==> final(self).pos() > old(self).pos() || tok_kind(
                final(self).current,
            ) matches TokenV::EOF,
            r matches Ok(_) ==> final(self).previous matches Some(_),
            refines(final(self).pstate(), r, spec_statement(old(self).pstate())),
    {
        let ghost g0 = *self;
        let is_print = match self.match_token(TokenType::Print) {
            Ok(b) => b,
            Err(e) => {
                return Err(e);
            },
        };
        let ghost g1 = *self;
        if is_print {
            let pr = self.print_statement();
            match pr {
                Ok(_) => {
                    proof {
                        assert(emitted(g0, *self) == emitted(g1, *self));
                        if final_pos_eq(g0, *self) {
                            assert(has_prefix(tok_kind(g1.current)));
                            assert(g1.current == g0.current || tok_kind(g1.current)
                                matches TokenV::EOF);
                            assert(same_kind(tok_kind(g0.current), TokenV::Print));
                            assert(false);
                        }
                    }
                    Ok(())
                },
                Err(e) => Err(e),
            }
        } else {
            let r = self.expression_statement();
            proof {
                if r matches Ok(_) {
                    lemma_expr_stmt_no_return(g1, *self);
                }
            }
            r
        }
    }

    /// Compile one expression.
    fn expression(&mut self) -> (r: Result<(), ParserError>)
        requires
            old(self).pinv(),
        ensures
            frame(*old(self), *final(self)),
            r matches Ok(_) ==> expr_result(*old(self), *final(self)),
            r matches Ok(_) ==> has_prefix(tok_kind(old(self).current)),
            r matches Ok(_) ==> final(self).previous matches Some(_),
            refines(final(self).pstate(), r, spec_expression(old(self).pstate())),
        decreases self.rem(), self.cur_measure(), 2int,
    {
        self.parse_precedence(Precedence::Assignment)
    }
}

/// Compile a source text into a chunk, interning literals through the
/// shared interner. On success the chunk is well formed, every string
/// constant names an interned symbol, the last instruction is `Return`,
/// and the body before it is stack-balanced: it leaves no value, or
/// exactly the one a trailing expression computes.
pub fn compile(source: &str, interner: &mut Interner) -> (r: Result<Chunk, ParserError>)
    requires
        source@.len() < usize::MAX,
        interner_wf(old(interner)@),
    ensures
        interner_wf(final(interner)@),
        old(interner)@.is_prefix_of(final(interner)@),
        ({
            let (s, e) = spec_compile(source@, old(interner)@);
            &&& final(interner)@ == s.interner
            &&& match r {
                Ok(c) => (e matches Option::<ErrModel>::None) && c.instructions@ == s.instrs
                    && c.constants@ == s.consts,
                Err(er) => e == Some(err_model(er)),
            }
        }),
        ({
            match r {
                Ok(c) => {
                    &&& chunk_wf(c.instructions@, c.constants@)
                    &&& syms_valid(c.constants@, final(interner)@.len() as int)
                    &&& c.instructions@.len() >= 1
                    &&& c.instructions@.last().code == OpCode::Return
                    &&& no_return(c.instructions@.drop_last())
                    &&& (balanced_from(c.instructions@.drop_last(), 0) == Some(0int)
                        || balanced_from(c.instructions@.drop_last(), 0) == Some(1int))
                },
                Err(_) => true,
            }
        }),
{
    let scanner = Scanner::new(source);
    let mut taken = Interner::new();
    core::mem::swap(interner, &mut taken);
    let mut parser = Parser::new(scanner, taken);
    let ghost p0 = parser;
    proof {
        assert(p0.pstate() =~= (ParseState {
            src: source@,
            pos: 0,
            line: 1,
            prev: None,
            cur: None,
            instrs: Seq::<Instruction>::empty(),
            consts: Seq::<Value>::empty(),
            interner: old(interner)@,
        }));
    }
    match parser.advance() {
        Ok(_) => {},
        Err(e) => {
            core::mem::swap(interner, &mut parser.interner);
            return Err(e);
        },
    }
    let ghost p1 = parser;
    proof {
        assert(emitted(p0, p1) =~= Seq::<Instruction>::empty());
    }
    let mut done = false;
    let mut failed: Option<ParserError> = None;
    while !done
        invariant
            parser.pinv(),
            p0.chunk.instructions@ == Seq::<Instruction>::empty(),
            p0.chunk.constants@ == Seq::<Value>::empty(),
            p0.interner@ == old(interner)@,
            p0.chunk.instructions@.is_prefix_of(parser.chunk.instructions@),
            p0.interner@.is_prefix_of(parser.interner@),
            (failed matches Option::<ParserError>::None) ==> no_return(emitted(p0, parser)),
            (failed matches Option::<ParserError>::None) ==> (balanced_from(
                emitted(p0, parser),
                0,
            ) == Some(0int) || (balanced_from(emitted(p0, parser), 0) == Some(1int) && (done
                || tok_kind(parser.spec_current()) == TokenV::EOF))),
            (done && (failed matches Option::<ParserError>::None)) ==> parser.has_previous(),
            !done ==> failed matches Option::<ParserError>::None,
            p1.pstate() == spec_advance(p0.pstate()).0,
            spec_advance(p0.pstate()).1 matches Option::<ErrModel>::None,
            ((failed matches Option::<ParserError>::None) && !done) ==> spec_compile_decls(
                p1.pstate(),
            ) == spec_compile_decls(parser.pstate()),
            ((failed matches Option::<ParserError>::None) && done) ==> spec_compile_decls(
                p1.pstate(),
            ) == (parser.pstate(), None::<ErrModel>),
            failed matches Some(e) ==> spec_compile_decls(p1.pstate()) == (
                parser.pstate(),
                Some(err_model(e)),
            ),
        decreases parser.rem(), parser.cur_measure(), (if done {
            0int
        } else {
            1int
        }),
    {
        let ghost ph = parser;
        let at_end = match parser.match_token(TokenType::EOF) {
            Ok(b) => b,
            Err(e) => {
                failed = Some(e);
                done = true;
                continue ;
            },
        };
        if at_end {
            done = true;
            proof {
                assert(spec_compile_decls(ph.pstate()) == spec_advance(ph.pstate()));
            }
        } else {
            match parser.declaration() {
                Ok(_) => {
                    proof {
                        assert(!same_kind(tok_kind(ph.current), TokenV::EOF));
                        assert(balanced_from(emitted(p0, ph), 0) == Some(0int));
                        lemma_emitted_concat(p0, ph, parser);
                        lemma_balanced_concat(emitted(p0, ph), emitted(ph, parser), 0);
                        lemma_no_return_concat(emitted(p0, ph), emitted(ph, parser));
                        lemma_prefix_trans(
                            p0.interner@,
                            ph.interner@,
                            parser.interner@,
                        );
                        assert(steps_down(ph.pstate(), parser.pstate()));
                        assert(spec_compile_decls(ph.pstate()) == spec_compile_decls(
                            parser.pstate(),
                        ));
                    }
                },
                Err(e) => {
                    failed = Some(e);
                    done = true;
                },
            }
        }
    }
    match failed {
        Some(e) => {
            core::mem::swap(interner, &mut parser.interner);
            Err(e)
        },
        None => {
            let ghost pb = parser;
            parser.end_compiler();
            proof {
                assert(parser.chunk.instructions@.drop_last() =~= pb.chunk.instructions@);
                assert(emitted(p0, pb) =~= pb.chunk.instructions@);
                assert(parser.pstate() =~= spec_emit(pb.pstate(), OpCode::Return));
                assert(spec_compile(source@, old(interner)@) == (
                    spec_emit(pb.pstate(), OpCode::Return),
                    None::<ErrModel>,
                ));
            }
            core::mem::swap(interner, &mut parser.interner);
            Ok(parser.chunk)
        },
    }
}

/// The mathematical state of the parser: the scanner's cursor, the
/// two-token window, the chunk built so far, and the interner.
#[verifier::ext_equal]
pub struct ParseState {
    pub src: Seq<char>,
    pub pos: int,
    pub line: int,
    pub prev: Option<TokenModel>,
    pub cur: Option<TokenModel>,
    pub instrs: Seq<Instruction>,
    pub consts: Seq<Value>,
    pub interner: Seq<Seq<char>>,
}

/// The mathematical shadow of a compile diagnostic.
#[verifier::ext_equal]
pub struct ErrModel {
    pub token: Option<TokenModel>,
    pub message: Seq<char>,
}

/// The model of a diagnostic.
pub open spec fn err_model(e: ParserError) -> ErrModel {
    ErrModel { token: opt_token_model(e.token), message: e.message@ }
}

/// The executable step landed exactly where the specification parser
/// says: same final state, and an error exactly when the specification
/// has one, carrying the same token and message.
pub open spec fn refines(
    post: ParseState,
    r: Result<(), ParserError>,
    step: (ParseState, Option<ErrModel>),
) -> bool {
    &&& post == step.0
    &&& match r {
        Ok(_) => step.1 matches Option::<ErrModel>::None,
        Err(e) => step.1 == Some(err_model(e)),
    }
}

/// The kind an optional token model holds; an absent token reads as `EOF`.
pub open spec fn kind_m(o: Option<TokenModel>) -> TokenV {
    match o {
        Some(t) => t.kind,
        None => TokenV::EOF,
    }
}

/// The line of the token just consumed; line one before the first token.
pub open spec fn line_m(o: Option<TokenModel>) -> usize {
    match o {
        Some(t) => t.line as usize,
        None => 1,
    }
}

/// The sentinel diagnostic of the specification parser's unreachable
/// branches: its recursion is guarded by `steps_down`, which the
/// executable parser always establishes (its operand parses consume
/// input), so no run of the compiler ever produces this value.
pub open spec fn stuck() -> ErrModel {
    ErrModel { token: None, message: Seq::empty() }
}

/// The guard under which the specification parser recurses: the source is
/// unchanged, the cursor stayed in bounds and moved forward, or stalled
/// exactly by reading `EOF` where a real token stood before.
pub open spec fn steps_down(st: ParseState, s2: ParseState) -> bool {
    &&& s2.src == st.src
    &&& 0 <= st.pos
    &&& st.pos <= s2.pos
    &&& s2.pos <= s2.src.len()
    &&& (s2.pos > st.pos || (kind_m(s2.cur) == TokenV::EOF && kind_m(st.cur) != TokenV::EOF))
}

/// One when the lookahead is not `EOF`: the specification parser's
/// secondary termination measure.
pub open spec fn measure_m(o: Option<TokenModel>) -> int {
    if kind_m(o) == TokenV::EOF {
        0
    } else {
        1
    }
}

/// What `advance` does: scan one token into the lookahead, shifting the
/// old one back; a lexical error token becomes a diagnostic.
pub open spec fn spec_advance(st: ParseState) -> (ParseState, Option<ErrModel>) {
    let t = spec_next_token(st.src, st.pos, st.line);
    let tok = TokenModel { kind: t.kind, line: t.line };
    let s2 = ParseState { pos: t.pos, line: t.line, prev: st.cur, cur: Some(tok), ..st };
    match t.kind {
        TokenV::Error(m) => (s2, Some(ErrModel { token: Some(tok), message: m })),
        _ => (s2, None),
    }
}

/// What `consume` does: advance past a lookahead of the wanted kind, or
/// fail with the message.
pub open spec fn spec_consume(st: ParseState, k: TokenV, msg: Seq<char>) -> (
    ParseState,
    Option<ErrModel>,
) {
    if same_kind(kind_m(st.cur), k) {
        spec_advance(st)
    } else {
        (st, Some(ErrModel { token: st.cur, message: msg }))
    }
}

/// What `match_token` does: advance past a lookahead of the wanted kind
/// and say whether it did.
pub open spec fn spec_match(st: ParseState, k: TokenV) -> (ParseState, Option<ErrModel>, bool) {
    if same_kind(kind_m(st.cur), k) {
        let (s2, e) = spec_advance(st);
        (s2, e, true)
    } else {
        (st, None, false)
    }
}

/// Append one instruction at the line of the token just consumed.
pub open spec fn spec_emit(st: ParseState, code: OpCode) -> ParseState {
    ParseState {
        instrs: st.instrs.push(Instruction { code, line: line_m(st.prev) }),
        ..st
    }
}

/// Append a constant and the instruction that loads it.
pub open spec fn spec_emit_constant(st: ParseState, v: Value) -> ParseState {
    ParseState {
        consts: st.consts.push(v),
        instrs: st.instrs.push(
            Instruction {
                code: OpCode::Constant(st.consts.len() as usize),
                line: line_m(st.prev),
            },
        ),
        ..st
    }
}

/// What the number handler compiles: load the literal's bits.
pub open spec fn spec_number(st: ParseState) -> (ParseState, Option<ErrModel>) {
    match kind_m(st.prev) {
        TokenV::Number(n) => (spec_emit_constant(st, Value::Number(n)), None),
        _ => (st, Some(ErrModel { token: st.cur, message: "Expected number."@ })),
    }
}

/// What the string handler compiles: intern the content, load the symbol.
pub open spec fn spec_string(st: ParseState) -> (ParseState, Option<ErrModel>) {
    match kind_m(st.prev) {
        TokenV::String(text) => {
            let (m2, sym) = spec_intern(st.interner, text);
            (
                spec_emit_constant(
                    ParseState { interner: m2, ..st },
                    Value::String(sym as usize),
                ),
                None,
            )
        },
        _ => (st, None),
    }
}

/// What the literal handler compiles: the keyword's own instruction.
pub open spec fn spec_literal(st: ParseState) -> (ParseState, Option<ErrModel>) {
    let code = match kind_m(st.prev) {
        TokenV::True => OpCode::True,
        TokenV::False => OpCode::False,
        _ => OpCode::Nil,
    };
    (spec_emit(st, code), None)
}

/// What the grouping handler compiles: the inner expression, then the
/// closing parenthesis.
pub open spec fn spec_grouping(st: ParseState) -> (ParseState, Option<ErrModel>)
    decreases st.src.len() - st.pos, measure_m(st.cur), 3int,
{
    let (s1, e1) = spec_expression(st);
    if e1 matches Some(_) {
        (s1, e1)
    } else {
        spec_consume(s1, TokenV::RightParen, "Expect ')' after expression."@)
    }
}

/// What the unary handler compiles: the operand at unary precedence, then
/// `Not` or `Negate`.
pub open spec fn spec_unary(st: ParseState) -> (ParseState, Option<ErrModel>)
    decreases st.src.len() - st.pos, measure_m(st.cur), 3int,
{
    let op = if kind_m(st.prev) == TokenV::Bang {
        OpCode::Not
    } else {
        OpCode::Negate
    };
    let (s1, e1) = spec_parse_precedence(st, 8);
    if e1 matches Some(_) {
        (s1, e1)
    } else {
        (spec_emit(s1, op), None)
    }
}

/// The instruction or pair a binary operator appends after its right
/// operand: only `Equal`, `Greater` and `Less` are primitive; `!=`, `>=`
/// and `<=` desugar to a primitive followed by `Not`.
pub open spec fn spec_operator_tail(st: ParseState, k: TokenV) -> ParseState {
    match k {
        TokenV::BangEqual => spec_emit(spec_emit(st, OpCode::Equal), OpCode::Not),
        TokenV::EqualEqual => spec_emit(st, OpCode::Equal),
        TokenV::Greater => spec_emit(st, OpCode::Greater),
        TokenV::GreaterEqual => spec_emit(spec_emit(st, OpCode::Less), OpCode::Not),
        TokenV::Less => spec_emit(st, OpCode::Less),
        TokenV::LessEqual => spec_emit(spec_emit(st, OpCode::Greater), OpCode::Not),
        TokenV::Plus => spec_emit(st, OpCode::Add),
        TokenV::Minus => spec_emit(st, OpCode::Subtract),
        TokenV::Star => spec_emit(st, OpCode::Multiply),
        _ => spec_emit(st, OpCode::Divide),
    }
}

/// Desugaring law: only `Equal`, `Greater` and `Less` are primitive.
/// From any parser state, `!=` appends exactly what `==` appends followed
/// by `Not`; `<=` appends what `>` appends followed by `Not`; and `>=`
/// appends what `<` appends followed by `Not`.
pub proof fn lemma_desugared_operators(st: ParseState)
    ensures
        spec_operator_tail(st, TokenV::BangEqual) == spec_emit(
            spec_operator_tail(st, TokenV::EqualEqual),
            OpCode::Not,
        ),
        spec_operator_tail(st, TokenV::LessEqual) == spec_emit(
            spec_operator_tail(st, TokenV::Greater),
            OpCode::Not,
        ),
        spec_operator_tail(st, TokenV::GreaterEqual) == spec_emit(
            spec_operator_tail(st, TokenV::Less),
            OpCode::Not,
        ),
{
}

/// What the binary handler compiles: the right operand one rank tighter,
/// then the operator's instruction(s).
pub open spec fn spec_binary(st: ParseState) -> (ParseState, Option<ErrModel>)
    decreases st.src.len() - st.pos, measure_m(st.cur), 3int,
{
    let k = kind_m(st.prev);
    let (s1, e1) = spec_parse_precedence(st, (spec_infix_prec(k) + 1) as u8);
    if e1 matches Some(_) {
        (s1, e1)
    } else {
        (spec_operator_tail(s1, k), None)
    }
}

/// The infix loop: as long as the lookahead's infix rank is at least `p`,
/// consume the operator and compile it with its right operand.
pub open spec fn spec_infix(st: ParseState, p: u8) -> (ParseState, Option<ErrModel>)
    decreases st.src.len() - st.pos, measure_m(st.cur), 2int,
{
    if p <= spec_infix_prec(kind_m(st.cur)) {
        let (s1, e1) = spec_advance(st);
        if e1 matches Some(_) {
            (s1, e1)
        } else if !steps_down(st, s1) {
            (s1, Some(stuck()))
        } else {
            let (s2, e2) = spec_binary(s1);
            if e2 matches Some(_) {
                (s2, e2)
            } else {
                if steps_down(st, s2) {
                    spec_infix(s2, p)
                } else {
                    (s2, Some(stuck()))
                }
            }
        }
    } else {
        (st, None)
    }
}

/// Left-associativity law: an infix loop running at a rank strictly above
/// the lookahead operator's rank consumes nothing and leaves that
/// operator to its caller. Since `spec_binary` parses a right operand at
/// one rank above its own operator, a chain `a OP b OP c` of one
/// left-associative operator folds as `(a OP b) OP c`: the operand parse
/// after the first `OP` stops, by this law, at the second.
pub proof fn lemma_left_associativity(st: ParseState, p: u8)
    requires
        spec_infix_prec(kind_m(st.cur)) < p,
    ensures
        spec_infix(st, p) == (st, None::<ErrModel>),
{
}

/// The Pratt driver: consume one token, compile its prefix form, then
/// every infix operator binding at least as tightly as `p`.
pub open spec fn spec_parse_precedence(st: ParseState, p: u8) -> (ParseState, Option<ErrModel>)
    decreases st.src.len() - st.pos, measure_m(st.cur), 1int,
{
    let (s1, e1) = spec_advance(st);
    if e1 matches Some(_) {
        (s1, e1)
    } else {
        let k = kind_m(s1.prev);
        if !has_prefix(k) {
            (s1, Some(ErrModel { token: None, message: "Expect expression."@ }))
        } else if !steps_down(st, s1) {
            (s1, Some(stuck()))
        } else {
            let (s2, e2) = match k {
                TokenV::LeftParen => spec_grouping(s1),
                TokenV::Minus => spec_unary(s1),
                TokenV::Bang => spec_unary(s1),
                TokenV::Number(_) => spec_number(s1),
                TokenV::String(_) => spec_string(s1),
                _ => spec_literal(s1),
            };
            if e2 matches Some(_) {
                (s2, e2)
            } else {
                if steps_down(st, s2) {
                    spec_infix(s2, p)
                } else {
                    (s2, Some(stuck()))
                }
            }
        }
    }
}

/// What `expression` compiles: everything at assignment rank or tighter.
pub open spec fn spec_expression(st: ParseState) -> (ParseState, Option<ErrModel>)
    decreases st.src.len() - st.pos, measure_m(st.cur), 2int,
{
    spec_parse_precedence(st, 1)
}

/// What `parse_variable` does: consume the name and hand its text back.
pub open spec fn spec_parse_variable(st: ParseState, msg: Seq<char>) -> (
    ParseState,
    Option<ErrModel>,
    Seq<char>,
) {
    let (s1, e1) = spec_consume(st, TokenV::Identifier(Seq::empty()), msg);
    let name = match kind_m(s1.prev) {
        TokenV::Identifier(text) => text,
        _ => Seq::empty(),
    };
    (s1, e1, name)
}

/// What a `var` declaration compiles: the initializer (or `Nil`), then
/// the name interned, recorded in the constant table, and bound by
/// `DefineGlobal` of that constant's index.
pub open spec fn spec_var_declaration(st: ParseState) -> (ParseState, Option<ErrModel>) {
    let (s1, e1, name) = spec_parse_variable(st, "Expect variable name."@);
    if e1 matches Some(_) {
        (s1, e1)
    } else {
        let (s2, e2, assigned) = spec_match(s1, TokenV::Equal);
        if e2 matches Some(_) {
            (s2, e2)
        } else {
            let (s3, e3) = if assigned {
                spec_expression(s2)
            } else {
                (spec_emit(s2, OpCode::Nil), None)
            };
            if e3 matches Some(_) {
                (s3, e3)
            } else {
                let (s4, e4) = spec_consume(
                    s3,
                    TokenV::Semicolon,
                    "Expect ';' after variable declaration."@,
                );
                if e4 matches Some(_) {
                    (s4, e4)
                } else {
                    let (m2, sym) = spec_intern(s4.interner, name);
                    let g = s4.consts.len() as usize;
                    let s5 = ParseState {
                        consts: s4.consts.push(Value::String(sym as usize)),
                        interner: m2,
                        ..s4
                    };
                    (spec_emit(s5, OpCode::DefineGlobal(g)), None)
                }
            }
        }
    }
}

/// What an expression statement compiles: the expression, then one `Pop`;
/// at the very end of the source a bare expression is kept as the
/// program's result.
pub open spec fn spec_expression_statement(st: ParseState) -> (ParseState, Option<ErrModel>) {
    let (s1, e1) = spec_expression(st);
    if e1 matches Some(_) {
        (s1, e1)
    } else {
        let (s2, e2, semi) = spec_match(s1, TokenV::Semicolon);
        if e2 matches Some(_) {
            (s2, e2)
        } else if semi {
            (spec_emit(s2, OpCode::Pop), None)
        } else if kind_m(s2.cur) == TokenV::EOF {
            (s2, None)
        } else {
            (
                s2,
                Some(ErrModel { token: s2.cur, message: "Expect ';' after expression."@ }),
            )
        }
    }
}

/// What a `print` statement compiles: the expression, then `Print`.
pub open spec fn spec_print_statement(st: ParseState) -> (ParseState, Option<ErrModel>) {
    let (s1, e1) = spec_expression(st);
    if e1 matches Some(_) {
        (s1, e1)
    } else {
        let (s2, e2) = spec_consume(s1, TokenV::Semicolon, "Expect ';' after value."@);
        if e2 matches Some(_) {
            (s2, e2)
        } else {
            (spec_emit(s2, OpCode::Print), None)
        }
    }
}

/// What `statement` compiles: a `print` statement or an expression
/// statement.
pub open spec fn spec_statement(st: ParseState) -> (ParseState, Option<ErrModel>) {
    let (s1, e1, printing) = spec_match(st, TokenV::Print);
    if e1 matches Some(_) {
        (s1, e1)
    } else if printing {
        spec_print_statement(s1)
    } else {
        spec_expression_statement(s1)
    }
}

/// What `synchronize` does: skip tokens until a statement boundary.
pub open spec fn spec_synchronize(st: ParseState) -> (ParseState, Option<ErrModel>)
    decreases st.src.len() - st.pos, measure_m(st.cur), 1int,
{
    if same_kind(kind_m(st.cur), TokenV::EOF) {
        (st, None)
    } else if kind_m(st.prev) == TokenV::Semicolon || sync_boundary(kind_m(st.cur)) {
        (st, None)
    } else {
        let (s1, e1) = spec_advance(st);
        if e1 matches Some(_) {
            (s1, e1)
        } else if steps_down(st, s1) {
            spec_synchronize(s1)
        } else {
            (s1, Some(stuck()))
        }
    }
}

/// The token kinds that begin a new declaration, where error recovery
/// resumes.
pub open spec fn sync_boundary(k: TokenV) -> bool {
    ||| same_kind(k, TokenV::Class)
    ||| same_kind(k, TokenV::Fun)
    ||| same_kind(k, TokenV::Var)
    ||| same_kind(k, TokenV::For)
    ||| same_kind(k, TokenV::If)
    ||| same_kind(k, TokenV::While)
    ||| same_kind(k, TokenV::Print)
    ||| same_kind(k, TokenV::Return)
}

/// What `declaration` compiles: a `var` declaration or a statement; on a
/// parse error it synchronizes and reports the first error.
pub open spec fn spec_declaration(st: ParseState) -> (ParseState, Option<ErrModel>) {
    let (s1, e1, isvar) = spec_match(st, TokenV::Var);
    if e1 matches Some(_) {
        (s1, e1)
    } else {
        let (s2, e2) = if isvar {
            spec_var_declaration(s1)
        } else {
            spec_statement(s1)
        };
        match e2 {
            None => (s2, None),
            Some(first) => {
                let (s3, e3) = spec_synchronize(s2);
                match e3 {
                    Some(second) => (s3, Some(second)),
                    None => (s3, Some(first)),
                }
            },
        }
    }
}

/// The compiler's driver loop: declarations until the `EOF` token is
/// consumed.
pub open spec fn spec_compile_decls(st: ParseState) -> (ParseState, Option<ErrModel>)
    decreases st.src.len() - st.pos, measure_m(st.cur), 1int,
{
    if same_kind(kind_m(st.cur), TokenV::EOF) {
        spec_advance(st)
    } else {
        let (s1, e1) = spec_declaration(st);
        if e1 matches Some(_) {
            (s1, e1)
        } else if steps_down(st, s1) {
            spec_compile_decls(s1)
        } else {
            (s1, Some(stuck()))
        }
    }
}

/// What `compile` does to a source text, from a given interner: the
/// parser's final state — instructions, constants and interner — and the
/// first diagnostic if the source is rejected. On success the
/// instructions are the declarations' code in source order, closed by one
/// final `Return`.
pub open spec fn spec_compile(src: Seq<char>, interner: Seq<Seq<char>>) -> (
    ParseState,
    Option<ErrModel>,
) {
    let st0 = ParseState {
        src,
        pos: 0,
        line: 1,
        prev: None,
        cur: None,
        instrs: Seq::empty(),
        consts: Seq::empty(),
        interner,
    };
    let (s1, e1) = spec_advance(st0);
    if e1 matches Some(_) {
        (s1, e1)
    } else {
        let (s2, e2) = spec_compile_decls(s1);
        if e2 matches Some(_) {
            (s2, e2)
        } else {
            (spec_emit(s2, OpCode::Return), None)
        }
    }
}

/// A source with no tokens compiles, and to the single-instruction chunk
/// `Return`: the compiler terminates on empty input and still closes the
/// chunk.
pub proof fn lemma_compile_empty_source(m: Seq<Seq<char>>)
    ensures
        ({
            let (s, e) = spec_compile(""@, m);
            &&& e matches Option::<ErrModel>::None
            &&& s.instrs == seq![Instruction { code: OpCode::Return, line: 1 }]
            &&& s.consts == Seq::<Value>::empty()
            &&& s.interner == m
        }),
{
    reveal_strlit("");
    let src = ""@;
    assert(src.len() == 0);
    assert(skip_ws(src, 0, 1) == (0int, 1int));
    let t0 = spec_next_token(src, 0, 1);
    assert(t0.kind == TokenV::EOF && t0.pos == 0 && t0.line == 1);
    let st0 = ParseState {
        src,
        pos: 0,
        line: 1,
        prev: None,
        cur: None,
        instrs: Seq::empty(),
        consts: Seq::empty(),
        interner: m,
    };
    let (s1, e1) = spec_advance(st0);
    assert(e1 matches Option::<ErrModel>::None);
    let (s2, e2) = spec_advance(s1);
    assert(e2 matches Option::<ErrModel>::None);
    assert(spec_compile_decls(s1) == (s2, None::<ErrModel>));
    assert(spec_compile(src, m) == (spec_emit(s2, OpCode::Return), None::<ErrModel>));
    assert(spec_emit(s2, OpCode::Return).instrs =~= seq![
        Instruction { code: OpCode::Return, line: 1 },
    ]);
}

/// The functional contract decides whole sources. As a sample: compiling
/// `nil;` from any interner succeeds and yields exactly `Nil`, `Pop`,
/// `Return`, all on line one, with an empty constant table and the
/// interner untouched.
pub proof fn lemma_compile_nil_statement(m: Seq<Seq<char>>)
    ensures
        ({
            let (s, e) = spec_compile("nil;"@, m);
            &&& e matches Option::<ErrModel>::None
            &&& s.instrs == seq![
                Instruction { code: OpCode::Nil, line: 1 },
                Instruction { code: OpCode::Pop, line: 1 },
                Instruction { code: OpCode::Return, line: 1 },
            ]
            &&& s.consts == Seq::<Value>::empty()
            &&& s.interner == m
        }),
{
    reveal_strlit("nil;");
    reveal_strlit("nil");
    reveal_strlit("and");
    reveal_strlit("class");
    reveal_strlit("else");
    reveal_strlit("false");
    reveal_strlit("for");
    reveal_strlit("fun");
    reveal_strlit("if");
    let src = "nil;"@;
    let st0 = ParseState {
        src,
        pos: 0,
        line: 1,
        prev: None,
        cur: None,
        instrs: Seq::empty(),
        consts: Seq::empty(),
        interner: m,
    };
    assert(src.len() == 4);
    assert(src[0] == 'n' && src[1] == 'i' && src[2] == 'l' && src[3] == ';');
    assert(skip_ws(src, 0, 1) == (0int, 1int));
    assert(ident_end(src, 3) == 3);
    assert(ident_end(src, 2) == 3);
    assert(ident_end(src, 1) == 3);
    let lex = src.subrange(0, 3);
    assert(lex =~= "nil"@);
    assert(lex != "and"@ && lex != "for"@ && lex != "fun"@) by {
        assert(lex[0] == 'n');
    }
    assert(keyword_or_ident(lex) == TokenV::Nil);
    let t0 = spec_next_token(src, 0, 1);
    assert(t0.kind == TokenV::Nil && t0.pos == 3 && t0.line == 1);
    let (s1, e1) = spec_advance(st0);
    assert(e1 matches Option::<ErrModel>::None);
    assert(s1.cur == Some(TokenModel { kind: TokenV::Nil, line: 1 }));
    assert(skip_ws(src, 3, 1) == (3int, 1int));
    let t1 = spec_next_token(src, 3, 1);
    assert(t1.kind == TokenV::Semicolon && t1.pos == 4 && t1.line == 1);
    assert(skip_ws(src, 4, 1) == (4int, 1int));
    let t2 = spec_next_token(src, 4, 1);
    assert(t2.kind == TokenV::EOF && t2.pos == 4 && t2.line == 1);

    // The expression: `nil` compiles to one `Nil` instruction.
    let (s2, e2) = spec_advance(s1);
    assert(e2 matches Option::<ErrModel>::None);
    assert(s2.cur == Some(TokenModel { kind: TokenV::Semicolon, line: 1 }));
    assert(steps_down(s1, s2));
    let (s3, e3) = spec_literal(s2);
    assert(e3 matches Option::<ErrModel>::None);
    assert(s3.instrs =~= seq![Instruction { code: OpCode::Nil, line: 1 }]);
    assert(steps_down(s1, s3));
    assert(spec_infix(s3, 1) == (s3, None::<ErrModel>));
    assert(spec_parse_precedence(s1, 1) == (s3, None::<ErrModel>));

    // The statement: the `;` is consumed and one `Pop` appended.
    let (s4, e4, semi) = spec_match(s3, TokenV::Semicolon);
    assert(semi && e4 matches Option::<ErrModel>::None);
    let s5 = spec_emit(s4, OpCode::Pop);
    assert(spec_expression_statement(s1) == (s5, None::<ErrModel>));
    assert(spec_statement(s1) == (s5, None::<ErrModel>));
    assert(spec_declaration(s1) == (s5, None::<ErrModel>));

    // The driver: one declaration, then the consumed `EOF` and the final
    // `Return`.
    assert(steps_down(s1, s5));
    assert(kind_m(s5.cur) == TokenV::EOF);
    let (s6, e6) = spec_advance(s5);
    assert(e6 matches Option::<ErrModel>::None);
    assert(spec_compile_decls(s5) == (s6, None::<ErrModel>));
    assert(spec_compile_decls(s1) == (s6, None::<ErrModel>));
    assert(spec_compile(src, m) == (spec_emit(s6, OpCode::Return), None::<ErrModel>));
    assert(spec_emit(s6, OpCode::Return).instrs =~= seq![
        Instruction { code: OpCode::Nil, line: 1 },
        Instruction { code: OpCode::Pop, line: 1 },
        Instruction { code: OpCode::Return, line: 1 },
    ]);
    assert(spec_emit(s6, OpCode::Return).consts =~= Seq::<Value>::empty());
}

/// The prefix handler a token kind selects: grouping, unary, number,
/// string, or literal; zero when it has none.
fn prefix_class(t: &TokenType) -> (r: u8)
    ensures
        (r != 0) == has_prefix(t@),
        r == 1 <==> t@ matches TokenV::LeftParen,
        r == 2 <==> (t@ matches TokenV::Minus || t@ matches TokenV::Bang),
        r == 3 <==> t@ matches TokenV::Number(_),
        r == 4 <==> t@ matches TokenV::String(_),
        r == 5 <==> (t@ matches TokenV::Nil || t@ matches TokenV::True || t@
            matches TokenV::False),
        r <= 5,
{
    match t {
        TokenType::LeftParen => 1,
        TokenType::Minus => 2,
        TokenType::Bang => 2,
        TokenType::Number(_) => 3,
        TokenType::String(_) => 4,
        TokenType::Nil => 5,
        TokenType::True => 5,
        TokenType::False => 5,
        _ => 0,
    }
}

/// Which binary operator a token kind is, numbered for dispatch; zero
/// when it is none.
fn binary_class(t: &TokenType) -> (r: u8)
    ensures
        r == 1 <==> t@ matches TokenV::BangEqual,
        r == 2 <==> t@ matches TokenV::EqualEqual,
        r == 3 <==> t@ matches TokenV::Greater,
        r == 4 <==> t@ matches TokenV::GreaterEqual,
        r == 5 <==> t@ matches TokenV::Less,
        r == 6 <==> t@ matches TokenV::LessEqual,
        r == 7 <==> t@ matches TokenV::Plus,
        r == 8 <==> t@ matches TokenV::Minus,
        r == 9 <==> t@ matches TokenV::Star,
        (r == 10 <==> t@ matches TokenV::Slash) && r <= 10,
{
    match t {
        TokenType::BangEqual => 1,
        TokenType::EqualEqual => 2,
        TokenType::Greater => 3,
        TokenType::GreaterEqual => 4,
        TokenType::Less => 5,
        TokenType::LessEqual => 6,
        TokenType::Plus => 7,
        TokenType::Minus => 8,
        TokenType::Star => 9,
        TokenType::Slash => 10,
        _ => 0,
    }
}

/// The line an optional token sits on; line one when absent.
pub open spec fn tok_line(o: Option<Token>) -> usize {
    match o {
        Some(t) => t.line,
        None => 1,
    }
}

/// A copy of a token, payload and all.
fn clone_token(t: &Token) -> (r: Token)
    ensures
        r@ == t@,
        r.line == t.line,
{
    let token_type = match &t.token_type {
        TokenType::LeftParen => TokenType::LeftParen,
        TokenType::RightParen => TokenType::RightParen,
        TokenType::LeftBrace => TokenType::LeftBrace,
        TokenType::RightBrace => TokenType::RightBrace,
        TokenType::Comma => TokenType::Comma,
        TokenType::Dot => TokenType::Dot,
        TokenType::Minus => TokenType::Minus,
        TokenType::Plus => TokenType::Plus,
        TokenType::Semicolon => TokenType::Semicolon,
        TokenType::Slash => TokenType::Slash,
        TokenType::Star => TokenType::Star,
        TokenType::Bang => TokenType::Bang,
        TokenType::BangEqual => TokenType::BangEqual,
        TokenType::Equal => TokenType::Equal,
        TokenType::EqualEqual => TokenType::EqualEqual,
        TokenType::Greater => TokenType::Greater,
        TokenType::GreaterEqual => TokenType::GreaterEqual,
        TokenType::Less => TokenType::Less,
        TokenType::LessEqual => TokenType::LessEqual,
        TokenType::Identifier(s) => TokenType::Identifier(s.clone()),
        TokenType::String(s) => TokenType::String(s.clone()),
        TokenType::Number(n) => TokenType::Number(*n),
        TokenType::And => TokenType::And,
        TokenType::Class => TokenType::Class,
        TokenType::Else => TokenType::Else,
        TokenType::False => TokenType::False,
        TokenType::For => TokenType::For,
        TokenType::Fun => TokenType::Fun,
        TokenType::If => TokenType::If,
        TokenType::Nil => TokenType::Nil,
        TokenType::Or => TokenType::Or,
        TokenType::Print => TokenType::Print,
        TokenType::Return => TokenType::Return,
        TokenType::Super => TokenType::Super,
        TokenType::This => TokenType::This,
        TokenType::True => TokenType::True,
        TokenType::Var => TokenType::Var,
        TokenType::While => TokenType::While,
        TokenType::Error(s) => TokenType::Error(s.clone()),
        TokenType::EOF => TokenType::EOF,
    };
    Token { token_type, line: t.line }
}

/// A copy of an optional token.
fn clone_opt_token(o: &Option<Token>) -> (r: Option<Token>)
    ensures
        tok_kind(r) == tok_kind(*o),
        tok_line(r) == tok_line(*o),
        opt_token_model(r) == opt_token_model(*o),
        r matches Some(_) <==> o matches Some(_),
{
    match o {
        Some(t) => Some(clone_token(t)),
        None => None,
    }
}

/// The two token types have the same kind, payloads aside.
fn token_kind_matches(a: &TokenType, b: &TokenType) -> (r: bool)
    ensures
        r == same_kind(a@, b@),
{
    match (a, b) {
        (TokenType::LeftParen, TokenType::LeftParen) => true,
        (TokenType::RightParen, TokenType::RightParen) => true,
        (TokenType::LeftBrace, TokenType::LeftBrace) => true,
        (TokenType::RightBrace, TokenType::RightBrace) => true,
        (TokenType::Comma, TokenType::Comma) => true,
        (TokenType::Dot, TokenType::Dot) => true,
        (TokenType::Minus, TokenType::Minus) => true,
        (TokenType::Plus, TokenType::Plus) => true,
        (TokenType::Semicolon, TokenType::Semicolon) => true,
        (TokenType::Slash, TokenType::Slash) => true,
        (TokenType::Star, TokenType::Star) => true,
        (TokenType::Bang, TokenType::Bang) => true,
        (TokenType::BangEqual, TokenType::BangEqual) => true,
        (TokenType::Equal, TokenType::Equal) => true,
        (TokenType::EqualEqual, TokenType::EqualEqual) => true,
        (TokenType::Greater, TokenType::Greater) => true,
        (TokenType::GreaterEqual, TokenType::GreaterEqual) => true,
        (TokenType::Less, TokenType::Less) => true,
        (TokenType::LessEqual, TokenType::LessEqual) => true,
        (TokenType::Identifier(_), TokenType::Identifier(_)) => true,
        (TokenType::String(_), TokenType::String(_)) => true,
        (TokenType::Number(_), TokenType::Number(_)) => true,
        (TokenType::And, TokenType::And) => true,
        (TokenType::Class, TokenType::Class) => true,
        (TokenType::Else, TokenType::Else) => true,
        (TokenType::False, TokenType::False) => true,
        (TokenType::For, TokenType::For) => true,
        (TokenType::Fun, TokenType::Fun) => true,
        (TokenType::If, TokenType::If) => true,
        (TokenType::Nil, TokenType::Nil) => true,
        (TokenType::Or, TokenType::Or) => true,
        (TokenType::Print, TokenType::Print) => true,
        (TokenType::Return, TokenType::Return) => true,
        (TokenType::Super, TokenType::Super) => true,
        (TokenType::This, TokenType::This) => true,
        (TokenType::True, TokenType::True) => true,
        (TokenType::Var, TokenType::Var) => true,
        (TokenType::While, TokenType::While) => true,
        (TokenType::Error(_), TokenType::Error(_)) => true,
        (TokenType::EOF, TokenType::EOF) => true,
        _ => false,
    }
}

/// The infix precedence of a token type; `None` for kinds with no infix
/// handler.
fn infix_precedence(t: &TokenType) -> (r: Precedence)
    ensures
        spec_prec_value(r) == spec_infix_prec(t@),
{
    match t {
        TokenType::Minus => Precedence::Term,
        TokenType::Plus => Precedence::Term,
        TokenType::Slash => Precedence::Factor,
        TokenType::Star => Precedence::Factor,
        TokenType::BangEqual => Precedence::Equality,
        TokenType::EqualEqual => Precedence::Comparison,
        TokenType::Greater => Precedence::Comparison,
        TokenType::GreaterEqual => Precedence::Comparison,
        TokenType::Less => Precedence::Comparison,
        TokenType::LessEqual => Precedence::Comparison,
        _ => Precedence::Lowest,
    }
}

} // verus!
