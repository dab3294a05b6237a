use vstd::prelude::*;

use crate::ast::{
    BinOp, Block, BlockV, Decl, Expr, ExprV, FunCall, FunCallV, LitV, Literal, NamedArg,
    NamedArgV, Param, ParamV, Precedence, Program, ProgramV, Shape, ShapeV, Stmt, UnOp,
    prec, spec_prec,
};
use crate::error::Error;
use crate::lexer::{tokens_view, Tok, Token, TokenType, TokenV};
use crate::pos::{HasPos, Pos, Range};
use crate::text::str_eq;

verus! {

/// What the parser was looking for when it found something else.
#[derive(Debug, Clone, Copy, PartialEq, Eq, Structural)]
pub enum Expectation {
    Literal,
    Operator,
    Identifier,
    Keyword,
    ParenAfterShapeName,
    ParenClosingParams,
    ParenAfterCallName,
    ParenClosingArgs,
    BlockStart,
    ColonAfterArgName,
}

/// The ways in which parsing can fail.
#[derive(Debug, Clone, PartialEq)]
pub enum ParseErrorType {
    UnExpectedEndOfInput,
    IdentifierCannotBeReservedWord(String),
    UnBalancedParen,
    Expected(Expectation, Option<TokenType>),
}

pub type ParseError = Error<ParseErrorType>;

pub enum ParseFault {
    UnExpectedEndOfInput,
    IdentifierCannotBeReservedWord(Seq<char>),
    UnBalancedParen,
    Expected(Expectation, Option<Tok>),
}

impl View for ParseErrorType {
    type V = ParseFault;

    open spec fn view(&self) -> ParseFault {
        match self {
            ParseErrorType::UnExpectedEndOfInput => ParseFault::UnExpectedEndOfInput,
            ParseErrorType::IdentifierCannotBeReservedWord(s) => ParseFault::IdentifierCannotBeReservedWord(s@),
            ParseErrorType::UnBalancedParen => ParseFault::UnBalancedParen,
            ParseErrorType::Expected(w, f) => ParseFault::Expected(
                *w,
                match f {
                    Some(t) => Some(t@),
                    None => None,
                },
            ),
        }
    }
}

pub type PErr = Error<ParseFault>;

pub open spec fn pfault(e: ParseError) -> PErr {
    Error { error_type: e.error_type@, pos: e.pos }
}

pub open spec fn perr<T>(f: ParseFault, pos: Pos) -> Result<T, PErr> {
    Err(Error { error_type: f, pos })
}

// ---------------------------------------------------------------------------
// The grammar, as spec functions over the token sequence
// ---------------------------------------------------------------------------

/// Tokens left from index `i`; the measure of every parsing step. Every
/// step consumes at least one token: the comparisons of an index with the
/// one before a step, below, only make that visible to the proof of
/// termination; their other branches are never taken.
pub open spec fn rest(ts: Seq<TokenV>, i: int) -> nat {
    if 0 <= i < ts.len() {
        (ts.len() - i) as nat
    } else {
        0
    }
}

/// Where the input ends: the end of its last token.
pub open spec fn program_end(ts: Seq<TokenV>) -> Pos {
    if ts.len() == 0 {
        Pos { line: 0, column: 0 }
    } else {
        ts.last().range.end
    }
}

pub open spec fn reserved(s: Seq<char>) -> bool {
    s == "shape"@
}

pub open spec fn is_tok(ts: Seq<TokenV>, i: int, k: Tok) -> bool {
    0 <= i < ts.len() && ts[i].kind == k
}

/// The error for finding, at index `i`, something other than `what`.
pub open spec fn unexpected<T>(ts: Seq<TokenV>, end: Pos, i: int, what: Expectation) -> Result<T, PErr> {
    if 0 <= i < ts.len() {
        perr(ParseFault::Expected(what, Some(ts[i].kind)), ts[i].range.start)
    } else {
        perr(ParseFault::UnExpectedEndOfInput, end)
    }
}

/// Left binding power of a token.
pub open spec fn lbp(k: Tok) -> u32 {
    match k {
        Tok::LParen => spec_prec(Precedence::Call),
        Tok::Times | Tok::Divide => spec_prec(Precedence::Product),
        Tok::Plus | Tok::Minus => spec_prec(Precedence::Sum),
        _ => 0,
    }
}

pub open spec fn binop_of(k: Tok) -> Option<BinOp> {
    match k {
        Tok::Times => Some(BinOp::Mul),
        Tok::Divide => Some(BinOp::Div),
        Tok::Plus => Some(BinOp::Add),
        Tok::Minus => Some(BinOp::Sub),
        _ => None,
    }
}

/// An expression starting at index `i` whose operators bind tighter than
/// `rbp`; with the index after it.
pub open spec fn expr_at(ts: Seq<TokenV>, end: Pos, i: int, rbp: u32) -> Result<(ExprV, int), PErr>
    decreases rest(ts, i), 3nat,
{
    if !(0 <= i < ts.len()) {
        perr(ParseFault::UnExpectedEndOfInput, end)
    } else {
        match nud_at(ts, end, i) {
            Err(e) => Err(e),
            Ok((left, j)) => if j > i {
                led_loop(ts, end, j, rbp, left)
            } else {
                Ok((left, j))
            },
        }
    }
}

/// What a token means at the start of an expression.
pub open spec fn nud_at(ts: Seq<TokenV>, end: Pos, i: int) -> Result<(ExprV, int), PErr>
    decreases rest(ts, i), 2nat,
{
    if !(0 <= i < ts.len()) {
        perr(ParseFault::UnExpectedEndOfInput, end)
    } else {
        let t = ts[i];
        match t.kind {
            Tok::Ident(s) => if reserved(s) {
                perr(ParseFault::IdentifierCannotBeReservedWord(s), t.range.start)
            } else {
                Ok((ExprV::Name(s, t.range), i + 1))
            },
            Tok::Number(n) => Ok((ExprV::Literal(LitV::Number(n), t.range), i + 1)),
            Tok::Str(s) => Ok((ExprV::Literal(LitV::Str(s), t.range), i + 1)),
            Tok::Minus => match expr_at(ts, end, i + 1, spec_prec(Precedence::Prefix)) {
                Err(e) => Err(e),
                Ok((e, j)) => Ok((ExprV::Unary(UnOp::Neg, Box::new(e), t.range.start), j)),
            },
            Tok::LParen => match expr_at(ts, end, i + 1, 0) {
                Err(e) => Err(e),
                Ok((e, j)) => if is_tok(ts, j, Tok::RParen) {
                    Ok((ExprV::Grouping(Box::new(e)), j + 1))
                } else {
                    perr(ParseFault::UnBalancedParen, t.range.start)
                },
            },
            k => perr(ParseFault::Expected(Expectation::Literal, Some(k)), t.range.start),
        }
    }
}

/// Extends `left` with the operators from index `j` on that bind tighter
/// than `rbp`.
pub open spec fn led_loop(ts: Seq<TokenV>, end: Pos, j: int, rbp: u32, left: ExprV) -> Result<(ExprV, int), PErr>
    decreases rest(ts, j), 1nat,
{
    if 0 <= j < ts.len() && lbp(ts[j].kind) > rbp {
        match led_at(ts, end, j, left) {
            Err(e) => Err(e),
            Ok((e, k)) => if k > j {
                led_loop(ts, end, k, rbp, e)
            } else {
                Ok((e, k))
            },
        }
    } else {
        Ok((left, j))
    }
}

/// What the operator at index `j` means after the expression `left`.
pub open spec fn led_at(ts: Seq<TokenV>, end: Pos, j: int, left: ExprV) -> Result<(ExprV, int), PErr>
    decreases rest(ts, j), 0nat,
{
    if !(0 <= j < ts.len()) {
        perr(ParseFault::UnExpectedEndOfInput, end)
    } else {
        let t = ts[j];
        match binop_of(t.kind) {
            Some(op) => match expr_at(ts, end, j + 1, lbp(t.kind)) {
                Err(e) => Err(e),
                Ok((rhs, k)) => Ok((ExprV::Binary(Box::new(left), op, Box::new(rhs), t.range.start), k)),
            },
            None => perr(ParseFault::Expected(Expectation::Operator, Some(t.kind)), t.range.start),
        }
    }
}

/// An identifier at index `i`, with its position and the index after it.
pub open spec fn ident_at(ts: Seq<TokenV>, end: Pos, i: int) -> Result<(Seq<char>, Pos, int), PErr> {
    if 0 <= i < ts.len() && ts[i].kind is Ident {
        let s = ts[i].kind->Ident_0;
        if reserved(s) {
            perr(ParseFault::IdentifierCannotBeReservedWord(s), ts[i].range.start)
        } else {
            Ok((s, ts[i].range.start, i + 1))
        }
    } else {
        unexpected(ts, end, i, Expectation::Identifier)
    }
}

/// `name: expr`
pub open spec fn named_arg_at(ts: Seq<TokenV>, end: Pos, i: int) -> Result<(NamedArgV, int), PErr> {
    match ident_at(ts, end, i) {
        Err(e) => Err(e),
        Ok((name, _, j)) => if is_tok(ts, j, Tok::Colon) {
            match expr_at(ts, end, j + 1, 0) {
                Err(e) => Err(e),
                Ok((e, k)) => Ok((NamedArgV { name, expr: e }, k)),
            }
        } else {
            unexpected(ts, end, j, Expectation::ColonAfterArgName)
        },
    }
}

/// The arguments after the first: `, arg` as long as a comma follows.
pub open spec fn more_args(ts: Seq<TokenV>, end: Pos, j: int, acc: Seq<NamedArgV>) -> Result<(Seq<NamedArgV>, int), PErr>
    decreases rest(ts, j),
{
    if is_tok(ts, j, Tok::Comma) {
        match named_arg_at(ts, end, j + 1) {
            Err(e) => Err(e),
            Ok((a, k)) => if k > j {
                more_args(ts, end, k, acc.push(a))
            } else {
                Ok((acc.push(a), k))
            },
        }
    } else {
        Ok((acc, j))
    }
}

/// The argument list of a call, up to its closing parenthesis.
pub open spec fn args_at(ts: Seq<TokenV>, end: Pos, i: int) -> Result<(Seq<NamedArgV>, int), PErr> {
    if is_tok(ts, i, Tok::RParen) {
        Ok((Seq::empty(), i))
    } else {
        match named_arg_at(ts, end, i) {
            Err(e) => Err(e),
            Ok((a, j)) => more_args(ts, end, j, seq![a]),
        }
    }
}

/// `name(args)`
pub open spec fn call_at(ts: Seq<TokenV>, end: Pos, i: int) -> Result<(FunCallV, int), PErr> {
    match ident_at(ts, end, i) {
        Err(e) => Err(e),
        Ok((name, pos, j)) => if !is_tok(ts, j, Tok::LParen) {
            unexpected(ts, end, j, Expectation::ParenAfterCallName)
        } else {
            match args_at(ts, end, j + 1) {
                Err(e) => Err(e),
                Ok((args, k)) => if !is_tok(ts, k, Tok::RParen) {
                    unexpected(ts, end, k, Expectation::ParenClosingArgs)
                } else {
                    Ok((FunCallV { ident: name, args, range: Range { start: pos, end: ts[k].range.start } }, k + 1))
                },
            }
        },
    }
}

/// The calls of a block from index `j` up to and including its `}`.
pub open spec fn calls_loop(ts: Seq<TokenV>, end: Pos, j: int, acc: Seq<FunCallV>, start: Pos) -> Result<(BlockV, int), PErr>
    decreases rest(ts, j),
{
    if is_tok(ts, j, Tok::RCurly) {
        Ok((BlockV { calls: acc, range: Range { start, end: ts[j].range.end } }, j + 1))
    } else {
        match call_at(ts, end, j) {
            Err(e) => Err(e),
            Ok((c, k)) => if k > j {
                calls_loop(ts, end, k, acc.push(c), start)
            } else {
                perr(ParseFault::UnExpectedEndOfInput, end)
            },
        }
    }
}

/// `{ calls }`
pub open spec fn block_at(ts: Seq<TokenV>, end: Pos, i: int) -> Result<(BlockV, int), PErr> {
    if is_tok(ts, i, Tok::LCurly) {
        calls_loop(ts, end, i + 1, Seq::empty(), ts[i].range.start)
    } else {
        unexpected(ts, end, i, Expectation::BlockStart)
    }
}

/// `name` or `name = expr`
pub open spec fn param_at(ts: Seq<TokenV>, end: Pos, i: int) -> Result<(ParamV, int), PErr> {
    match ident_at(ts, end, i) {
        Err(e) => Err(e),
        Ok((name, _, j)) => if is_tok(ts, j, Tok::Equals) {
            match expr_at(ts, end, j + 1, 0) {
                Err(e) => Err(e),
                Ok((d, k)) => Ok((ParamV { name, default: Some(d) }, k)),
            }
        } else {
            Ok((ParamV { name, default: None }, j))
        },
    }
}

pub open spec fn more_params(ts: Seq<TokenV>, end: Pos, j: int, acc: Seq<ParamV>) -> Result<(Seq<ParamV>, int), PErr>
    decreases rest(ts, j),
{
    if is_tok(ts, j, Tok::Comma) {
        match param_at(ts, end, j + 1) {
            Err(e) => Err(e),
            Ok((p, k)) => if k > j {
                more_params(ts, end, k, acc.push(p))
            } else {
                Ok((acc.push(p), k))
            },
        }
    } else {
        Ok((acc, j))
    }
}

/// The parameter list of a shape, up to its closing parenthesis.
pub open spec fn params_at(ts: Seq<TokenV>, end: Pos, i: int) -> Result<(Seq<ParamV>, int), PErr> {
    if is_tok(ts, i, Tok::RParen) {
        Ok((Seq::empty(), i))
    } else {
        match param_at(ts, end, i) {
            Err(e) => Err(e),
            Ok((p, j)) => more_params(ts, end, j, seq![p]),
        }
    }
}

/// `shape name(params) { calls }`
pub open spec fn shape_at(ts: Seq<TokenV>, end: Pos, i: int) -> Result<(ShapeV, int), PErr> {
    if !(0 <= i < ts.len() && ts[i].kind == Tok::Ident("shape"@)) {
        unexpected(ts, end, i, Expectation::Keyword)
    } else {
        let start = ts[i].range.start;
        match ident_at(ts, end, i + 1) {
            Err(e) => Err(e),
            Ok((name, pos, j)) => if !is_tok(ts, j, Tok::LParen) {
                unexpected(ts, end, j, Expectation::ParenAfterShapeName)
            } else {
                match params_at(ts, end, j + 1) {
                    Err(e) => Err(e),
                    Ok((params, k)) => if !is_tok(ts, k, Tok::RParen) {
                        unexpected(ts, end, k, Expectation::ParenClosingParams)
                    } else {
                        match block_at(ts, end, k + 1) {
                            Err(e) => Err(e),
                            Ok((block, m)) => Ok((ShapeV { name, params, block, pos: start }, m)),
                        }
                    },
                }
            },
        }
    }
}

pub open spec fn shapes_loop(ts: Seq<TokenV>, end: Pos, j: int, acc: Seq<ShapeV>) -> Result<ProgramV, PErr>
    decreases rest(ts, j),
{
    if 0 <= j < ts.len() {
        match shape_at(ts, end, j) {
            Err(e) => Err(e),
            Ok((s, k)) => if k > j {
                shapes_loop(ts, end, k, acc.push(s))
            } else {
                perr(ParseFault::UnExpectedEndOfInput, end)
            },
        }
    } else {
        Ok(ProgramV { shapes: acc, end })
    }
}

/// The program that a token sequence spells: what `parse_program` returns.
pub open spec fn parsed(ts: Seq<TokenV>) -> Result<ProgramV, PErr> {
    shapes_loop(ts, program_end(ts), 0, Seq::empty())
}

// ---------------------------------------------------------------------------
// The parser
// ---------------------------------------------------------------------------

/// A cursor over a token sequence.
pub struct Parser<'a> {
    tokens: &'a Vec<Token>,
    index: usize,
    input_end_pos: Pos,
}

pub open spec fn expr_res(r: Result<Expr, ParseError>, j: int) -> Result<(ExprV, int), PErr> {
    match r {
        Ok(e) => Ok((e@, j)),
        Err(e) => Err(pfault(e)),
    }
}

fn lbp_of(t: &TokenType) -> (r: u32)
    ensures
        r == lbp(t@),
{
    match t {
        TokenType::LParen => prec(Precedence::Call),
        TokenType::Times | TokenType::Divide => prec(Precedence::Product),
        TokenType::Plus | TokenType::Minus => prec(Precedence::Sum),
        _ => 0,
    }
}

fn token_to_binop(t: &TokenType) -> (r: Option<BinOp>)
    ensures
        r == binop_of(t@),
{
    match t {
        TokenType::Times => Some(BinOp::Mul),
        TokenType::Divide => Some(BinOp::Div),
        TokenType::Plus => Some(BinOp::Add),
        TokenType::Minus => Some(BinOp::Sub),
        _ => None,
    }
}

fn is_reserved_word(word: &str) -> (r: bool)
    ensures
        r == reserved(word@),
{
    str_eq(word, "shape")
}

/// Whether two token kinds are the same, text included.
fn same_token_type(a: &TokenType, b: &TokenType) -> (r: bool)
    ensures
        r == (a@ == b@),
{
    match (a, b) {
        (TokenType::LParen, TokenType::LParen) => true,
        (TokenType::RParen, TokenType::RParen) => true,
        (TokenType::LCurly, TokenType::LCurly) => true,
        (TokenType::RCurly, TokenType::RCurly) => true,
        (TokenType::Times, TokenType::Times) => true,
        (TokenType::Divide, TokenType::Divide) => true,
        (TokenType::Plus, TokenType::Plus) => true,
        (TokenType::Minus, TokenType::Minus) => true,
        (TokenType::Equals, TokenType::Equals) => true,
        (TokenType::Compare, TokenType::Compare) => true,
        (TokenType::Colon, TokenType::Colon) => true,
        (TokenType::Comma, TokenType::Comma) => true,
        (TokenType::Number(x), TokenType::Number(y)) => str_eq(x.as_str(), y.as_str()),
        (TokenType::Ident(x), TokenType::Ident(y)) => str_eq(x.as_str(), y.as_str()),
        (TokenType::String(x), TokenType::String(y)) => str_eq(x.as_str(), y.as_str()),
        _ => false,
    }
}

impl<'a> Parser<'a> {
    pub closed spec fn toks(&self) -> Seq<TokenV> {
        tokens_view(self.tokens@)
    }

    pub closed spec fn at(&self) -> int {
        self.index as int
    }

    pub closed spec fn end(&self) -> Pos {
        self.input_end_pos
    }

    pub closed spec fn wf(&self) -> bool {
        self.index <= self.tokens@.len()
    }

    pub open spec fn same_input(&self, other: &Parser<'a>) -> bool {
        self.toks() == other.toks() && self.end() == other.end()
    }

    /// A parser at the first of `input`.
    pub fn new(input: &'a Vec<Token>) -> (p: Parser<'a>)
        ensures
            p.wf(),
            p.toks() == tokens_view(input@),
            p.at() == 0,
            p.end() == program_end(tokens_view(input@)),
    {
        let end = if input.len() == 0 {
            Pos { line: 0, column: 0 }
        } else {
            input[input.len() - 1].token_pos.end
        };
        Parser { tokens: input, index: 0, input_end_pos: end }
    }

    fn peek(&self) -> (t: Option<&'a Token>)
        requires
            self.wf(),
        ensures
            match t {
                Some(t) => 0 <= self.at() < self.toks().len() && self.toks()[self.at()] == t@,
                None => self.at() >= self.toks().len(),
            },
    {
        if self.index < self.tokens.len() {
            Some(&self.tokens[self.index])
        } else {
            None
        }
    }

    fn bump(&mut self)
        requires
            old(self).wf(),
            old(self).at() < old(self).toks().len(),
        ensures
            final(self).wf(),
            final(self).same_input(old(self)),
            final(self).at() == old(self).at() + 1,
    {
        let n = self.tokens.len();
        assert(self.toks().len() == n);
        self.index = self.index + 1;
    }

    /// The kind of the next token, if any.
    pub fn next_token_type(&self) -> (r: Option<TokenType>)
        requires
            self.wf(),
        ensures
            match r {
                Some(t) => 0 <= self.at() < self.toks().len() && self.toks()[self.at()].kind == t@,
                None => self.at() >= self.toks().len(),
            },
    {
        match self.peek() {
            Some(t) => Some(t.token_type()),
            None => None,
        }
    }

    /// Moves past the next token if it is of the given kind.
    pub fn match_next(&mut self, token_type: TokenType) -> (r: Option<Token>)
        requires
            old(self).wf(),
        ensures
            final(self).wf(),
            final(self).same_input(old(self)),
            match r {
                Some(t) => is_tok(old(self).toks(), old(self).at(), token_type@)
                    && t@ == old(self).toks()[old(self).at()]
                    && final(self).at() == old(self).at() + 1,
                None => !is_tok(old(self).toks(), old(self).at(), token_type@)
                    && final(self).at() == old(self).at(),
            },
    {
        match self.peek() {
            Some(t) => {
                if same_token_type(&t.token_type, &token_type) {
                    self.bump();
                    Some(Token { token_type: t.token_type(), token_pos: t.token_pos })
                } else {
                    None
                }
            },
            None => None,
        }
    }

    /// Whether the next token is of the given kind, which carries no text.
    fn at_kind(&self, token_type: TokenType) -> (r: bool)
        requires
            self.wf(),
        ensures
            r == is_tok(self.toks(), self.at(), token_type@),
    {
        match self.peek() {
            Some(t) => same_token_type(&t.token_type, &token_type),
            None => false,
        }
    }

    fn error(&self, error_type: ParseErrorType, pos: Pos) -> (e: ParseError)
        ensures
            pfault(e) == (Error { error_type: error_type@, pos }),
    {
        Error::new(error_type, pos)
    }

    /// The error for finding something other than `what` at the cursor.
    fn unexpected(&self, what: Expectation) -> (e: ParseError)
        requires
            self.wf(),
        ensures
            Err::<(), PErr>(pfault(e)) == unexpected::<()>(self.toks(), self.end(), self.at(), what),
    {
        match self.peek() {
            Some(t) => self.error(ParseErrorType::Expected(what, Some(t.token_type())), t.token_pos.start),
            None => self.error(ParseErrorType::UnExpectedEndOfInput, self.input_end_pos),
        }
    }

    /// Whether the next token is an operator that binds tighter than `rbp`.
    fn next_binds_tighter(&self, rbp: u32) -> (r: bool)
        requires
            self.wf(),
        ensures
            r == (0 <= self.at() < self.toks().len() && lbp(self.toks()[self.at()].kind) > rbp),
    {
        match self.peek() {
            Some(t) => lbp_of(&t.token_type) > rbp,
            None => false,
        }
    }

    /// The expression at the cursor whose operators bind tighter than `rbp`.
    pub fn expression(&mut self, rbp: u32) -> (r: Result<Expr, ParseError>)
        requires
            old(self).wf(),
        ensures
            final(self).wf(),
            final(self).same_input(old(self)),
            expr_res(r, final(self).at()) == expr_at(old(self).toks(), old(self).end(), old(self).at(), rbp),
            r is Ok ==> final(self).at() > old(self).at(),
        decreases rest(old(self).toks(), old(self).at()), 3nat,
    {
        let ghost ts = self.toks();
        let ghost end = self.end();
        let ghost i0 = self.at();
        if self.index >= self.tokens.len() {
            return Err(self.error(ParseErrorType::UnExpectedEndOfInput, self.input_end_pos));
        }
        let mut left = self.parse_nud()?;
        loop
            invariant
                self.wf(),
                self.toks() == ts,
                self.end() == end,
                i0 == old(self).at(),
                ts == old(self).toks(),
                end == old(self).end(),
                0 <= i0 < ts.len(),
                self.at() > i0,
                expr_at(ts, end, i0, rbp) == led_loop(ts, end, self.at(), rbp, left@),
            decreases rest(ts, self.at()),
        {
            if !self.next_binds_tighter(rbp) {
                return Ok(left);
            }
            let ghost j = self.at();
            left = match self.parse_led(left) {
                Ok(e) => e,
                Err(e) => {
                    return Err(e);
                },
            };
            assert(self.at() > j);
        }
    }

    fn parse_nud(&mut self) -> (r: Result<Expr, ParseError>)
        requires
            old(self).wf(),
        ensures
            final(self).wf(),
            final(self).same_input(old(self)),
            expr_res(r, final(self).at()) == nud_at(old(self).toks(), old(self).end(), old(self).at()),
            r is Ok ==> final(self).at() > old(self).at(),
        decreases rest(old(self).toks(), old(self).at()), 2nat,
    {
        let t: &'a Token = match self.peek() {
            Some(t) => t,
            None => {
                return Err(self.error(ParseErrorType::UnExpectedEndOfInput, self.input_end_pos));
            },
        };
        self.bump();
        match &t.token_type {
            TokenType::Ident(s) => {
                if is_reserved_word(s.as_str()) {
                    Err(self.error(ParseErrorType::IdentifierCannotBeReservedWord(s.clone()), t.token_pos.start))
                } else {
                    Ok(Expr::Name(s.clone(), t.token_pos))
                }
            },
            TokenType::Number(n) => Ok(Expr::Literal(Literal::Number(n.clone()), t.token_pos)),
            TokenType::String(s) => Ok(Expr::Literal(Literal::String(s.clone()), t.token_pos)),
            TokenType::Minus => {
                let e = self.expression(prec(Precedence::Prefix))?;
                Ok(Expr::Unary(UnOp::Neg, Box::new(e), t.token_pos.start))
            },
            TokenType::LParen => {
                let e = self.expression(0)?;
                if self.at_kind(TokenType::RParen) {
                    self.bump();
                    Ok(Expr::Grouping(Box::new(e)))
                } else {
                    Err(self.error(ParseErrorType::UnBalancedParen, t.token_pos.start))
                }
            },
            _ => Err(
                self.error(ParseErrorType::Expected(Expectation::Literal, Some(t.token_type())), t.token_pos.start),
            ),
        }
    }

    fn parse_led(&mut self, left: Expr) -> (r: Result<Expr, ParseError>)
        requires
            old(self).wf(),
        ensures
            final(self).wf(),
            final(self).same_input(old(self)),
            expr_res(r, final(self).at()) == led_at(old(self).toks(), old(self).end(), old(self).at(), left@),
            r is Ok ==> final(self).at() > old(self).at(),
        decreases rest(old(self).toks(), old(self).at()), 0nat,
    {
        let t: &'a Token = match self.peek() {
            Some(t) => t,
            None => {
                return Err(self.error(ParseErrorType::UnExpectedEndOfInput, self.input_end_pos));
            },
        };
        match token_to_binop(&t.token_type) {
            Some(op) => {
                self.bump();
                let rhs = self.expression(lbp_of(&t.token_type))?;
                Ok(Expr::Binary(Box::new(left), op, Box::new(rhs), t.token_pos.start))
            },
            None => Err(
                self.error(ParseErrorType::Expected(Expectation::Operator, Some(t.token_type())), t.token_pos.start),
            ),
        }
    }
    /// An identifier at the cursor, with its position.
    pub fn parse_ident(&mut self) -> (r: Result<(String, Pos), ParseError>)
        requires
            old(self).wf(),
        ensures
            final(self).wf(),
            final(self).same_input(old(self)),
            match r {
                Ok((name, pos)) => ident_at(old(self).toks(), old(self).end(), old(self).at())
                    == Ok::<(Seq<char>, Pos, int), PErr>((name@, pos, final(self).at())),
                Err(e) => ident_at(old(self).toks(), old(self).end(), old(self).at())
                    == Err::<(Seq<char>, Pos, int), PErr>(pfault(e)),
            },
    {
        let t: &'a Token = match self.peek() {
            Some(t) => t,
            None => {
                return Err(self.error(ParseErrorType::UnExpectedEndOfInput, self.input_end_pos));
            },
        };
        match &t.token_type {
            TokenType::Ident(s) => {
                if is_reserved_word(s.as_str()) {
                    Err(self.error(ParseErrorType::IdentifierCannotBeReservedWord(s.clone()), t.token_pos.start))
                } else {
                    self.bump();
                    Ok((s.clone(), t.token_pos.start))
                }
            },
            _ => Err(self.unexpected(Expectation::Identifier)),
        }
    }

    /// The reserved word `word` at the cursor; gives its position.
    pub fn parse_reserved_word(&mut self, word: &str) -> (r: Result<Pos, ParseError>)
        requires
            old(self).wf(),
        ensures
            final(self).wf(),
            final(self).same_input(old(self)),
            ({
                let ts = old(self).toks();
                let i = old(self).at();
                if 0 <= i < ts.len() && ts[i].kind == Tok::Ident(word@) {
                    r == Ok::<Pos, ParseError>(ts[i].range.start) && final(self).at() == i + 1
                } else {
                    r matches Err(e) && Err::<(), PErr>(pfault(e)) == unexpected::<()>(ts, old(self).end(), i, Expectation::Keyword)
                }
            }),
    {
        let t: &'a Token = match self.peek() {
            Some(t) => t,
            None => {
                return Err(self.error(ParseErrorType::UnExpectedEndOfInput, self.input_end_pos));
            },
        };
        match &t.token_type {
            TokenType::Ident(s) => {
                if str_eq(s.as_str(), word) {
                    self.bump();
                    return Ok(t.token_pos.start);
                }
            },
            _ => {},
        }
        Err(self.unexpected(Expectation::Keyword))
    }

    /// `name: expr`
    pub fn parse_named_arg(&mut self) -> (r: Result<NamedArg, ParseError>)
        requires
            old(self).wf(),
        ensures
            final(self).wf(),
            final(self).same_input(old(self)),
            match r {
                Ok(a) => named_arg_at(old(self).toks(), old(self).end(), old(self).at())
                    == Ok::<(NamedArgV, int), PErr>((a@, final(self).at())),
                Err(e) => named_arg_at(old(self).toks(), old(self).end(), old(self).at())
                    == Err::<(NamedArgV, int), PErr>(pfault(e)),
            },
            r is Ok ==> final(self).at() > old(self).at(),
    {
        let (name, _) = self.parse_ident()?;
        if !self.at_kind(TokenType::Colon) {
            return Err(self.unexpected(Expectation::ColonAfterArgName));
        }
        self.bump();
        let expr = self.expression(0)?;
        Ok(NamedArg { name, expr })
    }

    /// `name(args)`
    pub fn parse_function_call(&mut self) -> (r: Result<FunCall, ParseError>)
        requires
            old(self).wf(),
        ensures
            final(self).wf(),
            final(self).same_input(old(self)),
            match r {
                Ok(c) => call_at(old(self).toks(), old(self).end(), old(self).at())
                    == Ok::<(FunCallV, int), PErr>((c@, final(self).at())),
                Err(e) => call_at(old(self).toks(), old(self).end(), old(self).at())
                    == Err::<(FunCallV, int), PErr>(pfault(e)),
            },
            r is Ok ==> final(self).at() > old(self).at(),
    {
        let ghost ts = self.toks();
        let ghost end = self.end();
        let ghost i0 = self.at();
        let (ident, ident_pos) = self.parse_ident()?;
        if !self.at_kind(TokenType::LParen) {
            return Err(self.unexpected(Expectation::ParenAfterCallName));
        }
        self.bump();
        let ghost j = self.at();
        let mut args: Vec<NamedArg> = Vec::new();
        if !self.at_kind(TokenType::RParen) {
            let first = self.parse_named_arg()?;
            args.push(first);
            assert(args@.map_values(|a: NamedArg| a@) =~= seq![first@]);
            loop
                invariant
                    self.wf(),
                    self.toks() == ts,
                    self.end() == end,
                    self.at() > j,
                    ts == old(self).toks(),
                    end == old(self).end(),
                    i0 == old(self).at(),
                    ident_at(ts, end, i0) == Ok::<(Seq<char>, Pos, int), PErr>((ident@, ident_pos, j - 1)),
                    is_tok(ts, j - 1, Tok::LParen),
                    args_at(ts, end, j) == more_args(ts, end, self.at(), args@.map_values(|a: NamedArg| a@)),
                ensures
                    !is_tok(ts, self.at(), Tok::Comma),
                decreases rest(ts, self.at()),
            {
                if !self.at_kind(TokenType::Comma) {
                    break;
                }
                self.bump();
                let arg = self.parse_named_arg()?;
                let ghost before = args@;
                args.push(arg);
                assert(args@.map_values(|a: NamedArg| a@) =~= before.map_values(|a: NamedArg| a@).push(arg@));
            }
        } else {
            assert(args@.map_values(|a: NamedArg| a@) =~= Seq::<NamedArgV>::empty());
        }
        let close: &'a Token = match self.peek() {
            Some(t) => t,
            None => {
                return Err(self.error(ParseErrorType::UnExpectedEndOfInput, self.input_end_pos));
            },
        };
        match close.token_type {
            TokenType::RParen => {},
            _ => {
                return Err(self.unexpected(Expectation::ParenClosingArgs));
            },
        }
        self.bump();
        Ok(FunCall { ident, args, range: Range { start: ident_pos, end: close.token_pos.start } })
    }

    /// `{ calls }`
    pub fn parse_block(&mut self) -> (r: Result<Block, ParseError>)
        requires
            old(self).wf(),
        ensures
            final(self).wf(),
            final(self).same_input(old(self)),
            match r {
                Ok(b) => block_at(old(self).toks(), old(self).end(), old(self).at())
                    == Ok::<(BlockV, int), PErr>((b@, final(self).at())),
                Err(e) => block_at(old(self).toks(), old(self).end(), old(self).at())
                    == Err::<(BlockV, int), PErr>(pfault(e)),
            },
            r is Ok ==> final(self).at() > old(self).at(),
    {
        let ghost ts = self.toks();
        let ghost end = self.end();
        let ghost i0 = self.at();
        let open: &'a Token = match self.peek() {
            Some(t) => t,
            None => {
                return Err(self.error(ParseErrorType::UnExpectedEndOfInput, self.input_end_pos));
            },
        };
        match open.token_type {
            TokenType::LCurly => {},
            _ => {
                return Err(self.unexpected(Expectation::BlockStart));
            },
        }
        self.bump();
        let start = open.token_pos.start;
        let mut calls: Vec<FunCall> = Vec::new();
        assert(calls@.map_values(|c: FunCall| c@) =~= Seq::<FunCallV>::empty());
        loop
            invariant
                self.wf(),
                self.toks() == ts,
                self.end() == end,
                self.at() > i0,
                ts == old(self).toks(),
                end == old(self).end(),
                i0 == old(self).at(),
                block_at(ts, end, i0) == calls_loop(ts, end, self.at(), calls@.map_values(|c: FunCall| c@), start),
            decreases rest(ts, self.at()),
        {
            match self.peek() {
                Some(t) => {
                    match t.token_type {
                        TokenType::RCurly => {
                            self.bump();
                            return Ok(Block { calls, range: Range { start, end: t.token_pos.end } });
                        },
                        _ => {},
                    }
                },
                None => {},
            }
            let call = self.parse_function_call()?;
            let ghost before = calls@;
            calls.push(call);
            assert(calls@.map_values(|c: FunCall| c@) =~= before.map_values(|c: FunCall| c@).push(call@));
        }
    }

    /// `name` or `name = expr` in a shape's parameter list.
    fn parse_param(&mut self) -> (r: Result<Param, ParseError>)
        requires
            old(self).wf(),
        ensures
            final(self).wf(),
            final(self).same_input(old(self)),
            match r {
                Ok(p) => param_at(old(self).toks(), old(self).end(), old(self).at())
                    == Ok::<(ParamV, int), PErr>((p@, final(self).at())),
                Err(e) => param_at(old(self).toks(), old(self).end(), old(self).at())
                    == Err::<(ParamV, int), PErr>(pfault(e)),
            },
            r is Ok ==> final(self).at() > old(self).at(),
    {
        let (name, _) = self.parse_ident()?;
        if self.at_kind(TokenType::Equals) {
            self.bump();
            let d = self.expression(0)?;
            Ok(Param { name, default: Some(d) })
        } else {
            Ok(Param { name, default: None })
        }
    }

    /// `shape name(params) { calls }`
    pub fn shape(&mut self) -> (r: Result<Shape, ParseError>)
        requires
            old(self).wf(),
        ensures
            final(self).wf(),
            final(self).same_input(old(self)),
            match r {
                Ok(s) => shape_at(old(self).toks(), old(self).end(), old(self).at())
                    == Ok::<(ShapeV, int), PErr>((s@, final(self).at())),
                Err(e) => shape_at(old(self).toks(), old(self).end(), old(self).at())
                    == Err::<(ShapeV, int), PErr>(pfault(e)),
            },
            r is Ok ==> final(self).at() > old(self).at(),
    {
        let ghost ts = self.toks();
        let ghost end = self.end();
        let ghost i0 = self.at();
        let start = self.parse_reserved_word("shape")?;
        let (name, name_pos) = self.parse_ident()?;
        if !self.at_kind(TokenType::LParen) {
            return Err(self.unexpected(Expectation::ParenAfterShapeName));
        }
        self.bump();
        let ghost j = self.at();
        let mut args: Vec<Param> = Vec::new();
        if !self.at_kind(TokenType::RParen) {
            let first = self.parse_param()?;
            args.push(first);
            assert(args@.map_values(|p: Param| p@) =~= seq![first@]);
            loop
                invariant
                    self.wf(),
                    self.toks() == ts,
                    self.end() == end,
                    self.at() > j,
                    ts == old(self).toks(),
                    end == old(self).end(),
                    i0 == old(self).at(),
                    0 <= i0 < ts.len(),
                    ts[i0].kind == Tok::Ident("shape"@),
                    start == ts[i0].range.start,
                    ident_at(ts, end, i0 + 1) == Ok::<(Seq<char>, Pos, int), PErr>((name@, name_pos, j - 1)),
                    is_tok(ts, j - 1, Tok::LParen),
                    params_at(ts, end, j) == more_params(ts, end, self.at(), args@.map_values(|p: Param| p@)),
                ensures
                    !is_tok(ts, self.at(), Tok::Comma),
                decreases rest(ts, self.at()),
            {
                if !self.at_kind(TokenType::Comma) {
                    break;
                }
                self.bump();
                let p = self.parse_param()?;
                let ghost before = args@;
                args.push(p);
                assert(args@.map_values(|p: Param| p@) =~= before.map_values(|p: Param| p@).push(p@));
            }
        } else {
            assert(args@.map_values(|p: Param| p@) =~= Seq::<ParamV>::empty());
        }
        if !self.at_kind(TokenType::RParen) {
            return Err(self.unexpected(Expectation::ParenClosingParams));
        }
        self.bump();
        let block = self.parse_block()?;
        Ok(Shape { name, args, block, pos: start })
    }

    /// A declaration: a shape.
    pub fn decl(&mut self) -> (r: Result<Decl, ParseError>)
        requires
            old(self).wf(),
        ensures
            final(self).wf(),
            final(self).same_input(old(self)),
            match r {
                Ok(d) => shape_at(old(self).toks(), old(self).end(), old(self).at())
                    == Ok::<(ShapeV, int), PErr>((d@, final(self).at())),
                Err(e) => shape_at(old(self).toks(), old(self).end(), old(self).at())
                    == Err::<(ShapeV, int), PErr>(pfault(e)),
            },
            r is Ok ==> final(self).at() > old(self).at(),
    {
        let shape = self.shape()?;
        Ok(Decl::ShapeDecl(shape))
    }

    /// The declarations from the cursor to the end of the input.
    pub fn program(&mut self) -> (r: Result<Program, ParseError>)
        requires
            old(self).wf(),
        ensures
            match r {
                Ok(p) => shapes_loop(old(self).toks(), old(self).end(), old(self).at(), Seq::empty())
                    == Ok::<ProgramV, PErr>(p@),
                Err(e) => shapes_loop(old(self).toks(), old(self).end(), old(self).at(), Seq::empty())
                    == Err::<ProgramV, PErr>(pfault(e)),
            },
    {
        let ghost ts = self.toks();
        let ghost end = self.end();
        let ghost i0 = self.at();
        let mut decls: Vec<Decl> = Vec::new();
        assert(decls@.map_values(|d: Decl| d@) =~= Seq::<ShapeV>::empty());
        while self.index < self.tokens.len()
            invariant
                self.wf(),
                self.toks() == ts,
                self.end() == end,
                i0 == old(self).at(),
                ts == old(self).toks(),
                end == old(self).end(),
                shapes_loop(ts, end, i0, Seq::empty()) == shapes_loop(ts, end, self.at(), decls@.map_values(|d: Decl| d@)),
            decreases rest(ts, self.at()),
        {
            let d = self.decl()?;
            let ghost before = decls@;
            decls.push(d);
            assert(decls@.map_values(|d: Decl| d@) =~= before.map_values(|d: Decl| d@).push(d@));
        }
        Ok(Program { decls, end: self.input_end_pos })
    }

    /// An expression statement.
    pub fn statement(&mut self) -> (r: Result<Stmt, ParseError>)
        requires
            old(self).wf(),
        ensures
            final(self).wf(),
            final(self).same_input(old(self)),
            match r {
                Ok(Stmt::Expr(e, p)) => expr_at(old(self).toks(), old(self).end(), old(self).at(), 0)
                    == Ok::<(ExprV, int), PErr>((e@, final(self).at())) && p == e.spec_pos(),
                Err(e) => expr_at(old(self).toks(), old(self).end(), old(self).at(), 0)
                    == Err::<(ExprV, int), PErr>(pfault(e)),
            },
    {
        let expr = self.expression(0)?;
        let pos = expr.pos();
        Ok(Stmt::Expr(expr, pos))
    }
}

/// Parses a whole token sequence into a program.
pub fn parse_program(tokens: Vec<Token>) -> (r: Result<Program, ParseError>)
    ensures
        match r {
            Ok(p) => parsed(tokens_view(tokens@)) == Ok::<ProgramV, PErr>(p@),
            Err(e) => parsed(tokens_view(tokens@)) == Err::<ProgramV, PErr>(pfault(e)),
        },
{
    let mut parser = Parser::new(&tokens);
    parser.program()
}

/// Parses one expression from the start of a token sequence.
pub fn parse_expression(tokens: Vec<Token>) -> (r: Result<Expr, ParseError>)
    ensures
        ({
            let ts = tokens_view(tokens@);
            match (r, expr_at(ts, program_end(ts), 0, 0)) {
                (Ok(e), Ok((ev, _))) => e@ == ev,
                (Err(e), Err(f)) => pfault(e) == f,
                _ => false,
            }
        }),
{
    let mut parser = Parser::new(&tokens);
    parser.expression(0)
}


/// The word `shape` is refused wherever an identifier or an expression is
/// expected: as a shape's name, a parameter, a call, an argument name or a
/// variable.
pub proof fn law_reserved_word(ts: Seq<TokenV>, end: Pos, i: int, rbp: u32)
    requires
        0 <= i < ts.len(),
        ts[i].kind == Tok::Ident("shape"@),
    ensures
        ident_at(ts, end, i) == perr::<(Seq<char>, Pos, int)>(
            ParseFault::IdentifierCannotBeReservedWord("shape"@),
            ts[i].range.start,
        ),
        expr_at(ts, end, i, rbp) == perr::<(ExprV, int)>(
            ParseFault::IdentifierCannotBeReservedWord("shape"@),
            ts[i].range.start,
        ),
        i >= 1 && ts[i - 1].kind == Tok::Ident("shape"@) ==> shape_at(ts, end, i - 1) == perr::<(ShapeV, int)>(
            ParseFault::IdentifierCannotBeReservedWord("shape"@),
            ts[i].range.start,
        ),
{
}

} // verus!
