use vstd::prelude::*;

use crate::error::Error;
use crate::pos::{HasPos, Pos, Range};

verus! {

/// The ways in which lexing can fail.
#[derive(Debug, Clone, Copy, PartialEq, Eq, Structural)]
pub enum LexerErrorType {
    InvalidIdentifier,
    StringNeverTerminated,
    UnexpectedCharacter(char),
}

pub type LexerError = Error<LexerErrorType>;

/// The kind of a token, with its text where it has one.
///
/// A number keeps the text of its literal (digits and at most one dot,
/// starting with a digit); its binary64 value is the nearest double to it.
#[derive(Debug, Clone, PartialEq)]
pub enum TokenType {
    LParen,
    RParen,
    LCurly,
    RCurly,
    Times,
    Divide,
    Plus,
    Minus,
    Equals,
    Compare,
    Colon,
    Comma,
    Number(String),
    Ident(String),
    String(String),
}

/// The mathematical view of a token kind.
pub enum Tok {
    LParen,
    RParen,
    LCurly,
    RCurly,
    Times,
    Divide,
    Plus,
    Minus,
    Equals,
    Compare,
    Colon,
    Comma,
    Number(Seq<char>),
    Ident(Seq<char>),
    Str(Seq<char>),
}

impl View for TokenType {
    type V = Tok;

    open spec fn view(&self) -> Tok {
        match self {
            TokenType::LParen => Tok::LParen,
            TokenType::RParen => Tok::RParen,
            TokenType::LCurly => Tok::LCurly,
            TokenType::RCurly => Tok::RCurly,
            TokenType::Times => Tok::Times,
            TokenType::Divide => Tok::Divide,
            TokenType::Plus => Tok::Plus,
            TokenType::Minus => Tok::Minus,
            TokenType::Equals => Tok::Equals,
            TokenType::Compare => Tok::Compare,
            TokenType::Colon => Tok::Colon,
            TokenType::Comma => Tok::Comma,
            TokenType::Number(s) => Tok::Number(s@),
            TokenType::Ident(s) => Tok::Ident(s@),
            TokenType::String(s) => Tok::Str(s@),
        }
    }
}

/// A token and the span of source text it was read from.
#[derive(Debug, Clone, PartialEq)]
pub struct Token {
    pub token_type: TokenType,
    pub token_pos: Range,
}

pub struct TokenV {
    pub kind: Tok,
    pub range: Range,
}

impl View for Token {
    type V = TokenV;

    open spec fn view(&self) -> TokenV {
        TokenV { kind: self.token_type@, range: self.token_pos }
    }
}

pub open spec fn tokens_view(ts: Seq<Token>) -> Seq<TokenV> {
    ts.map_values(|t: Token| t@)
}

impl Token {
    pub fn token_type(&self) -> (t: TokenType)
        ensures
            t@ == self.token_type@,
    {
        match &self.token_type {
            TokenType::LParen => TokenType::LParen,
            TokenType::RParen => TokenType::RParen,
            TokenType::LCurly => TokenType::LCurly,
            TokenType::RCurly => TokenType::RCurly,
            TokenType::Times => TokenType::Times,
            TokenType::Divide => TokenType::Divide,
            TokenType::Plus => TokenType::Plus,
            TokenType::Minus => TokenType::Minus,
            TokenType::Equals => TokenType::Equals,
            TokenType::Compare => TokenType::Compare,
            TokenType::Colon => TokenType::Colon,
            TokenType::Comma => TokenType::Comma,
            TokenType::Number(s) => TokenType::Number(s.clone()),
            TokenType::Ident(s) => TokenType::Ident(s.clone()),
            TokenType::String(s) => TokenType::String(s.clone()),
        }
    }

    pub fn token_pos(&self) -> (r: Range)
        ensures
            r == self.token_pos,
    {
        self.token_pos
    }
}

impl HasPos for Token {
    open spec fn spec_pos(&self) -> Pos {
        self.token_pos.start
    }

    fn pos(&self) -> (p: Pos) {
        self.token_pos.start
    }
}

// ---------------------------------------------------------------------------
// Character classes
// ---------------------------------------------------------------------------

pub open spec fn spec_is_alpha(c: char) -> bool {
    ('a' <= c && c <= 'z') || ('A' <= c && c <= 'Z')
}

pub open spec fn spec_is_digit(c: char) -> bool {
    '0' <= c && c <= '9'
}

pub open spec fn spec_is_alphanum(c: char) -> bool {
    spec_is_alpha(c) || spec_is_digit(c)
}

fn is_alpha(c: char) -> (r: bool)
    ensures
        r == spec_is_alpha(c),
{
    ('a' <= c && c <= 'z') || ('A' <= c && c <= 'Z')
}

fn is_digit(c: char) -> (r: bool)
    ensures
        r == spec_is_digit(c),
{
    '0' <= c && c <= '9'
}

fn is_alphanum(c: char) -> (r: bool)
    ensures
        r == spec_is_alphanum(c),
{
    is_alpha(c) || is_digit(c)
}

/// Whether `c` has the Unicode `White_Space` property, which is what
/// `str::trim` removes.
pub open spec fn white_space(c: char) -> bool {
    ||| ('\u{9}' <= c && c <= '\u{d}')
    ||| c == ' '
    ||| c == '\u{85}'
    ||| c == '\u{a0}'
    ||| c == '\u{1680}'
    ||| ('\u{2000}' <= c && c <= '\u{200a}')
    ||| c == '\u{2028}'
    ||| c == '\u{2029}'
    ||| c == '\u{202f}'
    ||| c == '\u{205f}'
    ||| c == '\u{3000}'
}

fn is_white_space(c: char) -> (r: bool)
    ensures
        r == white_space(c),
{
    ('\u{9}' <= c && c <= '\u{d}') || c == ' ' || c == '\u{85}' || c == '\u{a0}' || c == '\u{1680}'
        || ('\u{2000}' <= c && c <= '\u{200a}') || c == '\u{2028}' || c == '\u{2029}'
        || c == '\u{202f}' || c == '\u{205f}' || c == '\u{3000}'
}

// ---------------------------------------------------------------------------
// The token language, as spec functions over the characters of the input
// ---------------------------------------------------------------------------

/// Index of the first character at or after `i` that is not white space.
pub open spec fn trim_start(s: Seq<char>, i: int) -> int
    decreases s.len() - i,
{
    if 0 <= i < s.len() && white_space(s[i]) {
        trim_start(s, i + 1)
    } else {
        i
    }
}

/// One past the index of the last character before `j` that is not white space.
pub open spec fn trim_end(s: Seq<char>, j: int) -> int
    decreases j,
{
    if 0 < j <= s.len() && white_space(s[j - 1]) {
        trim_end(s, j - 1)
    } else {
        j
    }
}

/// The input with leading and trailing white space removed.
pub open spec fn trimmed(s: Seq<char>) -> Seq<char> {
    let a = trim_start(s, 0);
    let b = trim_end(s, s.len() as int);
    if a < b {
        s.subrange(a, b)
    } else {
        Seq::empty()
    }
}

pub open spec fn mk_pos(line: int, col: int) -> Pos {
    Pos { line: line as u32, column: col as u32 }
}

pub open spec fn mk_token(kind: Tok, line: int, c0: int, c1: int) -> TokenV {
    TokenV { kind, range: Range { start: mk_pos(line, c0), end: mk_pos(line, c1) } }
}

/// Skips spaces, tabs and line breaks from index `i`; gives the next index,
/// line and column.
pub open spec fn skip_blank(cs: Seq<char>, i: int, line: int, col: int) -> (int, int, int)
    decreases cs.len() - i,
{
    if 0 <= i < cs.len() && (cs[i] == ' ' || cs[i] == '\t') {
        skip_blank(cs, i + 1, line, col + 1)
    } else if 0 <= i < cs.len() && (cs[i] == '\n' || cs[i] == '\r') {
        skip_blank(cs, i + 1, line + 1, 0)
    } else {
        (i, line, col)
    }
}

/// End of the run of letters and digits that starts at `i`.
pub open spec fn ident_end(cs: Seq<char>, i: int) -> int
    decreases cs.len() - i,
{
    if 0 <= i < cs.len() && spec_is_alphanum(cs[i]) {
        ident_end(cs, i + 1)
    } else {
        i
    }
}

/// End of the run of digits, with at most one dot, that starts at `i`.
pub open spec fn number_end(cs: Seq<char>, i: int, seen_dot: bool) -> int
    decreases cs.len() - i,
{
    if 0 <= i < cs.len() && cs[i] == '.' && !seen_dot {
        number_end(cs, i + 1, true)
    } else if 0 <= i < cs.len() && spec_is_digit(cs[i]) {
        number_end(cs, i + 1, seen_dot)
    } else {
        i
    }
}

/// Index of the first double quote at or after `i`, or the length.
pub open spec fn quote_at(cs: Seq<char>, i: int) -> int
    decreases cs.len() - i,
{
    if 0 <= i < cs.len() && cs[i] != '"' {
        quote_at(cs, i + 1)
    } else {
        i
    }
}

pub open spec fn single(c: char) -> Option<Tok> {
    if c == '(' {
        Some(Tok::LParen)
    } else if c == ')' {
        Some(Tok::RParen)
    } else if c == '{' {
        Some(Tok::LCurly)
    } else if c == '}' {
        Some(Tok::RCurly)
    } else if c == '*' {
        Some(Tok::Times)
    } else if c == '/' {
        Some(Tok::Divide)
    } else if c == '+' {
        Some(Tok::Plus)
    } else if c == '-' {
        Some(Tok::Minus)
    } else if c == ':' {
        Some(Tok::Colon)
    } else if c == ',' {
        Some(Tok::Comma)
    } else {
        None
    }
}

/// The token that starts at index `i` (on `line`, at `col`), with the index
/// and column just past it.
pub open spec fn scan(cs: Seq<char>, i: int, line: int, col: int) -> Result<(TokenV, int, int), LexerError>
    recommends
        0 <= i < cs.len(),
{
    let c = cs[i];
    if single(c) is Some {
        Ok((mk_token(single(c)->0, line, col, col + 1), i + 1, col + 1))
    } else if c == '=' {
        if i + 1 < cs.len() && cs[i + 1] == '=' {
            Ok((mk_token(Tok::Compare, line, col, col + 2), i + 2, col + 2))
        } else {
            Ok((mk_token(Tok::Equals, line, col, col + 1), i + 1, col + 1))
        }
    } else if c == '"' {
        let q = quote_at(cs, i + 1);
        if q >= cs.len() {
            Err(Error { error_type: LexerErrorType::StringNeverTerminated, pos: mk_pos(line, col) })
        } else {
            let n = q + 1 - i;
            Ok((mk_token(Tok::Str(cs.subrange(i + 1, q)), line, col, col + n), q + 1, col + n))
        }
    } else if spec_is_alpha(c) {
        let e = ident_end(cs, i + 1);
        Ok((mk_token(Tok::Ident(cs.subrange(i, e)), line, col, col + (e - i)), e, col + (e - i)))
    } else if spec_is_digit(c) {
        let e = number_end(cs, i, false);
        Ok((mk_token(Tok::Number(cs.subrange(i, e)), line, col, col + (e - i)), e, col + (e - i)))
    } else {
        Err(Error { error_type: LexerErrorType::UnexpectedCharacter(c), pos: mk_pos(line, col) })
    }
}

/// One step of the lexer from index `i`: the next token, with the index,
/// line and column after it, or `None` at the end of the input.
pub open spec fn step(cs: Seq<char>, i: int, line: int, col: int) -> Result<Option<(TokenV, int, int, int)>, LexerError> {
    let (j, l, c) = skip_blank(cs, i, line, col);
    if !(0 <= j < cs.len()) {
        Ok(None)
    } else {
        match scan(cs, j, l, c) {
            Err(e) => Err(e),
            Ok((t, k, c2)) => Ok(Some((t, k, l, c2))),
        }
    }
}

/// The tokens of `cs` from index `i` on.
pub open spec fn lex_from(cs: Seq<char>, i: int, line: int, col: int) -> Result<Seq<TokenV>, LexerError>
    decreases cs.len() - i,
    via lex_from_decreases
{
    if 0 <= i && 0 <= line && 0 <= col {
        match step(cs, i, line, col) {
            Err(e) => Err(e),
            Ok(None) => Ok(Seq::empty()),
            Ok(Some((t, k, l, c))) => match lex_from(cs, k, l, c) {
                Err(e) => Err(e),
                Ok(rest) => Ok(seq![t] + rest),
            },
        }
    } else {
        Ok(Seq::empty())
    }
}

#[via_fn]
proof fn lex_from_decreases(cs: Seq<char>, i: int, line: int, col: int) {
    if 0 <= i && 0 <= line && 0 <= col {
        match step(cs, i, line, col) {
            Ok(Some((t, k, l, c))) => {
                lemma_step_advances(cs, i, line, col);
            },
            _ => {},
        }
    }
}

/// The tokens of a source text: what `lex` returns.
pub open spec fn lexed(s: Seq<char>) -> Result<Seq<TokenV>, LexerError> {
    lex_from(trimmed(s), 0, 0, 0)
}

proof fn lemma_skip_blank(cs: Seq<char>, i: int, line: int, col: int)
    requires
        0 <= i,
        0 <= line,
        0 <= col,
    ensures
        ({
            let (j, l, c) = skip_blank(cs, i, line, col);
            &&& i <= j
            &&& (j < cs.len() ==> !(cs[j] == ' ' || cs[j] == '\t' || cs[j] == '\n' || cs[j] == '\r'))
            &&& (i <= cs.len() ==> j <= cs.len())
            &&& 0 <= l && 0 <= c
            &&& l + c <= line + col + (j - i)
        }),
    decreases cs.len() - i,
{
    if 0 <= i < cs.len() && (cs[i] == ' ' || cs[i] == '\t') {
        lemma_skip_blank(cs, i + 1, line, col + 1);
    } else if 0 <= i < cs.len() && (cs[i] == '\n' || cs[i] == '\r') {
        lemma_skip_blank(cs, i + 1, line + 1, 0);
    }
}

proof fn lemma_ident_end(cs: Seq<char>, i: int)
    requires
        0 <= i <= cs.len(),
    ensures
        i <= ident_end(cs, i) <= cs.len(),
        forall|k: int| i <= k < ident_end(cs, i) ==> spec_is_alphanum(#[trigger] cs[k]),
        ident_end(cs, i) < cs.len() ==> !spec_is_alphanum(cs[ident_end(cs, i)]),
    decreases cs.len() - i,
{
    if i < cs.len() && spec_is_alphanum(cs[i]) {
        lemma_ident_end(cs, i + 1);
    }
}

proof fn lemma_number_end(cs: Seq<char>, i: int, seen_dot: bool)
    requires
        0 <= i <= cs.len(),
    ensures
        i <= number_end(cs, i, seen_dot) <= cs.len(),
    decreases cs.len() - i,
{
    if i < cs.len() && cs[i] == '.' && !seen_dot {
        lemma_number_end(cs, i + 1, true);
    } else if i < cs.len() && spec_is_digit(cs[i]) {
        lemma_number_end(cs, i + 1, seen_dot);
    }
}

proof fn lemma_quote_at(cs: Seq<char>, i: int)
    requires
        0 <= i <= cs.len(),
    ensures
        i <= quote_at(cs, i) <= cs.len(),
        forall|k: int| i <= k < quote_at(cs, i) ==> #[trigger] cs[k] != '"',
        quote_at(cs, i) < cs.len() ==> cs[quote_at(cs, i)] == '"',
    decreases cs.len() - i,
{
    if i < cs.len() && cs[i] != '"' {
        lemma_quote_at(cs, i + 1);
    }
}

/// A step that yields a token consumes at least one character and keeps
/// the line plus column within the count of characters read.
proof fn lemma_step_advances(cs: Seq<char>, i: int, line: int, col: int)
    requires
        0 <= i,
        0 <= line,
        0 <= col,
    ensures
        step(cs, i, line, col) matches Ok(Some((t, k, l, c))) ==> {
            &&& i < k <= cs.len()
            &&& 0 <= l && 0 <= c
            &&& l + c <= line + col + (k - i)
        },
{
    lemma_skip_blank(cs, i, line, col);
    let (j, l, c) = skip_blank(cs, i, line, col);
    if 0 <= j < cs.len() {
        if cs[j] == '"' {
            lemma_quote_at(cs, j + 1);
        } else if spec_is_alpha(cs[j]) {
            lemma_ident_end(cs, j + 1);
        } else if spec_is_digit(cs[j]) {
            lemma_number_end(cs, j + 1, false);
            assert(number_end(cs, j, false) == number_end(cs, j + 1, false));
        }
    }
}

/// Digits with at most one dot, led by a digit: the text of a number token.
pub open spec fn decimal_literal(t: Seq<char>) -> bool {
    &&& t.len() > 0
    &&& spec_is_digit(t[0])
    &&& forall|k: int| 0 <= k < t.len() ==> spec_is_digit(#[trigger] t[k]) || t[k] == '.'
    &&& forall|a: int, b: int| 0 <= a < b < t.len() && #[trigger] t[a] == '.' ==> #[trigger] t[b] != '.'
}

proof fn lemma_number_run(cs: Seq<char>, i: int, seen_dot: bool)
    requires
        0 <= i <= cs.len(),
    ensures
        forall|k: int| i <= k < number_end(cs, i, seen_dot) ==> spec_is_digit(#[trigger] cs[k]) || cs[k] == '.',
        seen_dot ==> forall|k: int| i <= k < number_end(cs, i, seen_dot) ==> #[trigger] cs[k] != '.',
        forall|a: int, b: int| i <= a < b < number_end(cs, i, seen_dot) && #[trigger] cs[a] == '.' ==> #[trigger] cs[b] != '.',
    decreases cs.len() - i,
{
    lemma_number_end(cs, i, seen_dot);
    if i < cs.len() && cs[i] == '.' && !seen_dot {
        lemma_number_run(cs, i + 1, true);
    } else if i < cs.len() && spec_is_digit(cs[i]) {
        lemma_number_run(cs, i + 1, seen_dot);
    }
}

proof fn lemma_step_numbers(cs: Seq<char>, i: int, line: int, col: int)
    requires
        0 <= i,
        0 <= line,
        0 <= col,
    ensures
        step(cs, i, line, col) matches Ok(Some((t, k, l, c))) ==> (t.kind is Number ==> decimal_literal(t.kind->Number_0)),
{
    lemma_skip_blank(cs, i, line, col);
    let (j, l, c) = skip_blank(cs, i, line, col);
    if 0 <= j < cs.len() && spec_is_digit(cs[j]) {
        lemma_number_run(cs, j, false);
        lemma_number_end(cs, j + 1, false);
        assert(number_end(cs, j, false) == number_end(cs, j + 1, false));
        let t = cs.subrange(j, number_end(cs, j, false));
        assert forall|a: int, b: int| 0 <= a < b < t.len() && #[trigger] t[a] == '.' implies #[trigger] t[b] != '.' by {
            assert(cs[j + a] == t[a] && cs[j + b] == t[b]);
        }
        assert forall|k: int| 0 <= k < t.len() implies spec_is_digit(#[trigger] t[k]) || t[k] == '.' by {
            assert(cs[j + k] == t[k]);
        }
    }
}

proof fn lemma_lex_from_numbers(cs: Seq<char>, i: int, line: int, col: int)
    ensures
        lex_from(cs, i, line, col) matches Ok(ts) ==> forall|n: int| 0 <= n < ts.len() && (#[trigger] ts[n]).kind is Number ==> decimal_literal(ts[n].kind->Number_0),
    decreases cs.len() - i,
{
    if 0 <= i && 0 <= line && 0 <= col {
        lemma_step_advances(cs, i, line, col);
        lemma_step_numbers(cs, i, line, col);
        match step(cs, i, line, col) {
            Ok(Some((t, k, l, c))) => {
                lemma_lex_from_numbers(cs, k, l, c);
                match lex_from(cs, k, l, c) {
                    Ok(rest) => {
                        let ts = seq![t] + rest;
                        assert forall|n: int| 0 <= n < ts.len() && (#[trigger] ts[n]).kind is Number implies decimal_literal(ts[n].kind->Number_0) by {
                            if n > 0 {
                                assert(ts[n] == rest[n - 1]);
                            }
                        }
                    },
                    _ => {},
                }
            },
            _ => {},
        }
    }
}

/// Every number token that lexing gives is digits with at most one dot, led
/// by a digit: text that reads as a binary64 value.
pub proof fn law_number_tokens_are_decimal(s: Seq<char>)
    ensures
        lexed(s) matches Ok(ts) ==> forall|n: int| 0 <= n < ts.len() && (#[trigger] ts[n]).kind is Number ==> decimal_literal(ts[n].kind->Number_0),
{
    lemma_lex_from_numbers(trimmed(s), 0, 0, 0);
}

// ---------------------------------------------------------------------------
// The lexer
// ---------------------------------------------------------------------------

/// Which characters `match_next` accepts.
#[derive(Clone, Copy, PartialEq, Eq, Structural)]
pub enum CharClass {
    Alpha,
    Alphanum,
}

pub open spec fn in_class(class: CharClass, c: char) -> bool {
    match class {
        CharClass::Alpha => spec_is_alpha(c),
        CharClass::Alphanum => spec_is_alphanum(c),
    }
}

/// A cursor over the characters of a trimmed source text.
pub struct Lexer {
    chars: Vec<char>,
    index: usize,
    line: u32,
    column: u32,
}

impl Lexer {
    /// The characters being read.
    pub closed spec fn input(&self) -> Seq<char> {
        self.chars@
    }

    pub closed spec fn index(&self) -> int {
        self.index as int
    }

    pub closed spec fn line(&self) -> int {
        self.line as int
    }

    pub closed spec fn column(&self) -> int {
        self.column as int
    }

    pub closed spec fn wf(&self) -> bool {
        &&& self.chars@.len() <= u32::MAX
        &&& self.index <= self.chars@.len()
        &&& self.line + self.column <= self.index
    }

    /// A lexer at the start of `input` with its leading and trailing white
    /// space removed.
    pub fn new(input: &String) -> (l: Lexer)
        requires
            input@.len() <= u32::MAX,
        ensures
            l.wf(),
            l.input() == trimmed(input@),
            l.index() == 0,
            l.line() == 0,
            l.column() == 0,
    {
        let s = input.as_str();
        let n = s.unicode_len();
        let mut a: usize = 0;
        while a < n && is_white_space(s.get_char(a))
            invariant
                n == s@.len(),
                0 <= a <= n,
                trim_start(s@, 0) == trim_start(s@, a as int),
            decreases n - a,
        {
            a = a + 1;
        }
        let mut b: usize = n;
        while b > 0 && is_white_space(s.get_char(b - 1))
            invariant
                n == s@.len(),
                0 <= b <= n,
                trim_end(s@, n as int) == trim_end(s@, b as int),
            decreases b,
        {
            b = b - 1;
        }
        let mut chars: Vec<char> = Vec::new();
        if a < b {
            let mut k: usize = a;
            while k < b
                invariant
                    a <= k <= b <= n,
                    n == s@.len(),
                    chars@ == s@.subrange(a as int, k as int),
                decreases b - k,
            {
                chars.push(s.get_char(k));
                k = k + 1;
                assert(chars@ =~= s@.subrange(a as int, k as int));
            }
        }
        assert(chars@ =~= trimmed(s@));
        Lexer { chars, index: 0, line: 0, column: 0 }
    }

    pub fn pos(&self) -> (p: Pos)
        ensures
            p == mk_pos(self.line(), self.column()),
    {
        Pos { line: self.line, column: self.column }
    }

    fn peek(&self) -> (c: Option<char>)
        ensures
            c == (if self.index() < self.input().len() {
                Some(self.input()[self.index()])
            } else {
                None::<char>
            }),
    {
        if self.index < self.chars.len() {
            Some(self.chars[self.index])
        } else {
            None
        }
    }

    /// Moves past one space, tab or line break, if one comes next.
    pub fn advance_whitespace(&mut self) -> (moved: bool)
        requires
            old(self).wf(),
        ensures
            final(self).wf(),
            final(self).input() == old(self).input(),
            ({
                let cs = old(self).input();
                let i = old(self).index();
                if i < cs.len() && (cs[i] == ' ' || cs[i] == '\t') {
                    &&& moved
                    &&& final(self).index() == i + 1
                    &&& final(self).line() == old(self).line()
                    &&& final(self).column() == old(self).column() + 1
                } else if i < cs.len() && (cs[i] == '\n' || cs[i] == '\r') {
                    &&& moved
                    &&& final(self).index() == i + 1
                    &&& final(self).line() == old(self).line() + 1
                    &&& final(self).column() == 0
                } else {
                    &&& !moved
                    &&& *final(self) == *old(self)
                }
            }),
    {
        match self.peek() {
            Some(c) => {
                if c == ' ' || c == '\t' {
                    self.column = self.column + 1;
                    self.index = self.index + 1;
                    true
                } else if c == '\n' || c == '\r' {
                    self.column = 0;
                    self.line = self.line + 1;
                    self.index = self.index + 1;
                    true
                } else {
                    false
                }
            },
            None => false,
        }
    }

    /// Moves past the next character, if any, on the same line.
    pub fn forward(&mut self) -> (c: Option<char>)
        requires
            old(self).wf(),
            old(self).index() < old(self).input().len(),
        ensures
            final(self).wf(),
            final(self).input() == old(self).input(),
            final(self).index() == old(self).index() + 1,
            final(self).line() == old(self).line(),
            final(self).column() == old(self).column() + 1,
            c == Some(old(self).input()[old(self).index()]),
    {
        let c = self.chars[self.index];
        self.column = self.column + 1;
        self.index = self.index + 1;
        Some(c)
    }

    /// Moves past the next character if it is in `class`.
    pub fn match_next(&mut self, class: CharClass) -> (c: Option<char>)
        requires
            old(self).wf(),
        ensures
            final(self).wf(),
            final(self).input() == old(self).input(),
            ({
                let cs = old(self).input();
                let i = old(self).index();
                if i < cs.len() && in_class(class, cs[i]) {
                    &&& c == Some(cs[i])
                    &&& final(self).index() == i + 1
                    &&& final(self).line() == old(self).line()
                    &&& final(self).column() == old(self).column() + 1
                } else {
                    &&& c is None
                    &&& *final(self) == *old(self)
                }
            }),
    {
        match self.peek() {
            Some(c) => {
                let ok = match class {
                    CharClass::Alpha => is_alpha(c),
                    CharClass::Alphanum => is_alphanum(c),
                };
                if ok {
                    self.forward()
                } else {
                    None
                }
            },
            None => None,
        }
    }

    fn token(&self, token_type: TokenType, start: Pos) -> (t: Token)
        ensures
            t.token_type == token_type,
            t.token_pos == (Range { start, end: mk_pos(self.line(), self.column()) }),
    {
        Token { token_type, token_pos: Range { start, end: self.pos() } }
    }

    fn advance(&mut self, token_type: TokenType) -> (t: Token)
        requires
            old(self).wf(),
            old(self).index() < old(self).input().len(),
        ensures
            final(self).wf(),
            final(self).input() == old(self).input(),
            final(self).index() == old(self).index() + 1,
            final(self).line() == old(self).line(),
            final(self).column() == old(self).column() + 1,
            t@ == mk_token(token_type@, old(self).line(), old(self).column(), old(self).column() + 1),
    {
        let start = self.pos();
        self.forward();
        self.token(token_type, start)
    }

    fn consume_string(&mut self) -> (r: Result<Token, LexerError>)
        requires
            old(self).wf(),
            old(self).index() < old(self).input().len(),
            old(self).input()[old(self).index()] == '"',
        ensures
            final(self).wf(),
            final(self).input() == old(self).input(),
            final(self).line() == old(self).line(),
            ({
                let cs = old(self).input();
                match (r, scan(cs, old(self).index(), old(self).line(), old(self).column())) {
                    (Ok(t), Ok((tv, k, c))) => t@ == tv && final(self).index() == k
                        && final(self).column() == c,
                    (Err(e), Err(ev)) => e == ev,
                    _ => false,
                }
            }),
    {
        let ghost cs = self.chars@;
        let ghost i0 = self.index as int;
        let ghost c0 = self.column as int;
        proof {
            lemma_quote_at(cs, i0 + 1);
        }
        let start = self.pos();
        let mut s = String::new();
        self.forward();
        loop
            invariant
                self.wf(),
                self.input() == cs,
                cs == old(self).input(),
                i0 == old(self).index(),
                c0 == old(self).column(),
                self.line() == old(self).line(),
                self.line() == start.line,
                i0 + 1 <= self.index() <= quote_at(cs, i0 + 1),
                0 <= i0 < cs.len(),
                cs[i0] == '"',
                self.column() == c0 + (self.index() - i0),
                s@ == cs.subrange(i0 + 1, self.index()),
                start == mk_pos(self.line(), c0),
                quote_at(cs, i0 + 1) == quote_at(cs, self.index()),
            ensures
                self.index() < cs.len(),
                cs[self.index()] == '"',
                self.index() == quote_at(cs, i0 + 1),
            decreases cs.len() - self.index(),
        {
            if self.index >= self.chars.len() {
                return Err(Error::new(LexerErrorType::StringNeverTerminated, start));
            }
            let c = self.chars[self.index];
            if c == '"' {
                break;
            }
            self.forward();
            proof {
                lemma_quote_at(cs, self.index());
            }
            push_char(&mut s, c);
            assert(s@ =~= cs.subrange(i0 + 1, self.index()));
        }
        self.forward();
        Ok(self.token(TokenType::String(s), start))
    }

    fn consume_ident(&mut self) -> (r: Result<Token, LexerError>)
        requires
            old(self).wf(),
            old(self).index() < old(self).input().len(),
            spec_is_alpha(old(self).input()[old(self).index()]),
        ensures
            final(self).wf(),
            final(self).input() == old(self).input(),
            final(self).line() == old(self).line(),
            ({
                let cs = old(self).input();
                match (r, scan(cs, old(self).index(), old(self).line(), old(self).column())) {
                    (Ok(t), Ok((tv, k, c))) => t@ == tv && final(self).index() == k
                        && final(self).column() == c,
                    (Err(e), Err(ev)) => e == ev,
                    _ => false,
                }
            }),
    {
        let ghost cs = self.chars@;
        let ghost i0 = self.index as int;
        let ghost c0 = self.column as int;
        proof {
            lemma_ident_end(cs, i0 + 1);
        }
        let start = self.pos();
        let mut id = String::new();
        match self.match_next(CharClass::Alpha) {
            Some(c) => push_char(&mut id, c),
            None => return Err(Error::new(LexerErrorType::InvalidIdentifier, self.pos())),
        }
        loop
            invariant
                self.wf(),
                self.input() == cs,
                cs == old(self).input(),
                i0 == old(self).index(),
                c0 == old(self).column(),
                self.line() == old(self).line(),
                self.line() == start.line,
                i0 + 1 <= self.index() <= ident_end(cs, i0 + 1),
                ident_end(cs, self.index()) == ident_end(cs, i0 + 1),
                self.column() == c0 + (self.index() - i0),
                id@ == cs.subrange(i0, self.index()),
                start == mk_pos(self.line(), c0),
            ensures
                self.index() == ident_end(cs, i0 + 1),
            decreases cs.len() - self.index(),
        {
            let ghost before = self.index();
            match self.match_next(CharClass::Alphanum) {
                Some(c) => {
                    proof {
                        lemma_ident_end(cs, before + 1);
                    }
                    push_char(&mut id, c);
                    assert(id@ =~= cs.subrange(i0, self.index()));
                },
                None => break,
            }
        }
        Ok(self.token(TokenType::Ident(id), start))
    }

    fn consume_number(&mut self) -> (r: Token)
        requires
            old(self).wf(),
            old(self).index() < old(self).input().len(),
            spec_is_digit(old(self).input()[old(self).index()]),
        ensures
            final(self).wf(),
            final(self).input() == old(self).input(),
            final(self).line() == old(self).line(),
            ({
                let cs = old(self).input();
                match scan(cs, old(self).index(), old(self).line(), old(self).column()) {
                    Ok((tv, k, c)) => r@ == tv && final(self).index() == k
                        && final(self).column() == c,
                    Err(_) => false,
                }
            }),
    {
        let ghost cs = self.chars@;
        let ghost i0 = self.index as int;
        let ghost c0 = self.column as int;
        proof {
            lemma_number_end(cs, i0, false);
        }
        let start = self.pos();
        let mut text = String::new();
        let mut seen_dot = false;
        while self.index < self.chars.len()
            invariant
                self.wf(),
                self.input() == cs,
                cs == old(self).input(),
                i0 == old(self).index(),
                c0 == old(self).column(),
                self.line() == old(self).line(),
                self.line() == start.line,
                i0 <= self.index() <= cs.len(),
                number_end(cs, self.index(), seen_dot) == number_end(cs, i0, false),
                self.column() == c0 + (self.index() - i0),
                text@ == cs.subrange(i0, self.index()),
                start == mk_pos(self.line(), c0),
            ensures
                self.index() == number_end(cs, i0, false),
            decreases cs.len() - self.index(),
        {
            let c = self.chars[self.index];
            if c == '.' && !seen_dot {
                seen_dot = true;
            } else if !is_digit(c) {
                break;
            }
            let ghost before = self.index();
            self.forward();
            push_char(&mut text, c);
            assert(cs[before] == c);
            assert(text@ =~= cs.subrange(i0, self.index()));
        }
        self.token(TokenType::Number(text), start)
    }

    /// Reads the next token, after any white space; `None` at the end of
    /// the input.
    pub fn next(&mut self) -> (r: Result<Option<Token>, LexerError>)
        requires
            old(self).wf(),
        ensures
            final(self).wf(),
            final(self).input() == old(self).input(),
            ({
                let cs = old(self).input();
                match (r, step(cs, old(self).index(), old(self).line(), old(self).column())) {
                    (Ok(None), Ok(None)) => true,
                    (Ok(Some(t)), Ok(Some((tv, k, l, c)))) => t@ == tv && final(self).index() == k
                        && final(self).line() == l && final(self).column() == c,
                    (Err(e), Err(ev)) => e == ev,
                    _ => false,
                }
            }),
    {
        let ghost cs = self.chars@;
        let ghost i0 = self.index as int;
        let ghost l0 = self.line as int;
        let ghost c0 = self.column as int;
        while self.advance_whitespace()
            invariant
                self.wf(),
                self.input() == cs,
                cs == old(self).input(),
                i0 == old(self).index(),
                c0 == old(self).column(),
                skip_blank(cs, self.index(), self.line(), self.column()) == skip_blank(cs, i0, l0, c0),
            decreases cs.len() - self.index(),
        {
        }
        let c = match self.peek() {
            Some(c) => c,
            None => return Ok(None),
        };
        let t = if c == '(' {
            self.advance(TokenType::LParen)
        } else if c == ')' {
            self.advance(TokenType::RParen)
        } else if c == '{' {
            self.advance(TokenType::LCurly)
        } else if c == '}' {
            self.advance(TokenType::RCurly)
        } else if c == '*' {
            self.advance(TokenType::Times)
        } else if c == '/' {
            self.advance(TokenType::Divide)
        } else if c == '+' {
            self.advance(TokenType::Plus)
        } else if c == '-' {
            self.advance(TokenType::Minus)
        } else if c == ':' {
            self.advance(TokenType::Colon)
        } else if c == ',' {
            self.advance(TokenType::Comma)
        } else if c == '=' {
            let start = self.pos();
            self.forward();
            match self.peek() {
                Some('=') => {
                    self.forward();
                    self.token(TokenType::Compare, start)
                },
                _ => self.token(TokenType::Equals, start),
            }
        } else if c == '"' {
            self.consume_string()?
        } else if is_alpha(c) {
            self.consume_ident()?
        } else if is_digit(c) {
            self.consume_number()
        } else {
            return Err(Error::new(LexerErrorType::UnexpectedCharacter(c), self.pos()));
        };
        Ok(Some(t))
    }
}

/// Relies on `String::push`, which appends one character.
#[verifier::external_body]
fn push_char(s: &mut String, c: char)
    ensures
        final(s)@ == old(s)@.push(c),
{
    s.push(c)
}

/// Splits a source text into tokens, after removing its leading and
/// trailing white space. The first error ends the work.
pub fn lex(input: &String) -> (r: Result<Vec<Token>, LexerError>)
    requires
        input@.len() <= u32::MAX,
    ensures
        match r {
            Ok(ts) => lexed(input@) == Ok::<Seq<TokenV>, LexerError>(tokens_view(ts@)),
            Err(e) => lexed(input@) == Err::<Seq<TokenV>, LexerError>(e),
        },
{
    let mut tokens: Vec<Token> = Vec::new();
    let mut lexer = Lexer::new(input);
    let ghost cs = lexer.input();
    loop
        invariant
            lexer.wf(),
            lexer.input() == cs,
            cs == trimmed(input@),
            lexed(input@) == match lex_from(cs, lexer.index(), lexer.line(), lexer.column()) {
                Ok(rest) => Ok(tokens_view(tokens@) + rest),
                Err(e) => Err(e),
            },
        decreases cs.len() - lexer.index(),
    {
        let ghost i = lexer.index();
        let ghost l = lexer.line();
        let ghost c = lexer.column();
        proof {
            lemma_step_advances(cs, i, l, c);
        }
        match lexer.next() {
            Err(e) => return Err(e),
            Ok(None) => {
                assert(tokens_view(tokens@) + Seq::<TokenV>::empty() =~= tokens_view(tokens@));
                return Ok(tokens);
            },
            Ok(Some(t)) => {
                let ghost before = tokens@;
                tokens.push(t);
                assert(tokens_view(tokens@) =~= tokens_view(before) + seq![t@]);
                assert forall|rest: Seq<TokenV>| tokens_view(before) + (seq![t@] + rest) =~= tokens_view(tokens@) + rest by {}
            },
        }
    }
}

} // verus!
