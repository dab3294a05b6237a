use vstd::prelude::*;

use crate::ast::{
    expr_pos, BinOp, Block, Decl, Expr, ExprV, FunCall, FunCallV, LitV, Literal, NamedArg,
    NamedArgV, Param, ParamV, Program, ProgramV, Shape, ShapeV, UnOp,
};
use crate::error::Error;
use crate::pos::{HasPos, Pos};
use crate::lexer::{lex, lexed};
use crate::parser::{parse_program, parsed};
use crate::stdlib::{get_stdlib, STDLIB_SOURCE};
use crate::text::str_eq;
use vstd::pervasive::unreached;

verus! {

/// How many calls may be in progress at once.
pub const STACK_LIMIT: usize = 256;

// ---------------------------------------------------------------------------
// Runtime values
// ---------------------------------------------------------------------------

/// A number, kept as the binary64 arithmetic that produces it: a decimal
/// literal (its nearest double), a negation, or an operation on two numbers
/// under IEEE-754 round-to-nearest.
#[derive(Debug)]
pub enum Num {
    Lit(String),
    Neg(Box<Num>),
    Bin(Box<Num>, BinOp, Box<Num>),
}

/// A piece of text: literal characters, or the shortest decimal text that
/// reads back as the given number.
#[derive(Debug)]
pub enum Piece {
    Text(String),
    Num(Num),
}

/// A runtime value. A string is the sequence of its pieces.
#[derive(Debug)]
pub enum Value {
    Number(Num),
    String(Vec<Piece>),
}

pub enum NumV {
    Lit(Seq<char>),
    Neg(Box<NumV>),
    Bin(Box<NumV>, BinOp, Box<NumV>),
}

pub enum PieceV {
    Text(Seq<char>),
    Num(NumV),
}

pub enum ValueV {
    Number(NumV),
    Str(Seq<PieceV>),
}

pub open spec fn num_view(n: Num) -> NumV
    decreases n,
{
    match n {
        Num::Lit(s) => NumV::Lit(s@),
        Num::Neg(a) => NumV::Neg(Box::new(num_view(*a))),
        Num::Bin(a, op, b) => NumV::Bin(Box::new(num_view(*a)), op, Box::new(num_view(*b))),
    }
}

impl View for Num {
    type V = NumV;

    open spec fn view(&self) -> NumV {
        num_view(*self)
    }
}

impl View for Piece {
    type V = PieceV;

    open spec fn view(&self) -> PieceV {
        match self {
            Piece::Text(s) => PieceV::Text(s@),
            Piece::Num(n) => PieceV::Num(n@),
        }
    }
}

pub open spec fn pieces_view(ps: Seq<Piece>) -> Seq<PieceV> {
    ps.map_values(|p: Piece| p@)
}

impl View for Value {
    type V = ValueV;

    open spec fn view(&self) -> ValueV {
        match self {
            Value::Number(n) => ValueV::Number(n@),
            Value::String(ps) => ValueV::Str(pieces_view(ps@)),
        }
    }
}

impl Num {
    /// A copy of this number.
    pub fn copy(&self) -> (r: Num)
        ensures
            r@ == self@,
        decreases self,
    {
        match self {
            Num::Lit(s) => Num::Lit(s.clone()),
            Num::Neg(a) => Num::Neg(Box::new(a.copy())),
            Num::Bin(a, op, b) => Num::Bin(Box::new(a.copy()), *op, Box::new(b.copy())),
        }
    }
}

impl Piece {
    pub fn copy(&self) -> (r: Piece)
        ensures
            r@ == self@,
    {
        match self {
            Piece::Text(s) => Piece::Text(s.clone()),
            Piece::Num(n) => Piece::Num(n.copy()),
        }
    }
}

fn copy_pieces(ps: &Vec<Piece>) -> (r: Vec<Piece>)
    ensures
        pieces_view(r@) == pieces_view(ps@),
{
    let mut r: Vec<Piece> = Vec::new();
    let mut i: usize = 0;
    while i < ps.len()
        invariant
            i <= ps.len(),
            r@.len() == i,
            forall|j: int| 0 <= j < i ==> (#[trigger] r@[j])@ == ps@[j]@,
        decreases ps.len() - i,
    {
        r.push(ps[i].copy());
        i = i + 1;
    }
    assert(pieces_view(r@) =~= pieces_view(ps@));
    r
}

/// Appends copies of the pieces of `b` to `a`.
fn append_pieces(a: &mut Vec<Piece>, b: &Vec<Piece>)
    ensures
        pieces_view(final(a)@) == pieces_view(old(a)@) + pieces_view(b@),
{
    let ghost a0 = a@;
    let mut i: usize = 0;
    while i < b.len()
        invariant
            i <= b.len(),
            a@.len() == a0.len() + i,
            forall|j: int| 0 <= j < a0.len() ==> (#[trigger] a@[j])@ == a0[j]@,
            forall|j: int| 0 <= j < i ==> (#[trigger] a@[a0.len() + j])@ == b@[j]@,
        decreases b.len() - i,
    {
        a.push(b[i].copy());
        i = i + 1;
    }
    assert(pieces_view(a@) =~= pieces_view(a0) + pieces_view(b@)) by {
        assert forall|j: int| a0.len() <= j < a@.len() implies (#[trigger] a@[j])@ == b@[j - a0.len()]@ by {
            assert(a@[a0.len() + (j - a0.len())] == a@[j]);
        }
    }
}

pub open spec fn kind_name(v: ValueV) -> Seq<char> {
    match v {
        ValueV::Number(_) => "number"@,
        ValueV::Str(_) => "string"@,
    }
}

/// The pieces of text that a value shows as.
pub open spec fn display(v: ValueV) -> Seq<PieceV> {
    match v {
        ValueV::Number(n) => seq![PieceV::Num(n)],
        ValueV::Str(ps) => ps,
    }
}

impl Value {
    pub fn copy(&self) -> (r: Value)
        ensures
            r@ == self@,
    {
        match self {
            Value::Number(n) => Value::Number(n.copy()),
            Value::String(ps) => Value::String(copy_pieces(ps)),
        }
    }

    pub fn from_number(n: Num) -> (v: Value)
        ensures
            v@ == ValueV::Number(n@),
    {
        Value::Number(n)
    }

    pub fn from_string(s: &str) -> (v: Value)
        ensures
            v@ == ValueV::Str(seq![PieceV::Text(s@)]),
    {
        let mut ps: Vec<Piece> = Vec::new();
        ps.push(Piece::Text(String::from_str(s)));
        assert(pieces_view(ps@) =~= seq![PieceV::Text(s@)]);
        Value::String(ps)
    }

    /// The name of the value's type: `number` or `string`.
    pub fn name(&self) -> (r: String)
        ensures
            r@ == kind_name(self@),
    {
        match self {
            Value::Number(_) => String::from_str("number"),
            Value::String(_) => String::from_str("string"),
        }
    }

    /// The pieces of text that the value shows as.
    fn into_pieces(self) -> (r: Vec<Piece>)
        ensures
            pieces_view(r@) == display(self@),
    {
        match self {
            Value::Number(n) => {
                let mut ps: Vec<Piece> = Vec::new();
                ps.push(Piece::Num(n));
                assert(pieces_view(ps@) =~= seq![PieceV::Num(n@)]);
                ps
            },
            Value::String(ps) => ps,
        }
    }
}

// ---------------------------------------------------------------------------
// Errors
// ---------------------------------------------------------------------------

/// The ways in which evaluation can fail.
#[derive(Debug, Clone, PartialEq)]
pub enum EvalErrorType {
    VariableNotDefined(String),
    ShapeNotDefined(String),
    TypeMismatch(String, String),
    SvgExpectsString(String),
    ShapeAlreadyDefined(String),
    NumArgs(String, usize, usize),
    InvalidArgName(String, String),
    MissingArgs(String, Vec<String>),
    UnExpectedArg(String, String),
    MissingRequiredArg(String, String),
    StackOverflow(Vec<String>),
    MissingMain,
    StdLibNotLoaded(String),
}

pub type EvalError = Error<EvalErrorType>;

pub enum EvalFault {
    VariableNotDefined(Seq<char>),
    ShapeNotDefined(Seq<char>),
    TypeMismatch(Seq<char>, Seq<char>),
    SvgExpectsString(Seq<char>),
    ShapeAlreadyDefined(Seq<char>),
    NumArgs(Seq<char>, nat, nat),
    InvalidArgName(Seq<char>, Seq<char>),
    MissingArgs(Seq<char>, Seq<Seq<char>>),
    UnExpectedArg(Seq<char>, Seq<char>),
    MissingRequiredArg(Seq<char>, Seq<char>),
    StackOverflow(Seq<Seq<char>>),
    MissingMain,
    StdLibNotLoaded(Seq<char>),
}

pub open spec fn strings_view(v: Seq<String>) -> Seq<Seq<char>> {
    v.map_values(|s: String| s@)
}

impl View for EvalErrorType {
    type V = EvalFault;

    open spec fn view(&self) -> EvalFault {
        match self {
            EvalErrorType::VariableNotDefined(a) => EvalFault::VariableNotDefined(a@),
            EvalErrorType::ShapeNotDefined(a) => EvalFault::ShapeNotDefined(a@),
            EvalErrorType::TypeMismatch(a, b) => EvalFault::TypeMismatch(a@, b@),
            EvalErrorType::SvgExpectsString(a) => EvalFault::SvgExpectsString(a@),
            EvalErrorType::ShapeAlreadyDefined(a) => EvalFault::ShapeAlreadyDefined(a@),
            EvalErrorType::NumArgs(a, x, y) => EvalFault::NumArgs(a@, *x as nat, *y as nat),
            EvalErrorType::InvalidArgName(a, b) => EvalFault::InvalidArgName(a@, b@),
            EvalErrorType::MissingArgs(a, v) => EvalFault::MissingArgs(a@, strings_view(v@)),
            EvalErrorType::UnExpectedArg(a, b) => EvalFault::UnExpectedArg(a@, b@),
            EvalErrorType::MissingRequiredArg(a, b) => EvalFault::MissingRequiredArg(a@, b@),
            EvalErrorType::StackOverflow(v) => EvalFault::StackOverflow(strings_view(v@)),
            EvalErrorType::MissingMain => EvalFault::MissingMain,
            EvalErrorType::StdLibNotLoaded(a) => EvalFault::StdLibNotLoaded(a@),
        }
    }
}

/// The mathematical view of an evaluation error.
pub open spec fn fault(e: EvalError) -> Error<EvalFault> {
    Error { error_type: e.error_type@, pos: e.pos }
}

pub open spec fn fail<T>(f: EvalFault, pos: Pos) -> Result<T, Error<EvalFault>> {
    Err(Error { error_type: f, pos })
}

fn eval_error(error_type: EvalErrorType, pos: Pos) -> (e: EvalError)
    ensures
        fault(e) == (Error { error_type: error_type@, pos }),
{
    Error::new(error_type, pos)
}

pub open spec fn value_outcome(r: Result<Value, EvalError>) -> Result<ValueV, Error<EvalFault>> {
    match r {
        Ok(v) => Ok(v@),
        Err(e) => Err(fault(e)),
    }
}

pub open spec fn pieces_outcome(r: Result<Vec<Piece>, EvalError>) -> Result<Seq<PieceV>, Error<EvalFault>> {
    match r {
        Ok(v) => Ok(pieces_view(v@)),
        Err(e) => Err(fault(e)),
    }
}

// ---------------------------------------------------------------------------
// What evaluation means
// ---------------------------------------------------------------------------

/// A call's variables: parameter names bound to values. A later binding of
/// a name hides an earlier one.
pub type ScopeV = Seq<(Seq<char>, ValueV)>;

pub open spec fn lookup(scope: ScopeV, name: Seq<char>) -> Option<ValueV>
    decreases scope.len(),
{
    if scope.len() == 0 {
        None
    } else if scope.last().0 == name {
        Some(scope.last().1)
    } else {
        lookup(scope.drop_last(), name)
    }
}

/// The first shape of the registry with the given name.
pub open spec fn find_shape(reg: Seq<ShapeV>, name: Seq<char>) -> Option<ShapeV>
    decreases reg.len(),
{
    if reg.len() == 0 {
        None
    } else if reg[0].name == name {
        Some(reg[0])
    } else {
        find_shape(reg.drop_first(), name)
    }
}

/// The expression of the first argument with the given name.
pub open spec fn find_arg(args: Seq<NamedArgV>, name: Seq<char>) -> Option<ExprV>
    decreases args.len(),
{
    if args.len() == 0 {
        None
    } else if args[0].name == name {
        Some(args[0].expr)
    } else {
        find_arg(args.drop_first(), name)
    }
}

pub open spec fn as_number(v: ValueV, pos: Pos) -> Result<NumV, Error<EvalFault>> {
    match v {
        ValueV::Number(n) => Ok(n),
        ValueV::Str(_) => fail(EvalFault::TypeMismatch("number"@, "string"@), pos),
    }
}

pub open spec fn arith(op: BinOp, a: ValueV, pa: Pos, b: ValueV, pb: Pos) -> Result<ValueV, Error<EvalFault>> {
    if op == BinOp::Add && !(a is Number && b is Number) {
        Ok(ValueV::Str(display(a) + display(b)))
    } else {
        match as_number(a, pa) {
            Err(e) => Err(e),
            Ok(x) => match as_number(b, pb) {
                Err(e) => Err(e),
                Ok(y) => Ok(ValueV::Number(NumV::Bin(Box::new(x), op, Box::new(y)))),
            },
        }
    }
}

/// The value of an expression in a scope.
pub open spec fn eval_expr(e: ExprV, scope: ScopeV) -> Result<ValueV, Error<EvalFault>>
    decreases e,
{
    match e {
        ExprV::Name(n, r) => match lookup(scope, n) {
            Some(v) => Ok(v),
            None => fail(EvalFault::VariableNotDefined(n), r.start),
        },
        ExprV::Literal(LitV::Number(t), _) => Ok(ValueV::Number(NumV::Lit(t))),
        ExprV::Literal(LitV::Str(s), _) => Ok(ValueV::Str(seq![PieceV::Text(s)])),
        ExprV::Binary(a, op, b, _) => match eval_expr(*a, scope) {
            Err(err) => Err(err),
            Ok(va) => match eval_expr(*b, scope) {
                Err(err) => Err(err),
                Ok(vb) => arith(op, va, expr_pos(*a), vb, expr_pos(*b)),
            },
        },
        ExprV::Unary(_, a, _) => match eval_expr(*a, scope) {
            Err(err) => Err(err),
            Ok(va) => match as_number(va, expr_pos(*a)) {
                Err(err) => Err(err),
                Ok(x) => Ok(ValueV::Number(NumV::Neg(Box::new(x)))),
            },
        },
        ExprV::Grouping(a) => eval_expr(*a, scope),
    }
}

/// The scope of a call of a shape with parameters `params`: each parameter
/// takes the caller's argument of its name, else its default, both
/// evaluated in the caller's scope.
pub open spec fn bind(params: Seq<ParamV>, call: FunCallV, scope: ScopeV) -> Result<ScopeV, Error<EvalFault>>
    decreases params.len(),
{
    if params.len() == 0 {
        Ok(Seq::empty())
    } else {
        match bind(params.drop_last(), call, scope) {
            Err(e) => Err(e),
            Ok(prev) => {
                let p = params.last();
                let v = match find_arg(call.args, p.name) {
                    Some(e) => eval_expr(e, scope),
                    None => match p.default {
                        Some(d) => eval_expr(d, scope),
                        None => fail(EvalFault::MissingRequiredArg(call.ident, p.name), call.range.start),
                    },
                };
                match v {
                    Err(e) => Err(e),
                    Ok(v) => Ok(prev.push((p.name, v))),
                }
            },
        }
    }
}

/// A call of the `svg` primitive: one argument, named `value`, whose value
/// is a string; the result is that string.
pub open spec fn eval_svg(call: FunCallV, scope: ScopeV) -> Result<Seq<PieceV>, Error<EvalFault>> {
    if call.args.len() != 1 {
        fail(EvalFault::NumArgs(call.ident, 1, call.args.len()), call.range.start)
    } else if call.args[0].name != "value"@ {
        fail(EvalFault::MissingArgs(call.ident, seq!["value"@]), call.range.start)
    } else {
        match eval_expr(call.args[0].expr, scope) {
            Err(e) => Err(e),
            Ok(ValueV::Number(_)) => fail(EvalFault::SvgExpectsString("number"@), expr_pos(call.args[0].expr)),
            Ok(ValueV::Str(ps)) => Ok(ps),
        }
    }
}

pub open spec fn depth_left(stack: Seq<Seq<char>>) -> nat {
    if stack.len() <= STACK_LIMIT + 1 {
        (STACK_LIMIT + 1 - stack.len()) as nat
    } else {
        0
    }
}

/// The text that a call produces, given the registry of shapes, the
/// caller's scope and the names of the calls in progress.
pub open spec fn eval_call_spec(reg: Seq<ShapeV>, scope: ScopeV, stack: Seq<Seq<char>>, call: FunCallV) -> Result<Seq<PieceV>, Error<EvalFault>>
    decreases depth_left(stack), 0nat, 0nat,
{
    let inner = stack.push(call.ident);
    if inner.len() > STACK_LIMIT {
        fail(EvalFault::StackOverflow(inner), call.range.start)
    } else if call.ident == "svg"@ {
        eval_svg(call, scope)
    } else {
        match find_shape(reg, call.ident) {
            None => fail(EvalFault::ShapeNotDefined(call.ident), call.range.start),
            Some(shape) => match bind(shape.params, call, scope) {
                Err(e) => Err(e),
                Ok(callee) => eval_block_spec(reg, callee, inner, shape.block.calls),
            },
        }
    }
}

/// The text that a sequence of calls produces: the texts of the calls, in
/// order.
pub open spec fn eval_block_spec(reg: Seq<ShapeV>, scope: ScopeV, stack: Seq<Seq<char>>, calls: Seq<FunCallV>) -> Result<Seq<PieceV>, Error<EvalFault>>
    decreases depth_left(stack), 1nat, calls.len(),
{
    if calls.len() == 0 {
        Ok(Seq::empty())
    } else {
        match eval_block_spec(reg, scope, stack, calls.drop_last()) {
            Err(e) => Err(e),
            Ok(front) => match eval_call_spec(reg, scope, stack, calls.last()) {
                Err(e) => Err(e),
                Ok(back) => Ok(front + back),
            },
        }
    }
}

// ---------------------------------------------------------------------------
// Evaluation
// ---------------------------------------------------------------------------

pub type Binding = (String, Value);

pub open spec fn scope_view(s: Seq<Binding>) -> ScopeV {
    s.map_values(|b: Binding| (b.0@, b.1@))
}

pub open spec fn registry_view<'a>(r: Seq<&'a Shape>) -> Seq<ShapeV> {
    r.map_values(|s: &'a Shape| s@)
}

/// The state of an evaluation: the calls in progress, the current call's
/// variables and the shapes that can be called.
pub struct Context<'a> {
    pub stack: Vec<String>,
    pub scope: Vec<Binding>,
    pub shapes: Vec<&'a Shape>,
}

fn copy_strings(v: &Vec<String>) -> (r: Vec<String>)
    ensures
        strings_view(r@) == strings_view(v@),
{
    let mut r: Vec<String> = Vec::new();
    let mut i: usize = 0;
    while i < v.len()
        invariant
            i <= v.len(),
            r@.len() == i,
            forall|j: int| 0 <= j < i ==> (#[trigger] r@[j])@ == v@[j]@,
        decreases v.len() - i,
    {
        r.push(v[i].clone());
        i = i + 1;
    }
    assert(strings_view(r@) =~= strings_view(v@));
    r
}

impl<'a> Context<'a> {
    /// An empty context: no calls, no variables, no shapes.
    pub fn new() -> (c: Context<'a>)
        ensures
            c.stack@.len() == 0,
            c.scope@.len() == 0,
            c.shapes@.len() == 0,
    {
        Context { stack: Vec::new(), scope: Vec::new(), shapes: Vec::new() }
    }

    /// Replaces the current variables.
    pub fn set_scope(&mut self, scope: Vec<Binding>)
        ensures
            final(self).scope == scope,
            final(self).stack == old(self).stack,
            final(self).shapes == old(self).shapes,
    {
        self.scope = scope;
    }

    /// The value bound to `key`, if any.
    pub fn get(&self, key: &str) -> (r: Option<Value>)
        ensures
            match r {
                Some(v) => lookup(scope_view(self.scope@), key@) == Some(v@),
                None => lookup(scope_view(self.scope@), key@) is None,
            },
    {
        lookup_binding(&self.scope, key)
    }

    /// Binds `key` to `value`, hiding any earlier binding of it.
    pub fn set(&mut self, key: &str, value: Value)
        ensures
            scope_view(final(self).scope@) == scope_view(old(self).scope@).push((key@, value@)),
            final(self).stack == old(self).stack,
            final(self).shapes == old(self).shapes,
    {
        let ghost s0 = self.scope@;
        self.scope.push((String::from_str(key), value));
        assert(scope_view(self.scope@) =~= scope_view(s0).push((key@, value@)));
    }
}

fn lookup_binding(scope: &Vec<Binding>, key: &str) -> (r: Option<Value>)
    ensures
        match r {
            Some(v) => lookup(scope_view(scope@), key@) == Some(v@),
            None => lookup(scope_view(scope@), key@) is None,
        },
{
    let mut i: usize = scope.len();
    assert(scope@.take(scope@.len() as int) =~= scope@);
    while i > 0
        invariant
            i <= scope@.len(),
            lookup(scope_view(scope@), key@) == lookup(scope_view(scope@.take(i as int)), key@),
        decreases i,
    {
        let ghost before = scope_view(scope@.take(i as int));
        assert(before.drop_last() =~= scope_view(scope@.take(i as int - 1)));
        if str_eq(scope[i - 1].0.as_str(), key) {
            return Some(scope[i - 1].1.copy());
        }
        i = i - 1;
    }
    None
}

fn find_arg_expr<'b>(args: &'b Vec<NamedArg>, name: &str) -> (r: Option<&'b Expr>)
    ensures
        match r {
            Some(e) => find_arg(args@.map_values(|a: NamedArg| a@), name@) == Some(e@),
            None => find_arg(args@.map_values(|a: NamedArg| a@), name@) is None,
        },
{
    let ghost all = args@.map_values(|a: NamedArg| a@);
    let mut i: usize = 0;
    assert(all.subrange(0, all.len() as int) =~= all);
    while i < args.len()
        invariant
            i <= args.len(),
            all == args@.map_values(|a: NamedArg| a@),
            find_arg(all, name@) == find_arg(all.subrange(i as int, all.len() as int), name@),
        decreases args.len() - i,
    {
        let ghost rest = all.subrange(i as int, all.len() as int);
        assert(rest.drop_first() =~= all.subrange(i as int + 1, all.len() as int));
        if str_eq(args[i].name.as_str(), name) {
            return Some(&args[i].expr);
        }
        i = i + 1;
    }
    None
}

fn find_shape_ref<'a>(shapes: &Vec<&'a Shape>, name: &str) -> (r: Option<&'a Shape>)
    ensures
        match r {
            Some(s) => find_shape(registry_view(shapes@), name@) == Some(s@),
            None => find_shape(registry_view(shapes@), name@) is None,
        },
{
    let ghost all = registry_view(shapes@);
    let mut i: usize = 0;
    assert(all.subrange(0, all.len() as int) =~= all);
    while i < shapes.len()
        invariant
            i <= shapes.len(),
            all == registry_view(shapes@),
            find_shape(all, name@) == find_shape(all.subrange(i as int, all.len() as int), name@),
        decreases shapes.len() - i,
    {
        let ghost rest = all.subrange(i as int, all.len() as int);
        assert(rest.drop_first() =~= all.subrange(i as int + 1, all.len() as int));
        if str_eq(shapes[i].name.as_str(), name) {
            return Some(shapes[i]);
        }
        i = i + 1;
    }
    None
}

fn eval_literal(lit: &Literal) -> (r: Value)
    ensures
        r@ == (match lit@ {
            LitV::Number(t) => ValueV::Number(NumV::Lit(t)),
            LitV::Str(s) => ValueV::Str(seq![PieceV::Text(s)]),
        }),
{
    match lit {
        Literal::Number(n) => Value::Number(Num::Lit(n.clone())),
        Literal::String(s) => Value::from_string(s.as_str()),
    }
}

fn get_number(value: Value, pos: Pos) -> (r: Result<Num, EvalError>)
    ensures
        match (r, as_number(value@, pos)) {
            (Ok(n), Ok(m)) => n@ == m,
            (Err(e), Err(f)) => fault(e) == f,
            _ => false,
        },
{
    match value {
        Value::Number(n) => Ok(n),
        Value::String(_) => Err(
            eval_error(EvalErrorType::TypeMismatch(String::from_str("number"), String::from_str("string")), pos),
        ),
    }
}

fn eval_binary(expr: &Expr, scope: &Vec<Binding>) -> (r: Result<Value, EvalError>)
    requires
        expr is Binary,
    ensures
        value_outcome(r) == eval_expr(expr@, scope_view(scope@)),
    decreases expr, 0nat,
{
    let (lhs_expr, op, rhs_expr) = match expr {
        Expr::Binary(a, op, b, _) => (a, *op, b),
        _ => unreached(),
    };
    let lhs = eval_expression(lhs_expr, scope)?;
    let rhs = eval_expression(rhs_expr, scope)?;
    let is_num = match (&lhs, &rhs) {
        (Value::Number(_), Value::Number(_)) => true,
        _ => false,
    };
    if op == BinOp::Add && !is_num {
        let mut out = lhs.into_pieces();
        let back = rhs.into_pieces();
        append_pieces(&mut out, &back);
        return Ok(Value::String(out));
    }
    let lpos = lhs_expr.pos();
    let rpos = rhs_expr.pos();
    let a = get_number(lhs, lpos)?;
    let b = get_number(rhs, rpos)?;
    Ok(Value::Number(Num::Bin(Box::new(a), op, Box::new(b))))
}

fn eval_unary(expr: &Expr, scope: &Vec<Binding>) -> (r: Result<Value, EvalError>)
    requires
        expr is Unary,
    ensures
        value_outcome(r) == eval_expr(expr@, scope_view(scope@)),
    decreases expr, 0nat,
{
    let (op, operand) = match expr {
        Expr::Unary(op, a, _) => (*op, a),
        _ => unreached(),
    };
    let value = eval_expression(operand, scope)?;
    let n = get_number(value, operand.pos())?;
    match op {
        UnOp::Neg => Ok(Value::Number(Num::Neg(Box::new(n)))),
    }
}

/// Evaluates an expression in a scope.
pub fn eval_expression(expr: &Expr, scope: &Vec<Binding>) -> (r: Result<Value, EvalError>)
    ensures
        value_outcome(r) == eval_expr(expr@, scope_view(scope@)),
    decreases expr, 1nat,
{
    match expr {
        Expr::Name(n, r) => match lookup_binding(scope, n.as_str()) {
            Some(value) => Ok(value),
            None => Err(eval_error(EvalErrorType::VariableNotDefined(n.clone()), r.start)),
        },
        Expr::Literal(lit, _) => Ok(eval_literal(lit)),
        Expr::Binary(..) => eval_binary(expr, scope),
        Expr::Unary(..) => eval_unary(expr, scope),
        Expr::Grouping(e) => eval_expression(e, scope),
    }
}

fn eval_svg_call(call: &FunCall, scope: &Vec<Binding>) -> (r: Result<Vec<Piece>, EvalError>)
    ensures
        pieces_outcome(r) == eval_svg(call@, scope_view(scope@)),
{
    let ghost cv = call@;
    if call.args.len() != 1 {
        return Err(eval_error(EvalErrorType::NumArgs(call.ident.clone(), 1, call.args.len()), call.pos()));
    }
    let arg = &call.args[0];
    assert(cv.args[0] == arg@);
    if !str_eq(arg.name.as_str(), "value") {
        let mut missing: Vec<String> = Vec::new();
        missing.push(String::from_str("value"));
        assert(strings_view(missing@) =~= seq!["value"@]);
        return Err(eval_error(EvalErrorType::MissingArgs(call.ident.clone(), missing), call.pos()));
    }
    let value = eval_expression(&arg.expr, scope)?;
    match value {
        Value::String(ps) => Ok(ps),
        Value::Number(_) => Err(eval_error(EvalErrorType::SvgExpectsString(String::from_str("number")), arg.expr.pos())),
    }
}

/// Binds the parameters of `shape` for `call`, evaluating in `scope`.
fn bind_args(shape: &Shape, call: &FunCall, scope: &Vec<Binding>) -> (r: Result<Vec<Binding>, EvalError>)
    ensures
        match r {
            Ok(s) => bind(shape@.params, call@, scope_view(scope@)) == Ok::<ScopeV, Error<EvalFault>>(scope_view(s@)),
            Err(e) => bind(shape@.params, call@, scope_view(scope@)) == Err::<ScopeV, Error<EvalFault>>(fault(e)),
        },
{
    let ghost params = shape@.params;
    let mut out: Vec<Binding> = Vec::new();
    let mut i: usize = 0;
    assert(params.take(0) =~= Seq::<ParamV>::empty());
    assert(scope_view(out@) =~= Seq::<(Seq<char>, ValueV)>::empty());
    while i < shape.args.len()
        invariant
            i <= shape.args.len(),
            params == shape.args@.map_values(|p: Param| p@),
            bind(params.take(i as int), call@, scope_view(scope@)) == Ok::<ScopeV, Error<EvalFault>>(scope_view(out@)),
        decreases shape.args.len() - i,
    {
        let p = &shape.args[i];
        assert(params.take(i as int + 1).drop_last() =~= params.take(i as int));
        assert(params.take(i as int + 1).last() == p@);
        let value = match find_arg_expr(&call.args, p.name.as_str()) {
            Some(e) => eval_expression(e, scope),
            None => match &p.default {
                Some(d) => eval_expression(d, scope),
                None => Err(eval_error(EvalErrorType::MissingRequiredArg(call.ident.clone(), p.name.clone()), call.pos())),
            },
        };
        match value {
            Err(e) => {
                proof {
                    lemma_bind_err(params, call@, scope_view(scope@), i as int + 1);
                }
                return Err(e);
            },
            Ok(v) => {
                let ghost before = out@;
                out.push((p.name.clone(), v));
                assert(scope_view(out@) =~= scope_view(before).push((p@.name, v@)));
            },
        }
        i = i + 1;
    }
    assert(params.take(shape.args.len() as int) =~= params);
    Ok(out)
}

proof fn lemma_bind_err(params: Seq<ParamV>, call: FunCallV, scope: ScopeV, k: int)
    requires
        0 <= k <= params.len(),
        bind(params.take(k), call, scope) is Err,
    ensures
        bind(params, call, scope) == bind(params.take(k), call, scope),
    decreases params.len(),
{
    if k == params.len() {
        assert(params.take(k) =~= params);
    } else {
        assert(params.drop_last().take(k) =~= params.take(k));
        lemma_bind_err(params.drop_last(), call, scope, k);
    }
}

proof fn lemma_block_err(reg: Seq<ShapeV>, scope: ScopeV, stack: Seq<Seq<char>>, calls: Seq<FunCallV>, k: int)
    requires
        0 <= k <= calls.len(),
        eval_block_spec(reg, scope, stack, calls.take(k)) is Err,
    ensures
        eval_block_spec(reg, scope, stack, calls) == eval_block_spec(reg, scope, stack, calls.take(k)),
    decreases calls.len(),
{
    if k == calls.len() {
        assert(calls.take(k) =~= calls);
    } else {
        assert(calls.drop_last().take(k) =~= calls.take(k));
        lemma_block_err(reg, scope, stack, calls.drop_last(), k);
    }
}

pub open spec fn stack_view(s: Seq<String>) -> Seq<Seq<char>> {
    strings_view(s)
}

/// Evaluates a call, in the context's scope, with the context's calls in
/// progress.
pub fn eval_call<'a>(call: &FunCall, ctx: &mut Context<'a>) -> (r: Result<Vec<Piece>, EvalError>)
    requires
        old(ctx).stack@.len() <= STACK_LIMIT,
    ensures
        pieces_outcome(r) == eval_call_spec(
            registry_view(old(ctx).shapes@),
            scope_view(old(ctx).scope@),
            stack_view(old(ctx).stack@),
            call@,
        ),
        final(ctx).shapes == old(ctx).shapes,
        r is Ok ==> stack_view(final(ctx).stack@) == stack_view(old(ctx).stack@),
        r is Ok ==> scope_view(final(ctx).scope@) == scope_view(old(ctx).scope@),
    decreases STACK_LIMIT + 1 - old(ctx).stack@.len(), 0nat,
{
    let ghost stack0 = ctx.stack@;
    let ghost scope0 = ctx.scope@;
    ctx.stack.push(call.ident.clone());
    assert(stack_view(ctx.stack@) =~= stack_view(stack0).push(call@.ident));
    if ctx.stack.len() > STACK_LIMIT {
        let frames = copy_strings(&ctx.stack);
        return Err(eval_error(EvalErrorType::StackOverflow(frames), call.pos()));
    }
    if str_eq(call.ident.as_str(), "svg") {
        let r = eval_svg_call(call, &ctx.scope);
        let ghost full = ctx.stack@;
        ctx.stack.pop();
        assert(stack_view(ctx.stack@) =~= stack_view(full).drop_last());
        assert(stack_view(ctx.stack@) =~= stack_view(stack0));
        return r;
    }
    let shape: &'a Shape = match find_shape_ref(&ctx.shapes, call.ident.as_str()) {
        Some(s) => s,
        None => {
            return Err(eval_error(EvalErrorType::ShapeNotDefined(call.ident.clone()), call.pos()));
        },
    };
    let mut scope = bind_args(shape, call, &ctx.scope)?;
    std::mem::swap(&mut ctx.scope, &mut scope);
    let r = eval_block(&shape.block, ctx);
    std::mem::swap(&mut ctx.scope, &mut scope);
    match r {
        Ok(ps) => {
            let ghost full = ctx.stack@;
            ctx.stack.pop();
            assert(stack_view(ctx.stack@) =~= stack_view(full).drop_last());
            assert(stack_view(ctx.stack@) =~= stack_view(stack0));
            Ok(ps)
        },
        Err(e) => Err(e),
    }
}

/// Evaluates the calls of a block in order and joins their texts.
pub fn eval_block<'a>(block: &Block, ctx: &mut Context<'a>) -> (r: Result<Vec<Piece>, EvalError>)
    requires
        old(ctx).stack@.len() <= STACK_LIMIT,
    ensures
        pieces_outcome(r) == eval_block_spec(
            registry_view(old(ctx).shapes@),
            scope_view(old(ctx).scope@),
            stack_view(old(ctx).stack@),
            block@.calls,
        ),
        final(ctx).shapes == old(ctx).shapes,
        r is Ok ==> stack_view(final(ctx).stack@) == stack_view(old(ctx).stack@),
        r is Ok ==> scope_view(final(ctx).scope@) == scope_view(old(ctx).scope@),
    decreases STACK_LIMIT + 1 - old(ctx).stack@.len(), 1nat,
{
    let ghost calls = block@.calls;
    let ghost reg = registry_view(ctx.shapes@);
    let ghost sc = scope_view(ctx.scope@);
    let ghost st = stack_view(ctx.stack@);
    let ghost shapes0 = ctx.shapes;
    let mut out: Vec<Piece> = Vec::new();
    let mut i: usize = 0;
    assert(calls.take(0) =~= Seq::<FunCallV>::empty());
    assert(pieces_view(out@) =~= Seq::<PieceV>::empty());
    while i < block.calls.len()
        invariant
            i <= block.calls.len(),
            calls == block.calls@.map_values(|c: FunCall| c@),
            ctx.shapes == shapes0,
            reg == registry_view(ctx.shapes@),
            sc == scope_view(ctx.scope@),
            st == stack_view(ctx.stack@),
            ctx.stack@.len() == old(ctx).stack@.len(),
            old(ctx).stack@.len() <= STACK_LIMIT,
            reg == registry_view(old(ctx).shapes@),
            sc == scope_view(old(ctx).scope@),
            st == stack_view(old(ctx).stack@),
            shapes0 == old(ctx).shapes,
            eval_block_spec(reg, sc, st, calls.take(i as int)) == Ok::<Seq<PieceV>, Error<EvalFault>>(pieces_view(out@)),
        decreases block.calls.len() - i,
    {
        assert(calls.take(i as int + 1).drop_last() =~= calls.take(i as int));
        assert(calls.take(i as int + 1).last() == block.calls@[i as int]@);
        let piece = match eval_call(&block.calls[i], ctx) {
            Ok(p) => p,
            Err(e) => {
                proof {
                    lemma_block_err(reg, sc, st, calls, i as int + 1);
                }
                return Err(e);
            },
        };
        append_pieces(&mut out, &piece);
        i = i + 1;
    }
    assert(calls.take(block.calls.len() as int) =~= calls);
    Ok(out)
}

// ---------------------------------------------------------------------------
// Programs
// ---------------------------------------------------------------------------

/// Adds `shapes` to the registry `reg` one at a time; a name that is
/// already there is refused at the declaration that repeats it.
pub open spec fn register(reg: Seq<ShapeV>, shapes: Seq<ShapeV>) -> Result<Seq<ShapeV>, Error<EvalFault>>
    decreases shapes.len(),
{
    if shapes.len() == 0 {
        Ok(reg)
    } else {
        match register(reg, shapes.drop_last()) {
            Err(e) => Err(e),
            Ok(r) => {
                let s = shapes.last();
                if find_shape(r, s.name) is Some {
                    fail(EvalFault::ShapeAlreadyDefined(s.name), s.pos)
                } else {
                    Ok(r.push(s))
                }
            },
        }
    }
}

/// Whether some shape is named `main` and takes no parameters.
pub open spec fn has_main(shapes: Seq<ShapeV>) -> bool {
    exists|i: int| 0 <= i < shapes.len() && #[trigger] shapes[i].name == "main"@ && shapes[i].params.len() == 0
}

/// The registry after adding a program's shapes to `reg`.
pub open spec fn find_shapes_spec(reg: Seq<ShapeV>, program: ProgramV, require_main: bool) -> Result<Seq<ShapeV>, Error<EvalFault>> {
    match register(reg, program.shapes) {
        Err(e) => Err(e),
        Ok(r) => if require_main && !has_main(program.shapes) {
            fail(EvalFault::MissingMain, program.end)
        } else {
            Ok(r)
        },
    }
}

pub open spec fn svg_open() -> Seq<char> {
    "<svg width=\"100%\" height=\"100%\" xmlns=\"http://www.w3.org/2000/svg\">"@
}

pub open spec fn svg_close() -> Seq<char> {
    "</svg>"@
}

/// The document that a program produces, given the builtin shapes (or the
/// error that loading them gave).
pub open spec fn program_result(base: Result<Seq<ShapeV>, Error<EvalFault>>, program: ProgramV) -> Result<Seq<PieceV>, Error<EvalFault>> {
    match base {
        Err(e) => Err(e),
        Ok(base) => match find_shapes_spec(base, program, true) {
            Err(e) => Err(e),
            Ok(reg) => match find_shape(reg, "main"@) {
                None => fail(EvalFault::MissingMain, program.end),
                Some(main) => match eval_block_spec(reg, Seq::empty(), Seq::empty(), main.block.calls) {
                    Err(e) => Err(e),
                    Ok(body) => Ok(seq![PieceV::Text(svg_open())] + body + seq![PieceV::Text(svg_close())]),
                },
            },
        },
    }
}

pub open spec fn registry_outcome<'a>(r: Result<Vec<&'a Shape>, EvalError>) -> Result<Seq<ShapeV>, Error<EvalFault>> {
    match r {
        Ok(v) => Ok(registry_view(v@)),
        Err(e) => Err(fault(e)),
    }
}

proof fn lemma_register_err(reg: Seq<ShapeV>, shapes: Seq<ShapeV>, k: int)
    requires
        0 <= k <= shapes.len(),
        register(reg, shapes.take(k)) is Err,
    ensures
        register(reg, shapes) == register(reg, shapes.take(k)),
    decreases shapes.len(),
{
    if k == shapes.len() {
        assert(shapes.take(k) =~= shapes);
    } else {
        assert(shapes.drop_last().take(k) =~= shapes.take(k));
        lemma_register_err(reg, shapes.drop_last(), k);
    }
}

/// Adds the shapes of `program` to `shapes`, refusing a name that is
/// already taken; with `error_missing_main`, also asks for a `main` shape
/// without parameters.
pub fn find_shapes<'a>(shapes: Vec<&'a Shape>, program: &'a Program, error_missing_main: bool) -> (r: Result<Vec<&'a Shape>, EvalError>)
    ensures
        registry_outcome(r) == find_shapes_spec(registry_view(shapes@), program@, error_missing_main),
{
    let ghost base = registry_view(shapes@);
    let ghost all = program@.shapes;
    let mut reg = shapes;
    let mut found_main = false;
    let mut i: usize = 0;
    assert(all.take(0) =~= Seq::<ShapeV>::empty());
    while i < program.decls.len()
        invariant
            i <= program.decls.len(),
            all == program@.shapes,
            all == program.decls@.map_values(|d: Decl| d@),
            base == registry_view(shapes@),
            register(base, all.take(i as int)) == Ok::<Seq<ShapeV>, Error<EvalFault>>(registry_view(reg@)),
            found_main == has_main(all.take(i as int)),
        decreases program.decls.len() - i,
    {
        let shape: &'a Shape = match &program.decls[i] {
            Decl::ShapeDecl(s) => s,
        };
        assert(all.take(i as int + 1).drop_last() =~= all.take(i as int));
        assert(all.take(i as int + 1).last() == shape@);
        if find_shape_ref(&reg, shape.name.as_str()).is_some() {
            assert(register(base, all.take(i as int + 1)) == fail::<Seq<ShapeV>>(EvalFault::ShapeAlreadyDefined(shape@.name), shape.pos));
            proof {
                lemma_register_err(base, all, i as int + 1);
            }
            assert(find_shapes_spec(base, program@, error_missing_main) == fail::<Seq<ShapeV>>(EvalFault::ShapeAlreadyDefined(shape@.name), shape.pos));
            let e = eval_error(EvalErrorType::ShapeAlreadyDefined(shape.name.clone()), shape.pos);
            assert(fault(e) == Error { error_type: EvalFault::ShapeAlreadyDefined(shape@.name), pos: shape.pos });
            return Err(e);
        }
        let is_main = str_eq(shape.name.as_str(), "main") && shape.args.len() == 0;
        let ghost before = reg@;
        reg.push(shape);
        assert(registry_view(reg@) =~= registry_view(before).push(shape@));
        proof {
            let t = all.take(i as int + 1);
            if is_main {
                assert(t[i as int] == shape@);
            }
            if has_main(all.take(i as int)) {
                let w = choose|w: int| 0 <= w < i && #[trigger] all.take(i as int)[w].name == "main"@ && all.take(i as int)[w].params.len() == 0;
                assert(t[w] == all.take(i as int)[w]);
            }
            if has_main(t) {
                let w = choose|w: int| 0 <= w < i + 1 && #[trigger] t[w].name == "main"@ && t[w].params.len() == 0;
                if w < i {
                    assert(all.take(i as int)[w] == t[w]);
                }
            }
        }
        found_main = found_main || is_main;
        i = i + 1;
    }
    assert(all.take(program.decls.len() as int) =~= all);
    if !found_main && error_missing_main {
        return Err(eval_error(EvalErrorType::MissingMain, program.end));
    }
    Ok(reg)
}

/// Evaluates a program against the builtin shapes `base`: registers its
/// shapes, then evaluates `main` and wraps its text in an `svg` element.
pub fn eval_program_with<'a>(base: Vec<&'a Shape>, program: &'a Program) -> (r: Result<Vec<Piece>, EvalError>)
    ensures
        pieces_outcome(r) == program_result(Ok(registry_view(base@)), program@),
{
    let shapes = find_shapes(base, program, true)?;
    let main: &'a Shape = match find_shape_ref(&shapes, "main") {
        Some(m) => m,
        None => {
            return Err(eval_error(EvalErrorType::MissingMain, program.end));
        },
    };
    let mut ctx = Context { stack: Vec::new(), scope: Vec::new(), shapes };
    assert(stack_view(ctx.stack@) =~= Seq::<Seq<char>>::empty());
    assert(scope_view(ctx.scope@) =~= Seq::<(Seq<char>, ValueV)>::empty());
    let body = eval_block(&main.block, &mut ctx)?;
    let mut out: Vec<Piece> = Vec::new();
    let open = String::from_str("<svg width=\"100%\" height=\"100%\" xmlns=\"http://www.w3.org/2000/svg\">");
    assert(open@ == svg_open());
    out.push(Piece::Text(open));
    assert(pieces_view(out@) =~= seq![PieceV::Text(svg_open())]);
    append_pieces(&mut out, &body);
    let close = String::from_str("</svg>");
    assert(close@ == svg_close());
    let ghost mid = out@;
    out.push(Piece::Text(close));
    assert(pieces_view(out@) =~= pieces_view(mid).push(PieceV::Text(svg_close())));
    assert(pieces_view(out@) =~= seq![PieceV::Text(svg_open())] + pieces_view(body@) + seq![PieceV::Text(svg_close())]);
    Ok(out)
}

/// The builtin shapes: the shapes of the builtin source, or the stage of
/// the pipeline that failed on it.
pub open spec fn stdlib_result() -> Result<Seq<ShapeV>, Error<EvalFault>> {
    let origin = Pos { line: 0, column: 0 };
    if STDLIB_SOURCE@.len() > u32::MAX {
        fail(EvalFault::StdLibNotLoaded("lexing"@), origin)
    } else {
        match lexed(STDLIB_SOURCE@) {
            Err(_) => fail(EvalFault::StdLibNotLoaded("lexing"@), origin),
            Ok(ts) => match parsed(ts) {
                Err(_) => fail(EvalFault::StdLibNotLoaded("parsing"@), origin),
                Ok(p) => match find_shapes_spec(Seq::empty(), p, false) {
                    Err(_) => fail(EvalFault::StdLibNotLoaded("finding shapes for"@), origin),
                    Ok(r) => Ok(r),
                },
            },
        }
    }
}

fn stdlib_error(stage: &str) -> (e: EvalError)
    ensures
        fault(e) == (Error { error_type: EvalFault::StdLibNotLoaded(stage@), pos: Pos { line: 0, column: 0 } }),
{
    eval_error(EvalErrorType::StdLibNotLoaded(String::from_str(stage)), Pos { line: 0, column: 0 })
}

/// Lexes and parses the builtin source.
pub fn load_stdlib() -> (r: Result<Program, EvalError>)
    ensures
        match r {
            Ok(p) => stdlib_result() == match find_shapes_spec(Seq::empty(), p@, false) {
                Err(_) => fail(EvalFault::StdLibNotLoaded("finding shapes for"@), Pos { line: 0, column: 0 }),
                Ok(r) => Ok(r),
            },
            Err(e) => stdlib_result() == Err::<Seq<ShapeV>, Error<EvalFault>>(fault(e)),
        },
{
    let text = get_stdlib();
    if text.as_str().unicode_len() > u32::MAX as usize {
        return Err(stdlib_error("lexing"));
    }
    let tokens = match lex(&text) {
        Ok(t) => t,
        Err(_) => {
            return Err(stdlib_error("lexing"));
        },
    };
    match parse_program(tokens) {
        Ok(p) => Ok(p),
        Err(_) => Err(stdlib_error("parsing")),
    }
}

/// Evaluates a program: loads the builtin shapes, registers the program's
/// shapes after them, and gives the `svg` document that `main` produces.
pub fn eval_program(program: &Program) -> (r: Result<Vec<Piece>, EvalError>)
    ensures
        pieces_outcome(r) == program_result(stdlib_result(), program@),
{
    let lib = load_stdlib()?;
    let empty: Vec<&Shape> = Vec::new();
    assert(registry_view(empty@) =~= Seq::<ShapeV>::empty());
    let base = match find_shapes(empty, &lib, false) {
        Ok(b) => b,
        Err(_) => {
            return Err(stdlib_error("finding shapes for"));
        },
    };
    eval_program_with(base, program)
}

/// The text of a sequence of pieces, when none of them is a number.
pub open spec fn plain_text(ps: Seq<PieceV>) -> Option<Seq<char>>
    decreases ps.len(),
{
    if ps.len() == 0 {
        Some(Seq::empty())
    } else {
        match (plain_text(ps.drop_last()), ps.last()) {
            (Some(t), PieceV::Text(s)) => Some(t + s),
            _ => None,
        }
    }
}

/// Joins the pieces into one string, or gives `None` if a number is among
/// them.
pub fn text_of(pieces: &Vec<Piece>) -> (r: Option<String>)
    ensures
        match r {
            Some(s) => plain_text(pieces_view(pieces@)) == Some(s@),
            None => plain_text(pieces_view(pieces@)) is None,
        },
{
    let ghost ps = pieces_view(pieces@);
    let mut out = String::new();
    let mut i: usize = 0;
    assert(ps.take(0) =~= Seq::<PieceV>::empty());
    while i < pieces.len()
        invariant
            i <= pieces.len(),
            ps == pieces_view(pieces@),
            plain_text(ps.take(i as int)) == Some(out@),
        decreases pieces.len() - i,
    {
        assert(ps.take(i as int + 1).drop_last() =~= ps.take(i as int));
        match &pieces[i] {
            Piece::Text(s) => {
                out.append(s.as_str());
            },
            Piece::Num(_) => {
                proof {
                    lemma_plain_none(ps, i as int + 1);
                }
                return None;
            },
        }
        i = i + 1;
    }
    assert(ps.take(pieces.len() as int) =~= ps);
    Some(out)
}

proof fn lemma_plain_none(ps: Seq<PieceV>, k: int)
    requires
        0 <= k <= ps.len(),
        plain_text(ps.take(k)) is None,
    ensures
        plain_text(ps) is None,
    decreases ps.len(),
{
    if k == ps.len() {
        assert(ps.take(k) =~= ps);
    } else {
        assert(ps.drop_last().take(k) =~= ps.take(k));
        lemma_plain_none(ps.drop_last(), k);
    }
}

// ---------------------------------------------------------------------------
// Laws of evaluation
// ---------------------------------------------------------------------------

/// An arithmetic operator applied to two numbers gives the number that the
/// same binary64 operation gives on them; nothing else is done to them.
pub proof fn law_arithmetic_on_numbers(a: ExprV, op: BinOp, b: ExprV, p: Pos, scope: ScopeV, x: NumV, y: NumV)
    requires
        eval_expr(a, scope) == Ok::<ValueV, Error<EvalFault>>(ValueV::Number(x)),
        eval_expr(b, scope) == Ok::<ValueV, Error<EvalFault>>(ValueV::Number(y)),
    ensures
        eval_expr(ExprV::Binary(Box::new(a), op, Box::new(b), p), scope)
            == Ok::<ValueV, Error<EvalFault>>(ValueV::Number(NumV::Bin(Box::new(x), op, Box::new(y)))),
{
}

/// Adding a number and a string gives the string: the number's decimal text
/// followed by the string's text.
pub proof fn law_number_plus_string(a: ExprV, b: ExprV, p: Pos, scope: ScopeV, x: NumV, ps: Seq<PieceV>)
    requires
        eval_expr(a, scope) == Ok::<ValueV, Error<EvalFault>>(ValueV::Number(x)),
        eval_expr(b, scope) == Ok::<ValueV, Error<EvalFault>>(ValueV::Str(ps)),
    ensures
        eval_expr(ExprV::Binary(Box::new(a), BinOp::Add, Box::new(b), p), scope)
            == Ok::<ValueV, Error<EvalFault>>(ValueV::Str(seq![PieceV::Num(x)] + ps)),
{
}

/// Whether the shape at index `k` takes a name that the registry, or an
/// earlier shape of the program, already has.
pub open spec fn clashes(base: Seq<ShapeV>, shapes: Seq<ShapeV>, k: int) -> bool {
    find_shape(base + shapes.take(k), shapes[k].name) is Some
}

proof fn lemma_register_prefix(base: Seq<ShapeV>, shapes: Seq<ShapeV>, k: int)
    requires
        0 <= k <= shapes.len(),
        forall|m: int| 0 <= m < k ==> !clashes(base, shapes, m),
    ensures
        register(base, shapes.take(k)) == Ok::<Seq<ShapeV>, Error<EvalFault>>(base + shapes.take(k)),
    decreases k,
{
    if k == 0 {
        assert(shapes.take(0) =~= Seq::<ShapeV>::empty());
        assert(base + shapes.take(0) =~= base);
    } else {
        lemma_register_prefix(base, shapes, k - 1);
        assert(shapes.take(k).drop_last() =~= shapes.take(k - 1));
        assert(!clashes(base, shapes, k - 1));
        assert(base + shapes.take(k) =~= (base + shapes.take(k - 1)).push(shapes[k - 1]));
    }
}

/// The first declaration whose name is already taken, by a builtin shape or
/// by an earlier declaration, is refused with `ShapeAlreadyDefined`, at its
/// own position.
pub proof fn law_duplicate_shape(base: Seq<ShapeV>, program: ProgramV, j: int)
    requires
        0 <= j < program.shapes.len(),
        clashes(base, program.shapes, j),
        forall|m: int| 0 <= m < j ==> !clashes(base, program.shapes, m),
    ensures
        program_result(Ok(base), program) == fail::<Seq<PieceV>>(
            EvalFault::ShapeAlreadyDefined(program.shapes[j].name),
            program.shapes[j].pos,
        ),
{
    let shapes = program.shapes;
    lemma_register_prefix(base, shapes, j);
    assert(shapes.take(j + 1).drop_last() =~= shapes.take(j));
    assert(shapes.take(j + 1).last() == shapes[j]);
    lemma_register_err(base, shapes, j + 1);
}

/// A program whose shapes all register, but none of which is a `main`
/// without parameters, fails with `MissingMain` at the end of its input.
pub proof fn law_missing_main(base: Seq<ShapeV>, program: ProgramV)
    requires
        register(base, program.shapes) is Ok,
        !has_main(program.shapes),
    ensures
        program_result(Ok(base), program) == fail::<Seq<PieceV>>(EvalFault::MissingMain, program.end),
{
}

/// `svg(value: e)` where `e` is a number fails with
/// `SvgExpectsString("number")` at the position of `e`.
pub proof fn law_svg_expects_string(reg: Seq<ShapeV>, scope: ScopeV, stack: Seq<Seq<char>>, call: FunCallV, x: NumV)
    requires
        stack.len() < STACK_LIMIT,
        call.ident == "svg"@,
        call.args.len() == 1,
        call.args[0].name == "value"@,
        eval_expr(call.args[0].expr, scope) == Ok::<ValueV, Error<EvalFault>>(ValueV::Number(x)),
    ensures
        eval_call_spec(reg, scope, stack, call) == fail::<Seq<PieceV>>(
            EvalFault::SvgExpectsString("number"@),
            expr_pos(call.args[0].expr),
        ),
{
}

/// Whether `name` names, in `reg`, a shape without parameters whose body is
/// one call of `name` itself, without arguments.
pub open spec fn calls_itself(reg: Seq<ShapeV>, name: Seq<char>) -> bool {
    &&& name != "svg"@
    &&& find_shape(reg, name) matches Some(s) && {
        &&& s.params.len() == 0
        &&& s.block.calls.len() == 1
        &&& s.block.calls[0].ident == name
    }
}

/// A shape that calls itself ends in `StackOverflow` once more than the
/// allowed number of calls are in progress; the frames are the calls in
/// progress, the last ones all of that shape.
pub proof fn law_unbounded_recursion(reg: Seq<ShapeV>, scope: ScopeV, stack: Seq<Seq<char>>, call: FunCallV)
    requires
        stack.len() <= STACK_LIMIT,
        calls_itself(reg, call.ident),
    ensures
        eval_call_spec(reg, scope, stack, call) matches Err(e) && e.error_type matches EvalFault::StackOverflow(frames) && {
            &&& frames.len() == STACK_LIMIT + 1
            &&& frames.take(stack.len() as int) == stack
            &&& forall|k: int| stack.len() <= k < frames.len() ==> frames[k] == call.ident
        },
    decreases STACK_LIMIT - stack.len(),
{
    let inner = stack.push(call.ident);
    if inner.len() > STACK_LIMIT {
        let frames = inner;
        assert(frames.take(stack.len() as int) =~= stack);
    } else {
        let s = find_shape(reg, call.ident)->0;
        assert(bind(s.params, call, scope) == Ok::<ScopeV, Error<EvalFault>>(Seq::empty()));
        let next = s.block.calls[0];
        law_unbounded_recursion(reg, Seq::empty(), inner, next);
        let calls = s.block.calls;
        assert(calls.drop_last() =~= Seq::<FunCallV>::empty());
        assert(calls.last() == next);
        assert(eval_block_spec(reg, Seq::empty(), inner, calls.drop_last()) == Ok::<Seq<PieceV>, Error<EvalFault>>(Seq::empty()));
        assert(eval_block_spec(reg, Seq::empty(), inner, calls) == eval_call_spec(reg, Seq::empty(), inner, next));
        assert(eval_call_spec(reg, scope, stack, call) == eval_call_spec(reg, Seq::empty(), inner, next));
        let e = eval_call_spec(reg, Seq::empty(), inner, next)->Err_0;
        let frames = e.error_type->StackOverflow_0;
        assert(frames.take(inner.len() as int) == inner);
        assert(frames.take(stack.len() as int) =~= frames.take(inner.len() as int).take(stack.len() as int));
        assert(inner.take(stack.len() as int) =~= stack);
        assert forall|k: int| stack.len() <= k < frames.len() implies frames[k] == call.ident by {
            if k == stack.len() {
                assert(frames.take(inner.len() as int)[k] == frames[k]);
            }
        }
    }
}

} // verus!
