use vstd::prelude::*;

use crate::pos::{HasPos, Pos, Range};

verus! {

/// A whole source file: its shape declarations, in order, and the position
/// where the input ends.
#[derive(Debug)]
pub struct Program {
    pub decls: Vec<Decl>,
    pub end: Pos,
}

#[derive(Debug)]
pub enum Decl {
    ShapeDecl(Shape),
}

/// `shape name(params) { calls }`
#[derive(Debug)]
pub struct Shape {
    pub name: String,
    pub args: Vec<Param>,
    pub block: Block,
    pub pos: Pos,
}

/// A formal parameter of a shape, with its default value if it has one.
#[derive(Debug)]
pub struct Param {
    pub name: String,
    pub default: Option<Expr>,
}

/// The calls that make up a shape's body.
#[derive(Debug)]
pub struct Block {
    pub calls: Vec<FunCall>,
    pub range: Range,
}

/// `name: expr` in a call.
#[derive(Debug)]
pub struct NamedArg {
    pub name: String,
    pub expr: Expr,
}

#[derive(Debug)]
pub enum Stmt {
    Expr(Expr, Pos),
}

#[derive(Debug)]
pub enum Expr {
    Name(String, Range),
    Literal(Literal, Range),
    Binary(Box<Expr>, BinOp, Box<Expr>, Pos),
    Unary(UnOp, Box<Expr>, Pos),
    Grouping(Box<Expr>),
}

/// A call of a shape or of the `svg` primitive.
#[derive(Debug)]
pub struct FunCall {
    pub ident: String,
    pub args: Vec<NamedArg>,
    pub range: Range,
}

/// A literal; a number keeps the text it was written with.
#[derive(Debug)]
pub enum Literal {
    Number(String),
    String(String),
}

#[derive(Debug, Clone, Copy, PartialEq, Eq, Structural)]
pub enum BinOp {
    Mul,
    Div,
    Add,
    Sub,
}

#[derive(Debug, Clone, Copy, PartialEq, Eq, Structural)]
pub enum UnOp {
    Neg,
}

/// Binding powers of the expression grammar.
#[derive(Debug, Clone, Copy, PartialEq, Eq, Structural)]
pub enum Precedence {
    Conditional,
    Sum,
    Product,
    Exponent,
    Prefix,
    Postfix,
    Call,
}

pub open spec fn spec_prec(p: Precedence) -> u32 {
    match p {
        Precedence::Conditional => 20,
        Precedence::Sum => 30,
        Precedence::Product => 40,
        Precedence::Exponent => 50,
        Precedence::Prefix => 60,
        Precedence::Postfix => 70,
        Precedence::Call => 80,
    }
}

/// The binding power of a precedence level.
pub fn prec(p: Precedence) -> (r: u32)
    ensures
        r == spec_prec(p),
{
    match p {
        Precedence::Conditional => 20,
        Precedence::Sum => 30,
        Precedence::Product => 40,
        Precedence::Exponent => 50,
        Precedence::Prefix => 60,
        Precedence::Postfix => 70,
        Precedence::Call => 80,
    }
}

// ---------------------------------------------------------------------------
// Views
// ---------------------------------------------------------------------------

pub enum LitV {
    Number(Seq<char>),
    Str(Seq<char>),
}

pub enum ExprV {
    Name(Seq<char>, Range),
    Literal(LitV, Range),
    Binary(Box<ExprV>, BinOp, Box<ExprV>, Pos),
    Unary(UnOp, Box<ExprV>, Pos),
    Grouping(Box<ExprV>),
}

pub struct NamedArgV {
    pub name: Seq<char>,
    pub expr: ExprV,
}

pub struct FunCallV {
    pub ident: Seq<char>,
    pub args: Seq<NamedArgV>,
    pub range: Range,
}

pub struct BlockV {
    pub calls: Seq<FunCallV>,
    pub range: Range,
}

pub struct ParamV {
    pub name: Seq<char>,
    pub default: Option<ExprV>,
}

pub struct ShapeV {
    pub name: Seq<char>,
    pub params: Seq<ParamV>,
    pub block: BlockV,
    pub pos: Pos,
}

pub struct ProgramV {
    pub shapes: Seq<ShapeV>,
    pub end: Pos,
}

impl View for Literal {
    type V = LitV;

    open spec fn view(&self) -> LitV {
        match self {
            Literal::Number(s) => LitV::Number(s@),
            Literal::String(s) => LitV::Str(s@),
        }
    }
}

pub open spec fn expr_view(e: Expr) -> ExprV
    decreases e,
{
    match e {
        Expr::Name(n, r) => ExprV::Name(n@, r),
        Expr::Literal(l, r) => ExprV::Literal(l@, r),
        Expr::Binary(a, op, b, p) => ExprV::Binary(Box::new(expr_view(*a)), op, Box::new(expr_view(*b)), p),
        Expr::Unary(op, a, p) => ExprV::Unary(op, Box::new(expr_view(*a)), p),
        Expr::Grouping(a) => ExprV::Grouping(Box::new(expr_view(*a))),
    }
}

impl View for Expr {
    type V = ExprV;

    open spec fn view(&self) -> ExprV {
        expr_view(*self)
    }
}

impl View for NamedArg {
    type V = NamedArgV;

    open spec fn view(&self) -> NamedArgV {
        NamedArgV { name: self.name@, expr: self.expr@ }
    }
}

impl View for FunCall {
    type V = FunCallV;

    open spec fn view(&self) -> FunCallV {
        FunCallV { ident: self.ident@, args: self.args@.map_values(|a: NamedArg| a@), range: self.range }
    }
}

impl View for Block {
    type V = BlockV;

    open spec fn view(&self) -> BlockV {
        BlockV { calls: self.calls@.map_values(|c: FunCall| c@), range: self.range }
    }
}

impl View for Param {
    type V = ParamV;

    open spec fn view(&self) -> ParamV {
        ParamV {
            name: self.name@,
            default: match self.default {
                Some(e) => Some(e@),
                None => None,
            },
        }
    }
}

impl View for Shape {
    type V = ShapeV;

    open spec fn view(&self) -> ShapeV {
        ShapeV {
            name: self.name@,
            params: self.args@.map_values(|p: Param| p@),
            block: self.block@,
            pos: self.pos,
        }
    }
}

impl View for Decl {
    type V = ShapeV;

    open spec fn view(&self) -> ShapeV {
        match self {
            Decl::ShapeDecl(s) => s@,
        }
    }
}

impl View for Program {
    type V = ProgramV;

    open spec fn view(&self) -> ProgramV {
        ProgramV { shapes: self.decls@.map_values(|d: Decl| d@), end: self.end }
    }
}

// ---------------------------------------------------------------------------
// Positions
// ---------------------------------------------------------------------------

pub open spec fn expr_pos(e: ExprV) -> Pos
    decreases e,
{
    match e {
        ExprV::Name(_, r) => r.start,
        ExprV::Literal(_, r) => r.start,
        ExprV::Binary(_, _, _, p) => p,
        ExprV::Unary(_, _, p) => p,
        ExprV::Grouping(a) => expr_pos(*a),
    }
}

impl HasPos for Expr {
    open spec fn spec_pos(&self) -> Pos {
        expr_pos(self@)
    }

    fn pos(&self) -> (p: Pos)
        decreases self,
    {
        match self {
            Expr::Name(_, r) => r.start,
            Expr::Literal(_, r) => r.start,
            Expr::Binary(_, _, _, p) => *p,
            Expr::Unary(_, _, p) => *p,
            Expr::Grouping(a) => a.pos(),
        }
    }
}

impl HasPos for Stmt {
    open spec fn spec_pos(&self) -> Pos {
        match self {
            Stmt::Expr(_, p) => *p,
        }
    }

    fn pos(&self) -> (p: Pos) {
        match self {
            Stmt::Expr(_, p) => *p,
        }
    }
}

impl HasPos for FunCall {
    open spec fn spec_pos(&self) -> Pos {
        self.range.start
    }

    fn pos(&self) -> (p: Pos) {
        self.range.start
    }
}

impl HasPos for Shape {
    open spec fn spec_pos(&self) -> Pos {
        self.pos
    }

    fn pos(&self) -> (p: Pos) {
        self.pos
    }
}

} // verus!
