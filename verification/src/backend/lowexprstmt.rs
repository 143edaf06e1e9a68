use crate::exprstmt::{idents_view, SpecIdent};
use crate::located::Located;
use vstd::prelude::*;

verus! {

// The lowered abstract syntax: as desugared as possible. Operators (unary and binary) become
// calls, function and operator declarations become lambdas bound to their names, parentheses
// go, and a conditional's `else` block becomes a last branch whose condition is `true`.

pub type Identifier = Located<String>;

/// A floating point constant: a literal as it was written, or the negation or an arithmetic
/// operation (`+ - * / %`) of constants, folded from the program but computed where it runs.
#[derive(Debug, PartialEq)]
pub enum FloatConst {
    Literal(String),
    Neg(Box<FloatConst>),
    Arith(char, Box<FloatConst>, Box<FloatConst>),
}

/// The lowered expressions.
#[derive(Debug, PartialEq)]
pub enum Expr {
    Unit,
    Int(i32),
    Float(FloatConst),
    String(String),
    Bool(bool),
    Identifier(String),
    /// callee(arg1, arg2, ...)
    Call(Box<LExpr>, Vec<LExpr>),
    List(Vec<LExpr>),
    /// expr[idx]
    Index(Box<LExpr>, Box<LExpr>),
    /// |params| { block }
    Lambda(Vec<Identifier>, Vec<LStmt>),
    FieldAccess(Box<LExpr>, Identifier),
    /// expr.name(args)
    MethodAccess(Box<LExpr>, Identifier, Vec<LExpr>),
}

pub type LExpr = Located<Expr>;

/// The lowered statements.
#[derive(Debug, PartialEq)]
pub enum Stmt {
    Expr(LExpr),
    VarDecl(Identifier, LExpr),
    Assign(Identifier, LExpr),
    /// expr[expr] = expr
    AssignIndex(LExpr, LExpr, LExpr),
    Block(Vec<LStmt>),
    /// the branches in order, each a condition and a block
    If(Vec<(LExpr, Vec<LStmt>)>),
    While(LExpr, Vec<LStmt>),
    Return(LExpr),
    Break,
    Continue,
    Struct(Identifier, Vec<Identifier>),
    /// expr.name = expr
    AssignStruct(LExpr, Identifier, LExpr),
    Impl(Identifier, Vec<LStmt>),
}

pub type LStmt = Located<Stmt>;

// ---------------------------------------------------------------------------
// The lowered syntax as the specifications see it
// ---------------------------------------------------------------------------

pub enum SpecFloatConst {
    Literal(Seq<char>),
    Neg(Box<SpecFloatConst>),
    Arith(char, Box<SpecFloatConst>, Box<SpecFloatConst>),
}

pub open spec fn float_const_view(f: FloatConst) -> SpecFloatConst
    decreases f,
{
    match f {
        FloatConst::Literal(t) => SpecFloatConst::Literal(t@),
        FloatConst::Neg(x) => SpecFloatConst::Neg(Box::new(float_const_view(*x))),
        FloatConst::Arith(c, a, b) => SpecFloatConst::Arith(c, Box::new(float_const_view(*a)), Box::new(float_const_view(*b))),
    }
}

impl View for FloatConst {
    type V = SpecFloatConst;

    open spec fn view(&self) -> SpecFloatConst {
        float_const_view(*self)
    }
}

pub enum SpecLowExpr {
    Unit,
    Int(i32),
    Float(SpecFloatConst),
    String(Seq<char>),
    Bool(bool),
    Identifier(Seq<char>),
    Call(Box<SpecLowLExpr>, Seq<SpecLowLExpr>),
    List(Seq<SpecLowLExpr>),
    Index(Box<SpecLowLExpr>, Box<SpecLowLExpr>),
    Lambda(Seq<SpecIdent>, Seq<SpecLowLStmt>),
    FieldAccess(Box<SpecLowLExpr>, SpecIdent),
    MethodAccess(Box<SpecLowLExpr>, SpecIdent, Seq<SpecLowLExpr>),
}

pub type SpecLowLExpr = Located<SpecLowExpr>;

pub enum SpecLowStmt {
    Expr(SpecLowLExpr),
    VarDecl(SpecIdent, SpecLowLExpr),
    Assign(SpecIdent, SpecLowLExpr),
    AssignIndex(SpecLowLExpr, SpecLowLExpr, SpecLowLExpr),
    Block(Seq<SpecLowLStmt>),
    If(Seq<(SpecLowLExpr, Seq<SpecLowLStmt>)>),
    While(SpecLowLExpr, Seq<SpecLowLStmt>),
    Return(SpecLowLExpr),
    Break,
    Continue,
    Struct(SpecIdent, Seq<SpecIdent>),
    AssignStruct(SpecLowLExpr, SpecIdent, SpecLowLExpr),
    Impl(SpecIdent, Seq<SpecLowLStmt>),
}

pub type SpecLowLStmt = Located<SpecLowStmt>;

pub open spec fn low_lexpr_view(e: LExpr) -> SpecLowLExpr
    decreases e,
{
    Located { val: low_expr_view(e.val), loc: e.loc }
}

pub open spec fn low_lexprs_view(es: Seq<LExpr>) -> Seq<SpecLowLExpr>
    decreases es,
{
    Seq::new(es.len(), |i: int| if 0 <= i < es.len() { low_lexpr_view(es[i]) } else { arbitrary() })
}

pub open spec fn low_expr_view(e: Expr) -> SpecLowExpr
    decreases e,
{
    match e {
        Expr::Unit => SpecLowExpr::Unit,
        Expr::Int(n) => SpecLowExpr::Int(n),
        Expr::Float(f) => SpecLowExpr::Float(float_const_view(f)),
        Expr::String(s) => SpecLowExpr::String(s@),
        Expr::Bool(b) => SpecLowExpr::Bool(b),
        Expr::Identifier(s) => SpecLowExpr::Identifier(s@),
        Expr::Call(c, args) => SpecLowExpr::Call(Box::new(low_lexpr_view(*c)), low_lexprs_view(args@)),
        Expr::List(xs) => SpecLowExpr::List(low_lexprs_view(xs@)),
        Expr::Index(x, i) => SpecLowExpr::Index(Box::new(low_lexpr_view(*x)), Box::new(low_lexpr_view(*i))),
        Expr::Lambda(ps, body) => SpecLowExpr::Lambda(idents_view(ps@), low_lstmts_view(body@)),
        Expr::FieldAccess(x, name) => SpecLowExpr::FieldAccess(Box::new(low_lexpr_view(*x)), name@),
        Expr::MethodAccess(x, name, args) => SpecLowExpr::MethodAccess(
            Box::new(low_lexpr_view(*x)),
            name@,
            low_lexprs_view(args@),
        ),
    }
}

pub open spec fn low_lstmt_view(s: LStmt) -> SpecLowLStmt
    decreases s,
{
    Located { val: low_stmt_view(s.val), loc: s.loc }
}

pub open spec fn low_lstmts_view(ss: Seq<LStmt>) -> Seq<SpecLowLStmt>
    decreases ss,
{
    Seq::new(ss.len(), |i: int| if 0 <= i < ss.len() { low_lstmt_view(ss[i]) } else { arbitrary() })
}

pub open spec fn low_branches_view(bs: Seq<(LExpr, Vec<LStmt>)>) -> Seq<(SpecLowLExpr, Seq<SpecLowLStmt>)>
    decreases bs,
{
    Seq::new(
        bs.len(),
        |i: int|
            if 0 <= i < bs.len() {
                (low_lexpr_view(bs[i].0), low_lstmts_view(bs[i].1@))
            } else {
                arbitrary()
            },
    )
}

pub open spec fn low_stmt_view(s: Stmt) -> SpecLowStmt
    decreases s,
{
    match s {
        Stmt::Expr(e) => SpecLowStmt::Expr(low_lexpr_view(e)),
        Stmt::VarDecl(n, e) => SpecLowStmt::VarDecl(n@, low_lexpr_view(e)),
        Stmt::Assign(n, e) => SpecLowStmt::Assign(n@, low_lexpr_view(e)),
        Stmt::AssignIndex(l, i, v) => SpecLowStmt::AssignIndex(low_lexpr_view(l), low_lexpr_view(i), low_lexpr_view(v)),
        Stmt::Block(b) => SpecLowStmt::Block(low_lstmts_view(b@)),
        Stmt::If(bs) => SpecLowStmt::If(low_branches_view(bs@)),
        Stmt::While(c, b) => SpecLowStmt::While(low_lexpr_view(c), low_lstmts_view(b@)),
        Stmt::Return(e) => SpecLowStmt::Return(low_lexpr_view(e)),
        Stmt::Break => SpecLowStmt::Break,
        Stmt::Continue => SpecLowStmt::Continue,
        Stmt::Struct(n, fs) => SpecLowStmt::Struct(n@, idents_view(fs@)),
        Stmt::AssignStruct(l, n, r) => SpecLowStmt::AssignStruct(low_lexpr_view(l), n@, low_lexpr_view(r)),
        Stmt::Impl(n, b) => SpecLowStmt::Impl(n@, low_lstmts_view(b@)),
    }
}

impl View for Expr {
    type V = SpecLowExpr;

    open spec fn view(&self) -> SpecLowExpr {
        low_expr_view(*self)
    }
}

impl View for Stmt {
    type V = SpecLowStmt;

    open spec fn view(&self) -> SpecLowStmt {
        low_stmt_view(*self)
    }
}

} // verus!
