use crate::associativity::Precedence;
use crate::located::{Located, Location};
use vstd::prelude::*;

verus! {

/// A name, with its place in the source code.
pub type Identifier = Located<String>;

/// An operator, with its place in the source code.
pub type Symbol = Located<String>;

/// The expressions of the language, as parsed.
///
/// A floating point literal is kept as the text it was written with.
#[derive(Debug, PartialEq)]
pub enum ExprType {
    Unit,
    Int(i32),
    Float(String),
    String(String),
    Bool(bool),
    Identifier(String),
    Parens(Box<LExpr>),
    /// callee(arg1, arg2, ...)
    Call(Box<LExpr>, Vec<LExpr>),
    UnaryOperation(Symbol, Box<LExpr>),
    BinaryOperation(Box<LExpr>, Symbol, Box<LExpr>),
    List(Vec<LExpr>),
    /// expr[idx]
    Index(Box<LExpr>, Box<LExpr>),
    /// |params| { block }
    Lambda(Vec<Identifier>, Vec<LStmt>),
    FieldAccess(Box<LExpr>, Identifier),
    /// expr.name(args)
    MethodAccess(Box<LExpr>, Identifier, Vec<LExpr>),
}

pub type Expr = ExprType;

pub type LExpr = Located<ExprType>;

/// The statements of the language, as parsed.
#[derive(Debug, PartialEq)]
pub enum StmtType {
    Expr(LExpr),
    VarDecl(Identifier, LExpr),
    Assign(Identifier, LExpr),
    /// expr[expr] = expr
    AssignIndex(LExpr, LExpr, LExpr),
    Block(Vec<LStmt>),
    /// the conditional branches in order, and the `else` block
    If(Vec<(LExpr, Vec<LStmt>)>, Option<Block>),
    While(LExpr, Vec<LStmt>),
    /// name, parameters, body
    FunDecl(Identifier, Vec<Identifier>, Vec<LStmt>),
    OperatorDecl(Symbol, (Identifier, Identifier), Vec<LStmt>, Precedence),
    Return(LExpr),
    Break,
    Continue,
    Struct(Identifier, Vec<Identifier>),
    /// expr.name = expr
    AssignStruct(LExpr, Identifier, LExpr),
    Impl(Identifier, Vec<LStmt>),
}

pub type Stmt = StmtType;

pub type LStmt = Located<StmtType>;

pub type Block = Vec<LStmt>;

// ---------------------------------------------------------------------------
// The abstract syntax as the specifications see it
// ---------------------------------------------------------------------------

pub type SpecIdent = Located<Seq<char>>;

pub enum SpecExpr {
    Unit,
    Int(i32),
    Float(Seq<char>),
    String(Seq<char>),
    Bool(bool),
    Identifier(Seq<char>),
    Parens(Box<SpecLExpr>),
    Call(Box<SpecLExpr>, Seq<SpecLExpr>),
    UnaryOperation(SpecIdent, Box<SpecLExpr>),
    BinaryOperation(Box<SpecLExpr>, SpecIdent, Box<SpecLExpr>),
    List(Seq<SpecLExpr>),
    Index(Box<SpecLExpr>, Box<SpecLExpr>),
    Lambda(Seq<SpecIdent>, Seq<SpecLStmt>),
    FieldAccess(Box<SpecLExpr>, SpecIdent),
    MethodAccess(Box<SpecLExpr>, SpecIdent, Seq<SpecLExpr>),
}

pub type SpecLExpr = Located<SpecExpr>;

pub enum SpecStmt {
    Expr(SpecLExpr),
    VarDecl(SpecIdent, SpecLExpr),
    Assign(SpecIdent, SpecLExpr),
    AssignIndex(SpecLExpr, SpecLExpr, SpecLExpr),
    Block(Seq<SpecLStmt>),
    If(Seq<(SpecLExpr, Seq<SpecLStmt>)>, Option<Seq<SpecLStmt>>),
    While(SpecLExpr, Seq<SpecLStmt>),
    FunDecl(SpecIdent, Seq<SpecIdent>, Seq<SpecLStmt>),
    OperatorDecl(SpecIdent, (SpecIdent, SpecIdent), Seq<SpecLStmt>, Precedence),
    Return(SpecLExpr),
    Break,
    Continue,
    Struct(SpecIdent, Seq<SpecIdent>),
    AssignStruct(SpecLExpr, SpecIdent, SpecLExpr),
    Impl(SpecIdent, Seq<SpecLStmt>),
}

pub type SpecLStmt = Located<SpecStmt>;

pub open spec fn idents_view(ids: Seq<Identifier>) -> Seq<SpecIdent> {
    ids.map_values(|i: Identifier| i@)
}

pub open spec fn lexpr_view(e: LExpr) -> SpecLExpr
    decreases e,
{
    Located { val: expr_view(e.val), loc: e.loc }
}

pub open spec fn lexprs_view(es: Seq<LExpr>) -> Seq<SpecLExpr>
    decreases es,
{
    Seq::new(es.len(), |i: int| if 0 <= i < es.len() { lexpr_view(es[i]) } else { arbitrary() })
}

pub open spec fn expr_view(e: ExprType) -> SpecExpr
    decreases e,
{
    match e {
        ExprType::Unit => SpecExpr::Unit,
        ExprType::Int(n) => SpecExpr::Int(n),
        ExprType::Float(s) => SpecExpr::Float(s@),
        ExprType::String(s) => SpecExpr::String(s@),
        ExprType::Bool(b) => SpecExpr::Bool(b),
        ExprType::Identifier(s) => SpecExpr::Identifier(s@),
        ExprType::Parens(x) => SpecExpr::Parens(Box::new(lexpr_view(*x))),
        ExprType::Call(c, args) => SpecExpr::Call(Box::new(lexpr_view(*c)), lexprs_view(args@)),
        ExprType::UnaryOperation(op, x) => SpecExpr::UnaryOperation(op@, Box::new(lexpr_view(*x))),
        ExprType::BinaryOperation(l, op, r) => SpecExpr::BinaryOperation(
            Box::new(lexpr_view(*l)),
            op@,
            Box::new(lexpr_view(*r)),
        ),
        ExprType::List(xs) => SpecExpr::List(lexprs_view(xs@)),
        ExprType::Index(x, i) => SpecExpr::Index(Box::new(lexpr_view(*x)), Box::new(lexpr_view(*i))),
        ExprType::Lambda(ps, body) => SpecExpr::Lambda(idents_view(ps@), lstmts_view(body@)),
        ExprType::FieldAccess(x, name) => SpecExpr::FieldAccess(Box::new(lexpr_view(*x)), name@),
        ExprType::MethodAccess(x, name, args) => SpecExpr::MethodAccess(
            Box::new(lexpr_view(*x)),
            name@,
            lexprs_view(args@),
        ),
    }
}

pub open spec fn lstmt_view(s: LStmt) -> SpecLStmt
    decreases s,
{
    Located { val: stmt_view(s.val), loc: s.loc }
}

pub open spec fn lstmts_view(ss: Seq<LStmt>) -> Seq<SpecLStmt>
    decreases ss,
{
    Seq::new(ss.len(), |i: int| if 0 <= i < ss.len() { lstmt_view(ss[i]) } else { arbitrary() })
}

pub open spec fn branches_view(bs: Seq<(LExpr, Vec<LStmt>)>) -> Seq<(SpecLExpr, Seq<SpecLStmt>)>
    decreases bs,
{
    Seq::new(
        bs.len(),
        |i: int|
            if 0 <= i < bs.len() {
                (lexpr_view(bs[i].0), lstmts_view(bs[i].1@))
            } else {
                arbitrary()
            },
    )
}

pub open spec fn stmt_view(s: StmtType) -> SpecStmt
    decreases s,
{
    match s {
        StmtType::Expr(e) => SpecStmt::Expr(lexpr_view(e)),
        StmtType::VarDecl(n, e) => SpecStmt::VarDecl(n@, lexpr_view(e)),
        StmtType::Assign(n, e) => SpecStmt::Assign(n@, lexpr_view(e)),
        StmtType::AssignIndex(l, i, v) => SpecStmt::AssignIndex(lexpr_view(l), lexpr_view(i), lexpr_view(v)),
        StmtType::Block(b) => SpecStmt::Block(lstmts_view(b@)),
        StmtType::If(bs, els) => SpecStmt::If(
            branches_view(bs@),
            match els {
                Some(b) => Some(lstmts_view(b@)),
                None => None,
            },
        ),
        StmtType::While(c, b) => SpecStmt::While(lexpr_view(c), lstmts_view(b@)),
        StmtType::FunDecl(n, ps, b) => SpecStmt::FunDecl(n@, idents_view(ps@), lstmts_view(b@)),
        StmtType::OperatorDecl(n, ps, b, p) => SpecStmt::OperatorDecl(n@, (ps.0@, ps.1@), lstmts_view(b@), p),
        StmtType::Return(e) => SpecStmt::Return(lexpr_view(e)),
        StmtType::Break => SpecStmt::Break,
        StmtType::Continue => SpecStmt::Continue,
        StmtType::Struct(n, fs) => SpecStmt::Struct(n@, idents_view(fs@)),
        StmtType::AssignStruct(l, n, r) => SpecStmt::AssignStruct(lexpr_view(l), n@, lexpr_view(r)),
        StmtType::Impl(n, b) => SpecStmt::Impl(n@, lstmts_view(b@)),
    }
}

impl View for ExprType {
    type V = SpecExpr;

    open spec fn view(&self) -> SpecExpr {
        expr_view(*self)
    }
}

impl View for StmtType {
    type V = SpecStmt;

    open spec fn view(&self) -> SpecStmt {
        stmt_view(*self)
    }
}

} // verus!
