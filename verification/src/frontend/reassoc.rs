use crate::associativity::{Associativity, Precedence};
use crate::environment::{entries_view, position, scope_get, scope_put, ScopeView};
use crate::error::{err_on, error_on, Error, ErrorType, SpecError, SpecErrorType};
use crate::exprstmt::{
    branches_view, lexpr_view, lexprs_view, lstmt_view, lstmts_view, Expr, LExpr, LStmt, SpecExpr,
    SpecLExpr, SpecLStmt, SpecStmt, Stmt, Symbol,
};
use crate::frontend::parser::{rv_expr, rv_stmt};
use crate::located::{Located, Location};
use vstd::prelude::*;

verus! {

// ---------------------------------------------------------------------------
// Regrouping binary operations by precedence and associativity
// ---------------------------------------------------------------------------
//
// The parser reads `a op1 b op2 c` as `a op1 (b op2 c)`. Regrouping walks the statements in
// order and rotates each binary operation to the left where the operators' precedences call
// for it. The table of operators grows as operator declarations are met, and the first error
// ends the walk.

/// The precedence of each operator known so far.
pub type OpTable = ScopeView<Precedence>;

/// An outcome of regrouping, with the operator table afterwards.
pub struct RRes<V> {
    pub res: Result<V, SpecError>,
    pub ops: OpTable,
}

pub open spec fn rfail<V>(e: SpecError, ops: OpTable) -> RRes<V> {
    RRes { res: Err(e), ops }
}

pub open spec fn rok<V>(v: V, ops: OpTable) -> RRes<V> {
    RRes { res: Ok(v), ops }
}

/// `done` followed by what `r` gives, when it succeeds.
pub open spec fn prepend<V>(done: Seq<V>, r: RRes<Seq<V>>) -> RRes<Seq<V>> {
    match r.res {
        Ok(v) => rok(done + v, r.ops),
        Err(e) => rfail(e, r.ops),
    }
}

// Sizes, which regrouping keeps and by which its recursion is measured.

pub open spec fn esize(e: SpecLExpr) -> nat
    decreases e,
{
    match e.val {
        SpecExpr::Parens(x) => 1 + esize(*x),
        SpecExpr::Call(c, args) => 1 + esize(*c) + esizes(args),
        SpecExpr::UnaryOperation(_, x) => 1 + esize(*x),
        SpecExpr::BinaryOperation(l, _, r) => 1 + esize(*l) + esize(*r),
        SpecExpr::List(xs) => 1 + esizes(xs),
        SpecExpr::Index(x, i) => 1 + esize(*x) + esize(*i),
        SpecExpr::Lambda(_, body) => 1 + ssizes(body),
        SpecExpr::FieldAccess(x, _) => 1 + esize(*x),
        SpecExpr::MethodAccess(x, _, args) => 1 + esize(*x) + esizes(args),
        _ => 1,
    }
}

pub open spec fn esizes(es: Seq<SpecLExpr>) -> nat
    decreases es,
{
    if es.len() == 0 {
        0
    } else {
        esize(es[0]) + esizes(es.subrange(1, es.len() as int))
    }
}

pub open spec fn ssize(s: SpecLStmt) -> nat
    decreases s,
{
    match s.val {
        SpecStmt::Expr(x) => 1 + esize(x),
        SpecStmt::VarDecl(_, x) => 1 + esize(x),
        SpecStmt::Assign(_, x) => 1 + esize(x),
        SpecStmt::AssignIndex(a, b, c) => 1 + esize(a) + esize(b) + esize(c),
        SpecStmt::Block(b) => 1 + ssizes(b),
        SpecStmt::If(bs, els) => 1 + bsizes(bs) + match els {
            Some(b) => ssizes(b),
            None => 0,
        },
        SpecStmt::While(c, b) => 1 + esize(c) + ssizes(b),
        SpecStmt::FunDecl(_, _, b) => 1 + ssizes(b),
        SpecStmt::OperatorDecl(_, _, b, _) => 1 + ssizes(b),
        SpecStmt::Return(x) => 1 + esize(x),
        SpecStmt::AssignStruct(a, _, b) => 1 + esize(a) + esize(b),
        SpecStmt::Impl(_, b) => 1 + ssizes(b),
        _ => 1,
    }
}

pub open spec fn ssizes(ss: Seq<SpecLStmt>) -> nat
    decreases ss,
{
    if ss.len() == 0 {
        0
    } else {
        ssize(ss[0]) + ssizes(ss.subrange(1, ss.len() as int))
    }
}

pub open spec fn bsizes(bs: Seq<(SpecLExpr, Seq<SpecLStmt>)>) -> nat
    decreases bs,
{
    if bs.len() == 0 {
        0
    } else {
        esize(bs[0].0) + ssizes(bs[0].1) + bsizes(bs.subrange(1, bs.len() as int))
    }
}

pub proof fn lemma_esize_pos(e: SpecLExpr)
    ensures
        esize(e) >= 1,
{
}

pub proof fn lemma_ssize_pos(s: SpecLStmt)
    ensures
        ssize(s) >= 1,
{
}


/// An expression with its operations regrouped.
pub open spec fn r_expr(ops: OpTable, e: SpecLExpr) -> RRes<SpecLExpr>
    decreases esize(e), 1int,
{
    let loc = e.loc;
    match e.val {
        SpecExpr::Parens(x) => {
            let a = r_expr(ops, *x);
            match a.res {
                Err(er) => rfail(er, a.ops),
                Ok(y) => rok(Located { val: SpecExpr::Parens(Box::new(y)), loc }, a.ops),
            }
        },
        SpecExpr::Call(c, args) => {
            // the arguments are regrouped before the callee
            let a = r_exprs(ops, args);
            match a.res {
                Err(er) => rfail(er, a.ops),
                Ok(args2) => {
                    let b = r_expr(a.ops, *c);
                    match b.res {
                        Err(er) => rfail(er, b.ops),
                        Ok(c2) => rok(Located { val: SpecExpr::Call(Box::new(c2), args2), loc }, b.ops),
                    }
                },
            }
        },
        SpecExpr::UnaryOperation(op, x) => {
            let a = r_expr(ops, *x);
            match a.res {
                Err(er) => rfail(er, a.ops),
                Ok(y) => rok(Located { val: SpecExpr::UnaryOperation(op, Box::new(y)), loc }, a.ops),
            }
        },
        SpecExpr::BinaryOperation(l, op, r) => r_binary(ops, *l, op, *r),
        SpecExpr::List(xs) => {
            let a = r_exprs(ops, xs);
            match a.res {
                Err(er) => rfail(er, a.ops),
                Ok(ys) => rok(Located { val: SpecExpr::List(ys), loc }, a.ops),
            }
        },
        SpecExpr::Index(x, i) => {
            let a = r_expr(ops, *x);
            match a.res {
                Err(er) => rfail(er, a.ops),
                Ok(x2) => {
                    let b = r_expr(a.ops, *i);
                    match b.res {
                        Err(er) => rfail(er, b.ops),
                        Ok(i2) => rok(Located { val: SpecExpr::Index(Box::new(x2), Box::new(i2)), loc }, b.ops),
                    }
                },
            }
        },
        SpecExpr::Lambda(ps, body) => {
            let a = r_stmts(ops, body);
            match a.res {
                Err(er) => rfail(er, a.ops),
                Ok(b2) => rok(Located { val: SpecExpr::Lambda(ps, b2), loc }, a.ops),
            }
        },
        SpecExpr::FieldAccess(x, name) => {
            let a = r_expr(ops, *x);
            match a.res {
                Err(er) => rfail(er, a.ops),
                Ok(y) => rok(Located { val: SpecExpr::FieldAccess(Box::new(y), name), loc }, a.ops),
            }
        },
        SpecExpr::MethodAccess(x, name, args) => {
            let a = r_expr(ops, *x);
            match a.res {
                Err(er) => rfail(er, a.ops),
                Ok(x2) => {
                    let b = r_exprs(a.ops, args);
                    match b.res {
                        Err(er) => rfail(er, b.ops),
                        Ok(args2) => rok(Located { val: SpecExpr::MethodAccess(Box::new(x2), name, args2), loc }, b.ops),
                    }
                },
            }
        },
        _ => rok(e, ops),
    }
}

/// Whether `a op1 (b op2 c)` is to be regrouped as `(a op1 b) op2 c`: `op1` binds tighter, or
/// both bind equally and group to the left.
pub open spec fn rotates(p1: Precedence, p2: Precedence) -> bool {
    p1.prec > p2.prec || (p1.prec == p2.prec && p1.assoc == Associativity::Left && p2.assoc == Associativity::Left)
}

/// Whether `a op1 (b op2 c)` stays as it is: `op2` binds tighter, or both bind equally and
/// group to the right.
pub open spec fn stays(p1: Precedence, p2: Precedence) -> bool {
    p1.prec < p2.prec || (p1.prec == p2.prec && p1.assoc == Associativity::Right && p2.assoc == Associativity::Right)
}

/// The binary operation `l op r` regrouped. Both operands are regrouped first; an operator the
/// table does not know is an error. When the right operand is itself a binary operation
/// `b op2 c`, `op` and `op2` decide between `l op (b op2 c)` and
/// `(l op b) op2 c` (the latter formed again by regrouping, and located where `c` is).
pub open spec fn r_binary(ops: OpTable, l: SpecLExpr, op: Located<Seq<char>>, r: SpecLExpr) -> RRes<SpecLExpr>
    decreases esize(l) + esize(r) + 1, 0int,
{
    let a = r_expr(ops, l);
    match a.res {
        Err(er) => rfail(er, a.ops),
        Ok(l1) => {
            let b = r_expr(a.ops, r);
            let ops2 = b.ops;
            match b.res {
                Err(er) => rfail(er, ops2),
                Ok(r1) => match scope_get(ops2, op.val) {
                    None => rfail(err_on(SpecErrorType::OperatorNotFound(op.val), op.loc), ops2),
                    Some(p1) => match r1.val {
                        SpecExpr::BinaryOperation(l2, op2, r2) => match scope_get(ops2, op2.val) {
                            None => rfail(err_on(SpecErrorType::OperatorNotFound(op2.val), op2.loc), ops2),
                            Some(p2) => if rotates(p1, p2) {
                                if esize(l1) + esize(*l2) < esize(l) + esize(r) {
                                    let c = r_binary(ops2, l1, op, *l2);
                                    match c.res {
                                        Err(er) => rfail(er, c.ops),
                                        Ok(nl) => rok(
                                            Located { val: SpecExpr::BinaryOperation(Box::new(nl), op2, r2), loc: r2.loc },
                                            c.ops,
                                        ),
                                    }
                                } else {
                                    arbitrary()
                                }
                            } else if stays(p1, p2) {
                                rok(
                                    Located {
                                        val: SpecExpr::BinaryOperation(Box::new(l1), op, Box::new(r1)),
                                        loc: Location { start: l1.loc.start, end: r1.loc.end },
                                    },
                                    ops2,
                                )
                            } else {
                                rfail(
                                    SpecError {
                                        msg: SpecErrorType::IncompatiblePrecedence(op.val, p1, op2.val, p2),
                                        lines: seq![op.loc, op2.loc],
                                    },
                                    ops2,
                                )
                            },
                        },
                        _ => rok(
                            Located {
                                val: SpecExpr::BinaryOperation(Box::new(l1), op, Box::new(r1)),
                                loc: Location { start: l1.loc.start, end: r1.loc.end },
                            },
                            ops2,
                        ),
                    },
                },
            }
        },
    }
}

/// Expressions regrouped in order.
pub open spec fn r_exprs(ops: OpTable, es: Seq<SpecLExpr>) -> RRes<Seq<SpecLExpr>>
    decreases esizes(es), 2int,
{
    if es.len() == 0 {
        rok(Seq::empty(), ops)
    } else {
        let h = r_expr(ops, es[0]);
        match h.res {
            Err(er) => rfail(er, h.ops),
            Ok(x) => {
                proof {
                    lemma_esize_pos(es[0]);
                }
                prepend(seq![x], r_exprs(h.ops, es.subrange(1, es.len() as int)))
            },
        }
    }
}

/// Statements regrouped in order.
pub open spec fn r_stmts(ops: OpTable, ss: Seq<SpecLStmt>) -> RRes<Seq<SpecLStmt>>
    decreases ssizes(ss), 2int,
{
    if ss.len() == 0 {
        rok(Seq::empty(), ops)
    } else {
        let h = r_stmt(ops, ss[0]);
        match h.res {
            Err(er) => rfail(er, h.ops),
            Ok(x) => {
                proof {
                    lemma_ssize_pos(ss[0]);
                }
                prepend(seq![x], r_stmts(h.ops, ss.subrange(1, ss.len() as int)))
            },
        }
    }
}

/// The branches of a conditional regrouped in order: of each, its block and then its condition.
pub open spec fn r_branches(ops: OpTable, bs: Seq<(SpecLExpr, Seq<SpecLStmt>)>) -> RRes<Seq<(SpecLExpr, Seq<SpecLStmt>)>>
    decreases bsizes(bs), 2int,
{
    if bs.len() == 0 {
        rok(Seq::empty(), ops)
    } else {
        proof {
            lemma_esize_pos(bs[0].0);
        }
        let b = r_stmts(ops, bs[0].1);
        match b.res {
            Err(er) => rfail(er, b.ops),
            Ok(block) => {
                let c = r_expr(b.ops, bs[0].0);
                match c.res {
                    Err(er) => rfail(er, c.ops),
                    Ok(cond) => prepend(seq![(cond, block)], r_branches(c.ops, bs.subrange(1, bs.len() as int))),
                }
            },
        }
    }
}

/// A statement regrouped. An operator declaration enters the table before its body is walked.
pub open spec fn r_stmt(ops: OpTable, s: SpecLStmt) -> RRes<SpecLStmt>
    decreases ssize(s), 1int,
{
    let loc = s.loc;
    match s.val {
        SpecStmt::Expr(x) => {
            let a = r_expr(ops, x);
            match a.res {
                Err(er) => rfail(er, a.ops),
                Ok(y) => rok(Located { val: SpecStmt::Expr(y), loc }, a.ops),
            }
        },
        SpecStmt::VarDecl(id, x) => {
            let a = r_expr(ops, x);
            match a.res {
                Err(er) => rfail(er, a.ops),
                Ok(y) => rok(Located { val: SpecStmt::VarDecl(id, y), loc }, a.ops),
            }
        },
        SpecStmt::Assign(id, x) => {
            let a = r_expr(ops, x);
            match a.res {
                Err(er) => rfail(er, a.ops),
                Ok(y) => rok(Located { val: SpecStmt::Assign(id, y), loc }, a.ops),
            }
        },
        SpecStmt::AssignIndex(x, i, v) => {
            let a = r_expr(ops, x);
            match a.res {
                Err(er) => rfail(er, a.ops),
                Ok(x2) => {
                    let b = r_expr(a.ops, i);
                    match b.res {
                        Err(er) => rfail(er, b.ops),
                        Ok(i2) => {
                            let c = r_expr(b.ops, v);
                            match c.res {
                                Err(er) => rfail(er, c.ops),
                                Ok(v2) => rok(Located { val: SpecStmt::AssignIndex(x2, i2, v2), loc }, c.ops),
                            }
                        },
                    }
                },
            }
        },
        SpecStmt::Block(b) => {
            let a = r_stmts(ops, b);
            match a.res {
                Err(er) => rfail(er, a.ops),
                Ok(b2) => rok(Located { val: SpecStmt::Block(b2), loc }, a.ops),
            }
        },
        SpecStmt::If(bs, els) => {
            let a = r_branches(ops, bs);
            match a.res {
                Err(er) => rfail(er, a.ops),
                Ok(bs2) => match els {
                    None => rok(Located { val: SpecStmt::If(bs2, None), loc }, a.ops),
                    Some(eb) => {
                        let b = r_stmts(a.ops, eb);
                        match b.res {
                            Err(er) => rfail(er, b.ops),
                            Ok(eb2) => rok(Located { val: SpecStmt::If(bs2, Some(eb2)), loc }, b.ops),
                        }
                    },
                },
            }
        },
        SpecStmt::While(c, b) => {
            let a = r_expr(ops, c);
            match a.res {
                Err(er) => rfail(er, a.ops),
                Ok(c2) => {
                    let bb = r_stmts(a.ops, b);
                    match bb.res {
                        Err(er) => rfail(er, bb.ops),
                        Ok(b2) => rok(Located { val: SpecStmt::While(c2, b2), loc }, bb.ops),
                    }
                },
            }
        },
        SpecStmt::FunDecl(name, ps, b) => {
            let a = r_stmts(ops, b);
            match a.res {
                Err(er) => rfail(er, a.ops),
                Ok(b2) => rok(Located { val: SpecStmt::FunDecl(name, ps, b2), loc }, a.ops),
            }
        },
        SpecStmt::OperatorDecl(name, ps, b, p) => {
            let a = r_stmts(scope_put(ops, name.val, p), b);
            match a.res {
                Err(er) => rfail(er, a.ops),
                Ok(b2) => rok(Located { val: SpecStmt::OperatorDecl(name, ps, b2, p), loc }, a.ops),
            }
        },
        SpecStmt::Return(x) => {
            let a = r_expr(ops, x);
            match a.res {
                Err(er) => rfail(er, a.ops),
                Ok(y) => rok(Located { val: SpecStmt::Return(y), loc }, a.ops),
            }
        },
        SpecStmt::Break => rok(Located { val: SpecStmt::Break, loc }, ops),
        SpecStmt::AssignStruct(x, name, v) => {
            let a = r_expr(ops, x);
            match a.res {
                Err(er) => rfail(er, a.ops),
                Ok(x2) => {
                    let b = r_expr(a.ops, v);
                    match b.res {
                        Err(er) => rfail(er, b.ops),
                        Ok(v2) => rok(Located { val: SpecStmt::AssignStruct(x2, name, v2), loc }, b.ops),
                    }
                },
            }
        },
        SpecStmt::Impl(name, b) => {
            let a = r_stmts(ops, b);
            match a.res {
                Err(er) => rfail(er, a.ops),
                Ok(b2) => rok(Located { val: SpecStmt::Impl(name, b2), loc }, a.ops),
            }
        },
        _ => rok(s, ops),
    }
}


/// Regrouping keeps the size of an expression: it only moves its parts.
pub proof fn law_regrouping_keeps_size(ops: OpTable, e: SpecLExpr)
    ensures
        r_expr(ops, e).res matches Ok(y) ==> esize(y) == esize(e),
    decreases esize(e), 1int,
{
    match e.val {
        SpecExpr::Parens(x) => {
            law_regrouping_keeps_size(ops, *x);
        },
        SpecExpr::Call(c, args) => {
            lemma_exprs_size(ops, args);
            let a = r_exprs(ops, args);
            law_regrouping_keeps_size(a.ops, *c);
        },
        SpecExpr::UnaryOperation(_, x) => {
            law_regrouping_keeps_size(ops, *x);
        },
        SpecExpr::BinaryOperation(l, op, r) => {
            lemma_binary_size(ops, *l, op, *r);
        },
        SpecExpr::List(xs) => {
            lemma_exprs_size(ops, xs);
        },
        SpecExpr::Index(x, i) => {
            law_regrouping_keeps_size(ops, *x);
            let a = r_expr(ops, *x);
            law_regrouping_keeps_size(a.ops, *i);
        },
        SpecExpr::Lambda(_, body) => {
            lemma_stmts_size(ops, body);
        },
        SpecExpr::FieldAccess(x, _) => {
            law_regrouping_keeps_size(ops, *x);
        },
        SpecExpr::MethodAccess(x, _, args) => {
            law_regrouping_keeps_size(ops, *x);
            let a = r_expr(ops, *x);
            lemma_exprs_size(a.ops, args);
        },
        _ => {},
    }
}

pub proof fn lemma_binary_size(ops: OpTable, l: SpecLExpr, op: Located<Seq<char>>, r: SpecLExpr)
    ensures
        r_binary(ops, l, op, r).res matches Ok(y) ==> esize(y) == esize(l) + esize(r) + 1,
        r_binary(ops, l, op, r).res is Ok ==> ({
            let l1 = r_expr(ops, l).res->Ok_0;
            let r1 = r_expr(r_expr(ops, l).ops, r).res->Ok_0;
            &&& r_expr(ops, l).res is Ok
            &&& r_expr(r_expr(ops, l).ops, r).res is Ok
            &&& esize(l1) == esize(l)
            &&& esize(r1) == esize(r)
        }),
    decreases esize(l) + esize(r) + 1, 0int,
{
    let a = r_expr(ops, l);
    law_regrouping_keeps_size(ops, l);
    if let Ok(l1) = a.res {
        let b = r_expr(a.ops, r);
        law_regrouping_keeps_size(a.ops, r);
        if let Ok(r1) = b.res {
            match r1.val {
                SpecExpr::BinaryOperation(l2, op2, r2) => {
                    assert(esize(r1) == 1 + esize(*l2) + esize(*r2));
                    if let (Some(p1), Some(p2)) = (scope_get(b.ops, op.val), scope_get(b.ops, op2.val)) {
                        if rotates(p1, p2) {
                            lemma_binary_size(b.ops, l1, op, *l2);
                        }
                    }
                },
                _ => {},
            }
        }
    }
}

pub proof fn lemma_exprs_size(ops: OpTable, es: Seq<SpecLExpr>)
    ensures
        r_exprs(ops, es).res matches Ok(ys) ==> esizes(ys) == esizes(es),
    decreases esizes(es), 2int,
{
    if es.len() > 0 {
        lemma_esize_pos(es[0]);
        law_regrouping_keeps_size(ops, es[0]);
        let h = r_expr(ops, es[0]);
        if let Ok(x) = h.res {
            let rest = es.subrange(1, es.len() as int);
            lemma_exprs_size(h.ops, rest);
            if let Ok(xs) = r_exprs(h.ops, rest).res {
                assert((seq![x] + xs).subrange(1, (xs.len() + 1) as int) =~= xs);
                assert((seq![x] + xs)[0] == x);
            }
        }
    }
}

pub proof fn lemma_stmts_size(ops: OpTable, ss: Seq<SpecLStmt>)
    ensures
        r_stmts(ops, ss).res matches Ok(ys) ==> ssizes(ys) == ssizes(ss),
    decreases ssizes(ss), 2int,
{
    if ss.len() > 0 {
        lemma_ssize_pos(ss[0]);
        lemma_stmt_size(ops, ss[0]);
        let h = r_stmt(ops, ss[0]);
        if let Ok(x) = h.res {
            let rest = ss.subrange(1, ss.len() as int);
            lemma_stmts_size(h.ops, rest);
            if let Ok(xs) = r_stmts(h.ops, rest).res {
                assert((seq![x] + xs).subrange(1, (xs.len() + 1) as int) =~= xs);
                assert((seq![x] + xs)[0] == x);
            }
        }
    }
}

pub proof fn lemma_branches_size(ops: OpTable, bs: Seq<(SpecLExpr, Seq<SpecLStmt>)>)
    ensures
        r_branches(ops, bs).res matches Ok(ys) ==> bsizes(ys) == bsizes(bs),
    decreases bsizes(bs), 2int,
{
    if bs.len() > 0 {
        lemma_esize_pos(bs[0].0);
        lemma_stmts_size(ops, bs[0].1);
        let b = r_stmts(ops, bs[0].1);
        if let Ok(block) = b.res {
            law_regrouping_keeps_size(b.ops, bs[0].0);
            let c = r_expr(b.ops, bs[0].0);
            if let Ok(cond) = c.res {
                let rest = bs.subrange(1, bs.len() as int);
                lemma_branches_size(c.ops, rest);
                if let Ok(xs) = r_branches(c.ops, rest).res {
                    assert((seq![(cond, block)] + xs).subrange(1, (xs.len() + 1) as int) =~= xs);
                    assert((seq![(cond, block)] + xs)[0] == (cond, block));
                }
            }
        }
    }
}

pub proof fn lemma_stmt_size(ops: OpTable, s: SpecLStmt)
    ensures
        r_stmt(ops, s).res matches Ok(y) ==> ssize(y) == ssize(s),
    decreases ssize(s), 1int,
{
    match s.val {
        SpecStmt::Expr(x) => {
            law_regrouping_keeps_size(ops, x);
        },
        SpecStmt::VarDecl(_, x) => {
            law_regrouping_keeps_size(ops, x);
        },
        SpecStmt::Assign(_, x) => {
            law_regrouping_keeps_size(ops, x);
        },
        SpecStmt::AssignIndex(x, i, v) => {
            law_regrouping_keeps_size(ops, x);
            let a = r_expr(ops, x);
            law_regrouping_keeps_size(a.ops, i);
            let b = r_expr(a.ops, i);
            law_regrouping_keeps_size(b.ops, v);
        },
        SpecStmt::Block(b) => {
            lemma_stmts_size(ops, b);
        },
        SpecStmt::If(bs, els) => {
            lemma_branches_size(ops, bs);
            let a = r_branches(ops, bs);
            if let Some(eb) = els {
                lemma_stmts_size(a.ops, eb);
            }
        },
        SpecStmt::While(c, b) => {
            law_regrouping_keeps_size(ops, c);
            let a = r_expr(ops, c);
            lemma_stmts_size(a.ops, b);
        },
        SpecStmt::FunDecl(_, _, b) => {
            lemma_stmts_size(ops, b);
        },
        SpecStmt::OperatorDecl(name, _, b, p) => {
            lemma_stmts_size(scope_put(ops, name.val, p), b);
        },
        SpecStmt::Return(x) => {
            law_regrouping_keeps_size(ops, x);
        },
        SpecStmt::AssignStruct(x, _, v) => {
            law_regrouping_keeps_size(ops, x);
            let a = r_expr(ops, x);
            law_regrouping_keeps_size(a.ops, v);
        },
        SpecStmt::Impl(_, b) => {
            lemma_stmts_size(ops, b);
        },
        _ => {},
    }
}

/// The operators of the chain of binary operations at the top of an expression, left to right.
pub open spec fn chain_ops(e: SpecLExpr) -> Seq<Located<Seq<char>>>
    decreases e,
{
    match e.val {
        SpecExpr::BinaryOperation(l, op, r) => chain_ops(*l) + seq![op] + chain_ops(*r),
        _ => Seq::empty(),
    }
}

/// Regrouping changes only how a chain of binary operations is grouped: its operators stay the
/// same and in the same order.
pub proof fn law_regrouping_keeps_operator_order(ops: OpTable, e: SpecLExpr)
    ensures
        r_expr(ops, e).res matches Ok(y) ==> chain_ops(y) == chain_ops(e),
    decreases esize(e), 1int,
{
    match e.val {
        SpecExpr::BinaryOperation(l, op, r) => {
            lemma_binary_operator_order(ops, *l, op, *r);
        },
        _ => {},
    }
}

/// Regrouping `l op r` keeps the operators of `l`, then `op`, then those of `r`.
pub proof fn lemma_binary_operator_order(ops: OpTable, l: SpecLExpr, op: Located<Seq<char>>, r: SpecLExpr)
    ensures
        r_binary(ops, l, op, r).res matches Ok(y) ==> chain_ops(y) == chain_ops(l) + seq![op] + chain_ops(r),
    decreases esize(l) + esize(r) + 1, 0int,
{
    let a = r_expr(ops, l);
    law_regrouping_keeps_operator_order(ops, l);
    law_regrouping_keeps_size(ops, l);
    if let Ok(l1) = a.res {
        let b = r_expr(a.ops, r);
        law_regrouping_keeps_operator_order(a.ops, r);
        law_regrouping_keeps_size(a.ops, r);
        if let Ok(r1) = b.res {
            let kept = Located {
                val: SpecExpr::BinaryOperation(Box::new(l1), op, Box::new(r1)),
                loc: Location { start: l1.loc.start, end: r1.loc.end },
            };
            assert(chain_ops(kept) == chain_ops(l1) + seq![op] + chain_ops(r1));
            match r1.val {
                SpecExpr::BinaryOperation(l2, op2, r2) => {
                    assert(esize(r1) == 1 + esize(*l2) + esize(*r2));
                    if let (Some(p1), Some(p2)) = (scope_get(b.ops, op.val), scope_get(b.ops, op2.val)) {
                        if rotates(p1, p2) {
                            if esize(l1) + esize(*l2) < esize(l) + esize(r) {
                                lemma_binary_operator_order(b.ops, l1, op, *l2);
                                let c = r_binary(b.ops, l1, op, *l2);
                                if let Ok(nl) = c.res {
                                    let y = Located { val: SpecExpr::BinaryOperation(Box::new(nl), op2, r2), loc: r2.loc };
                                    assert(r_binary(ops, l, op, r).res == Ok::<SpecLExpr, SpecError>(y));
                                    assert(chain_ops(y) == chain_ops(nl) + seq![op2] + chain_ops(*r2));
                                    assert(chain_ops(r1) == chain_ops(*l2) + seq![op2] + chain_ops(*r2));
                                    assert(chain_ops(y) =~= chain_ops(l1) + seq![op] + chain_ops(r1));
                                }
                            }
                        } else if stays(p1, p2) {
                            assert(r_binary(ops, l, op, r).res == Ok::<SpecLExpr, SpecError>(kept));
                        }
                    }
                },
                _ => {
                    if scope_get(b.ops, op.val) is Some {
                        assert(r_binary(ops, l, op, r).res == Ok::<SpecLExpr, SpecError>(kept));
                    }
                },
            }
        }
    }
}

// ---------------------------------------------------------------------------
// Lemmas on sizes and outcomes
// ---------------------------------------------------------------------------

pub proof fn lemma_esizes_push(s: Seq<SpecLExpr>, x: SpecLExpr)
    ensures
        esizes(s.push(x)) == esizes(s) + esize(x),
    decreases s.len(),
{
    if s.len() == 0 {
        assert(s.push(x).subrange(1, 1) =~= Seq::<SpecLExpr>::empty());
        assert(esizes(Seq::<SpecLExpr>::empty()) == 0);
        assert(s.push(x)[0] == x);
    } else {
        assert(s.push(x).subrange(1, (s.len() + 1) as int) =~= s.subrange(1, s.len() as int).push(x));
        assert(s.push(x)[0] == s[0]);
        lemma_esizes_push(s.subrange(1, s.len() as int), x);
    }
}

pub proof fn lemma_ssizes_push(s: Seq<SpecLStmt>, x: SpecLStmt)
    ensures
        ssizes(s.push(x)) == ssizes(s) + ssize(x),
    decreases s.len(),
{
    if s.len() == 0 {
        assert(s.push(x).subrange(1, 1) =~= Seq::<SpecLStmt>::empty());
        assert(ssizes(Seq::<SpecLStmt>::empty()) == 0);
        assert(s.push(x)[0] == x);
    } else {
        assert(s.push(x).subrange(1, (s.len() + 1) as int) =~= s.subrange(1, s.len() as int).push(x));
        assert(s.push(x)[0] == s[0]);
        lemma_ssizes_push(s.subrange(1, s.len() as int), x);
    }
}

pub proof fn lemma_bsizes_push(s: Seq<(SpecLExpr, Seq<SpecLStmt>)>, x: (SpecLExpr, Seq<SpecLStmt>))
    ensures
        bsizes(s.push(x)) == bsizes(s) + esize(x.0) + ssizes(x.1),
    decreases s.len(),
{
    if s.len() == 0 {
        assert(s.push(x).subrange(1, 1) =~= Seq::<(SpecLExpr, Seq<SpecLStmt>)>::empty());
        assert(bsizes(Seq::<(SpecLExpr, Seq<SpecLStmt>)>::empty()) == 0);
        assert(s.push(x)[0] == x);
    } else {
        assert(s.push(x).subrange(1, (s.len() + 1) as int) =~= s.subrange(1, s.len() as int).push(x));
        assert(s.push(x)[0] == s[0]);
        lemma_bsizes_push(s.subrange(1, s.len() as int), x);
    }
}

pub proof fn lemma_prepend<V>(done: Seq<V>, x: V, r: RRes<Seq<V>>)
    ensures
        prepend(done, prepend(seq![x], r)) == prepend(done.push(x), r),
{
    match r.res {
        Ok(v) => {
            assert(done + (seq![x] + v) =~= done.push(x) + v);
        },
        Err(_) => {},
    }
}

pub open spec fn rv_exprs(r: Result<Vec<LExpr>, Error>) -> Result<Seq<SpecLExpr>, SpecError> {
    match r {
        Ok(v) => Ok(lexprs_view(v@)),
        Err(e) => Err(e@),
    }
}

pub open spec fn rv_stmts(r: Result<Vec<LStmt>, Error>) -> Result<Seq<SpecLStmt>, SpecError> {
    match r {
        Ok(v) => Ok(lstmts_view(v@)),
        Err(e) => Err(e@),
    }
}

pub open spec fn rv_branches(r: Result<Vec<(LExpr, Vec<LStmt>)>, Error>) -> Result<Seq<(SpecLExpr, Seq<SpecLStmt>)>, SpecError> {
    match r {
        Ok(v) => Ok(branches_view(v@)),
        Err(e) => Err(e@),
    }
}

// ---------------------------------------------------------------------------
// Implementation
// ---------------------------------------------------------------------------


/// Regrouping, with the table of the operators known so far.
pub struct Reassociate {
    ops: Vec<(String, Precedence)>,
}

impl Reassociate {
    /// The operator table.
    pub closed spec fn table(&self) -> OpTable {
        entries_view(self.ops@)
    }

    /// Regrouping with the operators `ops`, a later pair for a name replacing an earlier one.
    pub fn new(ops: Vec<(String, Precedence)>) -> (r: Self)
        ensures
            r.table() == crate::environment::scope_from_pairs(entries_view(ops@)),
    {
        Reassociate { ops: crate::environment::bindings_from(ops) }
    }

    /// Regroups the binary operations of one statement.
    pub fn reassociate(&mut self, stmt: LStmt) -> (r: Result<LStmt, Error>)
        ensures
            ({
                let sp = r_stmt(old(self).table(), lstmt_view(stmt));
                final(self).table() == sp.ops && rv_stmt(r) == sp.res
            }),
    {
        self.visit_stmt(stmt)
    }

    /// The precedence of an operator, if it is known.
    fn prec_of(&self, name: &String) -> (r: Option<Precedence>)
        ensures
            r == scope_get(self.table(), name@),
    {
        let p = crate::environment::find_binding(&self.ops, name);
        proof {
            crate::environment::lemma_position(self.table(), name@);
        }
        match p {
            Some(i) => Some(self.ops[i].1),
            None => None,
        }
    }

    fn visit_expr(&mut self, e: LExpr) -> (r: Result<LExpr, Error>)
        ensures
            ({
                let sp = r_expr(old(self).table(), lexpr_view(e));
                final(self).table() == sp.ops && rv_expr(r) == sp.res
            }),
            r matches Ok(y) ==> esize(lexpr_view(y)) == esize(lexpr_view(e)),
        decreases esize(lexpr_view(e)), 1int,
    {
        let loc = e.loc;
        match e.val {
            Expr::Parens(x) => match self.visit_expr(*x) {
                Ok(y) => Ok(Located { val: Expr::Parens(Box::new(y)), loc }),
                Err(er) => Err(er),
            },
            Expr::Call(c, args) => {
                let args2 = match self.visit_exprs(args) {
                    Ok(a) => a,
                    Err(er) => {
                        return Err(er);
                    },
                };
                match self.visit_expr(*c) {
                    Ok(c2) => Ok(Located { val: Expr::Call(Box::new(c2), args2), loc }),
                    Err(er) => Err(er),
                }
            },
            Expr::UnaryOperation(op, x) => match self.visit_expr(*x) {
                Ok(y) => Ok(Located { val: Expr::UnaryOperation(op, Box::new(y)), loc }),
                Err(er) => Err(er),
            },
            Expr::BinaryOperation(l, op, r) => self.visit_binary(*l, op, *r),
            Expr::List(xs) => match self.visit_exprs(xs) {
                Ok(ys) => Ok(Located { val: Expr::List(ys), loc }),
                Err(er) => Err(er),
            },
            Expr::Index(x, i) => {
                let x2 = match self.visit_expr(*x) {
                    Ok(y) => y,
                    Err(er) => {
                        return Err(er);
                    },
                };
                match self.visit_expr(*i) {
                    Ok(i2) => Ok(Located { val: Expr::Index(Box::new(x2), Box::new(i2)), loc }),
                    Err(er) => Err(er),
                }
            },
            Expr::Lambda(ps, body) => match self.visit_stmts(body) {
                Ok(b2) => Ok(Located { val: Expr::Lambda(ps, b2), loc }),
                Err(er) => Err(er),
            },
            Expr::FieldAccess(x, name) => match self.visit_expr(*x) {
                Ok(y) => Ok(Located { val: Expr::FieldAccess(Box::new(y), name), loc }),
                Err(er) => Err(er),
            },
            Expr::MethodAccess(x, name, args) => {
                let x2 = match self.visit_expr(*x) {
                    Ok(y) => y,
                    Err(er) => {
                        return Err(er);
                    },
                };
                match self.visit_exprs(args) {
                    Ok(args2) => Ok(Located { val: Expr::MethodAccess(Box::new(x2), name, args2), loc }),
                    Err(er) => Err(er),
                }
            },
            other => Ok(Located { val: other, loc }),
        }
    }

    /// `l op r` regrouped.
    fn visit_binary(&mut self, l: LExpr, op: Symbol, r: LExpr) -> (res: Result<LExpr, Error>)
        ensures
            ({
                let sp = r_binary(old(self).table(), lexpr_view(l), op@, lexpr_view(r));
                final(self).table() == sp.ops && rv_expr(res) == sp.res
            }),
            res matches Ok(y) ==> esize(lexpr_view(y)) == esize(lexpr_view(l)) + esize(lexpr_view(r)) + 1,
        decreases esize(lexpr_view(l)) + esize(lexpr_view(r)) + 1, 0int,
    {
        let l1 = match self.visit_expr(l) {
            Ok(x) => x,
            Err(er) => {
                return Err(er);
            },
        };
        let r1 = match self.visit_expr(r) {
            Ok(x) => x,
            Err(er) => {
                return Err(er);
            },
        };
        let r1loc = r1.loc;
        let start = l1.loc.start;
        let ghost vr1 = lexpr_view(r1);
        let p1 = match self.prec_of(&op.val) {
            Some(p) => p,
            None => {
                return Err(error_on(ErrorType::OperatorNotFound(op.val), op.loc));
            },
        };
        match r1.val {
            Expr::BinaryOperation(l2, op2, r2) => {
                assert(vr1.val == SpecExpr::BinaryOperation(Box::new(lexpr_view(*l2)), op2@, Box::new(lexpr_view(*r2))));
                assert(esize(vr1) == 1 + esize(lexpr_view(*l2)) + esize(lexpr_view(*r2)));
                let p2 = match self.prec_of(&op2.val) {
                    Some(p) => p,
                    None => {
                        return Err(error_on(ErrorType::OperatorNotFound(op2.val), op2.loc));
                    },
                };
                let left1 = matches!(p1.assoc, Associativity::Left);
                let left2 = matches!(p2.assoc, Associativity::Left);
                if p1.prec > p2.prec || (p1.prec == p2.prec && left1 && left2) {
                    // `l op (b op2 c)` becomes `(l op b) op2 c`
                    let r2loc = r2.loc;
                    match self.visit_binary(l1, op, *l2) {
                        Ok(nl) => Ok(Located { val: Expr::BinaryOperation(Box::new(nl), op2, r2), loc: r2loc }),
                        Err(er) => Err(er),
                    }
                } else if p1.prec < p2.prec || (p1.prec == p2.prec && !left1 && !left2) {
                    let right = Located { val: Expr::BinaryOperation(l2, op2, r2), loc: r1loc };
                    assert(lexpr_view(right) == vr1);
                    Ok(Located {
                        val: Expr::BinaryOperation(Box::new(l1), op, Box::new(right)),
                        loc: Location { start, end: r1loc.end },
                    })
                } else {
                    let mut lines: Vec<Location> = Vec::new();
                    lines.push(op.loc);
                    lines.push(op2.loc);
                    let e = Error { msg: ErrorType::IncompatiblePrecedence(op.val, p1, op2.val, p2), lines };
                    assert(e@.lines =~= seq![op.loc, op2.loc]);
                    Err(e)
                }
            },
            other => {
                let right = Located { val: other, loc: r1loc };
                assert(lexpr_view(right) == vr1);
                Ok(Located {
                    val: Expr::BinaryOperation(Box::new(l1), op, Box::new(right)),
                    loc: Location { start, end: r1loc.end },
                })
            },
        }
    }

    fn visit_exprs(&mut self, es: Vec<LExpr>) -> (r: Result<Vec<LExpr>, Error>)
        ensures
            ({
                let sp = r_exprs(old(self).table(), lexprs_view(es@));
                final(self).table() == sp.ops && rv_exprs(r) == sp.res
            }),
            r matches Ok(ys) ==> esizes(lexprs_view(ys@)) == esizes(lexprs_view(es@)),
        decreases esizes(lexprs_view(es@)), 2int,
    {
        let ghost s0 = lexprs_view(es@);
        let ghost t0 = self.table();
        let mut rest = es;
        let mut out: Vec<LExpr> = Vec::new();
        assert(lexprs_view(out@) =~= Seq::<SpecLExpr>::empty());
        assert(lexprs_view(out@) + s0 =~= s0);
        while rest.len() > 0
            invariant
                s0 == lexprs_view(es@),
                t0 == old(self).table(),
                r_exprs(t0, s0) == prepend(lexprs_view(out@), r_exprs(self.table(), lexprs_view(rest@))),
                esizes(lexprs_view(out@)) + esizes(lexprs_view(rest@)) == esizes(s0),
            decreases rest@.len(),
        {
            let ghost rs = rest@;
            let ghost rv = lexprs_view(rs);
            let x = rest.remove(0);
            assert(rest@ =~= rs.subrange(1, rs.len() as int));
            assert(lexprs_view(rest@) =~= rv.subrange(1, rv.len() as int));
            assert(rv[0] == lexpr_view(x));
            assert(esizes(rv) == esize(rv[0]) + esizes(rv.subrange(1, rv.len() as int)));
            let ghost pre = lexprs_view(out@);
            match self.visit_expr(x) {
                Ok(y) => {
                    out.push(y);
                    assert(lexprs_view(out@) =~= pre.push(lexpr_view(y)));
                    proof {
                        lemma_esizes_push(pre, lexpr_view(y));
                        lemma_prepend(pre, lexpr_view(y), r_exprs(self.table(), lexprs_view(rest@)));
                    }
                },
                Err(er) => {
                    return Err(er);
                },
            }
        }
        assert(lexprs_view(out@) + Seq::<SpecLExpr>::empty() =~= lexprs_view(out@));
        assert(lexprs_view(rest@) =~= Seq::<SpecLExpr>::empty());
        Ok(out)
    }

    fn visit_stmts(&mut self, ss: Vec<LStmt>) -> (r: Result<Vec<LStmt>, Error>)
        ensures
            ({
                let sp = r_stmts(old(self).table(), lstmts_view(ss@));
                final(self).table() == sp.ops && rv_stmts(r) == sp.res
            }),
            r matches Ok(ys) ==> ssizes(lstmts_view(ys@)) == ssizes(lstmts_view(ss@)),
        decreases ssizes(lstmts_view(ss@)), 2int,
    {
        let ghost s0 = lstmts_view(ss@);
        let ghost t0 = self.table();
        let mut rest = ss;
        let mut out: Vec<LStmt> = Vec::new();
        assert(lstmts_view(out@) =~= Seq::<SpecLStmt>::empty());
        assert(lstmts_view(out@) + s0 =~= s0);
        while rest.len() > 0
            invariant
                s0 == lstmts_view(ss@),
                t0 == old(self).table(),
                r_stmts(t0, s0) == prepend(lstmts_view(out@), r_stmts(self.table(), lstmts_view(rest@))),
                ssizes(lstmts_view(out@)) + ssizes(lstmts_view(rest@)) == ssizes(s0),
            decreases rest@.len(),
        {
            let ghost rs = rest@;
            let ghost rv = lstmts_view(rs);
            let x = rest.remove(0);
            assert(rest@ =~= rs.subrange(1, rs.len() as int));
            assert(lstmts_view(rest@) =~= rv.subrange(1, rv.len() as int));
            assert(rv[0] == lstmt_view(x));
            assert(ssizes(rv) == ssize(rv[0]) + ssizes(rv.subrange(1, rv.len() as int)));
            let ghost pre = lstmts_view(out@);
            match self.visit_stmt(x) {
                Ok(y) => {
                    out.push(y);
                    assert(lstmts_view(out@) =~= pre.push(lstmt_view(y)));
                    proof {
                        lemma_ssizes_push(pre, lstmt_view(y));
                        lemma_prepend(pre, lstmt_view(y), r_stmts(self.table(), lstmts_view(rest@)));
                    }
                },
                Err(er) => {
                    return Err(er);
                },
            }
        }
        assert(lstmts_view(out@) + Seq::<SpecLStmt>::empty() =~= lstmts_view(out@));
        assert(lstmts_view(rest@) =~= Seq::<SpecLStmt>::empty());
        Ok(out)
    }

    fn visit_branches(&mut self, bs: Vec<(LExpr, Vec<LStmt>)>) -> (r: Result<Vec<(LExpr, Vec<LStmt>)>, Error>)
        ensures
            ({
                let sp = r_branches(old(self).table(), branches_view(bs@));
                final(self).table() == sp.ops && rv_branches(r) == sp.res
            }),
            r matches Ok(ys) ==> bsizes(branches_view(ys@)) == bsizes(branches_view(bs@)),
        decreases bsizes(branches_view(bs@)), 2int,
    {
        let ghost s0 = branches_view(bs@);
        let ghost t0 = self.table();
        let mut rest = bs;
        let mut out: Vec<(LExpr, Vec<LStmt>)> = Vec::new();
        assert(branches_view(out@) =~= Seq::<(SpecLExpr, Seq<SpecLStmt>)>::empty());
        assert(branches_view(out@) + s0 =~= s0);
        while rest.len() > 0
            invariant
                s0 == branches_view(bs@),
                t0 == old(self).table(),
                r_branches(t0, s0) == prepend(branches_view(out@), r_branches(self.table(), branches_view(rest@))),
                bsizes(branches_view(out@)) + bsizes(branches_view(rest@)) == bsizes(s0),
            decreases rest@.len(),
        {
            let ghost rs = rest@;
            let ghost rv = branches_view(rs);
            let (c, b) = rest.remove(0);
            assert(rest@ =~= rs.subrange(1, rs.len() as int));
            assert(branches_view(rest@) =~= rv.subrange(1, rv.len() as int));
            assert(rv[0] == (lexpr_view(c), lstmts_view(b@)));
            assert(bsizes(rv) == esize(rv[0].0) + ssizes(rv[0].1) + bsizes(rv.subrange(1, rv.len() as int)));
            proof {
                lemma_esize_pos(rv[0].0);
            }
            let ghost pre = branches_view(out@);
            let b2 = match self.visit_stmts(b) {
                Ok(y) => y,
                Err(er) => {
                    return Err(er);
                },
            };
            match self.visit_expr(c) {
                Ok(c2) => {
                    let ghost item = (lexpr_view(c2), lstmts_view(b2@));
                    out.push((c2, b2));
                    assert(branches_view(out@) =~= pre.push(item));
                    proof {
                        lemma_bsizes_push(pre, item);
                        lemma_prepend(pre, item, r_branches(self.table(), branches_view(rest@)));
                    }
                },
                Err(er) => {
                    return Err(er);
                },
            }
        }
        assert(branches_view(out@) + Seq::<(SpecLExpr, Seq<SpecLStmt>)>::empty() =~= branches_view(out@));
        assert(branches_view(rest@) =~= Seq::<(SpecLExpr, Seq<SpecLStmt>)>::empty());
        Ok(out)
    }

    fn visit_stmt(&mut self, s: LStmt) -> (r: Result<LStmt, Error>)
        ensures
            ({
                let sp = r_stmt(old(self).table(), lstmt_view(s));
                final(self).table() == sp.ops && rv_stmt(r) == sp.res
            }),
            r matches Ok(y) ==> ssize(lstmt_view(y)) == ssize(lstmt_view(s)),
        decreases ssize(lstmt_view(s)), 1int,
    {
        let loc = s.loc;
        match s.val {
            Stmt::Expr(x) => match self.visit_expr(x) {
                Ok(y) => Ok(Located { val: Stmt::Expr(y), loc }),
                Err(er) => Err(er),
            },
            Stmt::VarDecl(id, x) => match self.visit_expr(x) {
                Ok(y) => Ok(Located { val: Stmt::VarDecl(id, y), loc }),
                Err(er) => Err(er),
            },
            Stmt::Assign(id, x) => match self.visit_expr(x) {
                Ok(y) => Ok(Located { val: Stmt::Assign(id, y), loc }),
                Err(er) => Err(er),
            },
            Stmt::AssignIndex(x, i, v) => {
                let x2 = match self.visit_expr(x) {
                    Ok(y) => y,
                    Err(er) => {
                        return Err(er);
                    },
                };
                let i2 = match self.visit_expr(i) {
                    Ok(y) => y,
                    Err(er) => {
                        return Err(er);
                    },
                };
                match self.visit_expr(v) {
                    Ok(v2) => Ok(Located { val: Stmt::AssignIndex(x2, i2, v2), loc }),
                    Err(er) => Err(er),
                }
            },
            Stmt::Block(b) => match self.visit_stmts(b) {
                Ok(b2) => Ok(Located { val: Stmt::Block(b2), loc }),
                Err(er) => Err(er),
            },
            Stmt::If(bs, els) => {
                let bs2 = match self.visit_branches(bs) {
                    Ok(y) => y,
                    Err(er) => {
                        return Err(er);
                    },
                };
                match els {
                    None => Ok(Located { val: Stmt::If(bs2, None), loc }),
                    Some(eb) => match self.visit_stmts(eb) {
                        Ok(eb2) => Ok(Located { val: Stmt::If(bs2, Some(eb2)), loc }),
                        Err(er) => Err(er),
                    },
                }
            },
            Stmt::While(c, b) => {
                let c2 = match self.visit_expr(c) {
                    Ok(y) => y,
                    Err(er) => {
                        return Err(er);
                    },
                };
                match self.visit_stmts(b) {
                    Ok(b2) => Ok(Located { val: Stmt::While(c2, b2), loc }),
                    Err(er) => Err(er),
                }
            },
            Stmt::FunDecl(name, ps, b) => match self.visit_stmts(b) {
                Ok(b2) => Ok(Located { val: Stmt::FunDecl(name, ps, b2), loc }),
                Err(er) => Err(er),
            },
            Stmt::OperatorDecl(name, ps, b, p) => {
                crate::environment::put_binding(&mut self.ops, name.val.clone(), p);
                match self.visit_stmts(b) {
                    Ok(b2) => Ok(Located { val: Stmt::OperatorDecl(name, ps, b2, p), loc }),
                    Err(er) => Err(er),
                }
            },
            Stmt::Return(x) => match self.visit_expr(x) {
                Ok(y) => Ok(Located { val: Stmt::Return(y), loc }),
                Err(er) => Err(er),
            },
            Stmt::Break => Ok(Located { val: Stmt::Break, loc }),
            Stmt::AssignStruct(x, name, v) => {
                let x2 = match self.visit_expr(x) {
                    Ok(y) => y,
                    Err(er) => {
                        return Err(er);
                    },
                };
                match self.visit_expr(v) {
                    Ok(v2) => Ok(Located { val: Stmt::AssignStruct(x2, name, v2), loc }),
                    Err(er) => Err(er),
                }
            },
            Stmt::Impl(name, b) => match self.visit_stmts(b) {
                Ok(b2) => Ok(Located { val: Stmt::Impl(name, b2), loc }),
                Err(er) => Err(er),
            },
            other => Ok(Located { val: other, loc }),
        }
    }
}

/// Regroups the binary operations of a program by the precedence and associativity of its
/// operators: those of `ops` (a later pair for a name replacing an earlier one) and those the
/// program declares, each known from its declaration on. Gives the first error met.
pub fn reassociate(ops: Vec<(String, Precedence)>, stmts: Vec<LStmt>) -> (r: Result<Vec<LStmt>, Error>)
    ensures
        rv_stmts(r) == r_stmts(crate::environment::scope_from_pairs(entries_view(ops@)), lstmts_view(stmts@)).res,
{
    let mut re = Reassociate::new(ops);
    re.visit_stmts(stmts)
}

} // verus!
