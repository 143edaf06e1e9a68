use crate::environment::{scope_get, scope_put};
use crate::exprstmt::{SpecExpr, SpecLExpr, SpecLStmt, SpecStmt};
use crate::frontend::parser::{
    expect, lift, msg_bracket, p_expression, p_ident, p_lambda, p_primary, p_sep_exprs, p_suffix, p_suffix_loop, p_unary, rem, span,
};
use crate::frontend::token::{SpecToken, SpecTokenType};
use crate::error::SpecError;
use crate::frontend::reassoc::{
    bsizes, esize, esizes, lemma_esize_pos, lemma_ssize_pos, law_regrouping_keeps_size, r_binary, r_branches, r_expr, r_exprs,
    r_stmt, r_stmts, rotates, ssize, ssizes, stays, OpTable,
};
use crate::located::Located;
use vstd::prelude::*;

verus! {

// ---------------------------------------------------------------------------
// What regrouping achieves: binary operations grouped by precedence
// ---------------------------------------------------------------------------

/// The operator of an expression that is a binary operation.
pub open spec fn top_op(e: SpecLExpr) -> Option<Seq<char>> {
    match e.val {
        SpecExpr::BinaryOperation(_, op, _) => Some(op.val),
        _ => None,
    }
}

/// Whether `x`, the left operand of `op`, may stand there ungrouped: it is no binary operation,
/// or its operator binds tighter than `op`, or as tight with both grouping to the left.
pub open spec fn left_fits(ops: OpTable, x: SpecLExpr, op: Seq<char>) -> bool {
    match top_op(x) {
        None => true,
        Some(o) => match (scope_get(ops, o), scope_get(ops, op)) {
            (Some(px), Some(p)) => rotates(px, p),
            _ => false,
        },
    }
}

/// Whether `x`, the right operand of `op`, may stand there ungrouped: it is no binary operation,
/// or its operator binds tighter than `op`, or as tight with both grouping to the right.
pub open spec fn right_fits(ops: OpTable, op: Seq<char>, x: SpecLExpr) -> bool {
    match top_op(x) {
        None => true,
        Some(o) => match (scope_get(ops, op), scope_get(ops, o)) {
            (Some(p), Some(px)) => stays(p, px),
            _ => false,
        },
    }
}

/// Whether the binary operations at the top of an expression are grouped as the precedences and
/// associativities of `ops` ask.
pub open spec fn grouped(ops: OpTable, e: SpecLExpr) -> bool
    decreases e,
{
    match e.val {
        SpecExpr::BinaryOperation(l, op, r) => left_fits(ops, *l, op.val) && right_fits(ops, op.val, *r) && grouped(
            ops,
            *l,
        ) && grouped(ops, *r),
        _ => true,
    }
}

/// Whether an expression is a chain of binary operations as the parser reads it: the left
/// operand of each is no binary operation (unless in parentheses).
pub open spec fn right_nested(e: SpecLExpr) -> bool
    decreases e,
{
    match e.val {
        SpecExpr::BinaryOperation(l, _, r) => top_op(*l) is None && right_nested(*r),
        _ => true,
    }
}

/// Whether no operator is declared anywhere in an expression.
pub open spec fn expr_declares_none(e: SpecExpr) -> bool
    decreases e,
{
    match e {
        SpecExpr::Parens(x) => expr_declares_none(x.val),
        SpecExpr::Call(c, args) => expr_declares_none(c.val) && exprs_declare_none(args),
        SpecExpr::UnaryOperation(_, x) => expr_declares_none(x.val),
        SpecExpr::BinaryOperation(l, _, r) => expr_declares_none(l.val) && expr_declares_none(r.val),
        SpecExpr::List(xs) => exprs_declare_none(xs),
        SpecExpr::Index(x, i) => expr_declares_none(x.val) && expr_declares_none(i.val),
        SpecExpr::Lambda(_, body) => stmts_declare_none(body),
        SpecExpr::FieldAccess(x, _) => expr_declares_none(x.val),
        SpecExpr::MethodAccess(x, _, args) => expr_declares_none(x.val) && exprs_declare_none(args),
        _ => true,
    }
}

pub open spec fn exprs_declare_none(es: Seq<SpecLExpr>) -> bool
    decreases es,
{
    es.len() > 0 ==> expr_declares_none(es[0].val) && exprs_declare_none(es.subrange(1, es.len() as int))
}

pub open spec fn stmt_declares_none(s: SpecStmt) -> bool
    decreases s,
{
    match s {
        SpecStmt::Expr(x) => expr_declares_none(x.val),
        SpecStmt::VarDecl(_, x) => expr_declares_none(x.val),
        SpecStmt::Assign(_, x) => expr_declares_none(x.val),
        SpecStmt::AssignIndex(a, b, c) => expr_declares_none(a.val) && expr_declares_none(b.val)
            && expr_declares_none(c.val),
        SpecStmt::Block(b) => stmts_declare_none(b),
        SpecStmt::If(bs, els) => branches_declare_none(bs) && match els {
            Some(b) => stmts_declare_none(b),
            None => true,
        },
        SpecStmt::While(c, b) => expr_declares_none(c.val) && stmts_declare_none(b),
        SpecStmt::FunDecl(_, _, b) => stmts_declare_none(b),
        SpecStmt::OperatorDecl(..) => false,
        SpecStmt::Return(x) => expr_declares_none(x.val),
        SpecStmt::AssignStruct(a, _, b) => expr_declares_none(a.val) && expr_declares_none(b.val),
        SpecStmt::Impl(_, b) => stmts_declare_none(b),
        _ => true,
    }
}

pub open spec fn stmts_declare_none(ss: Seq<SpecLStmt>) -> bool
    decreases ss,
{
    ss.len() > 0 ==> stmt_declares_none(ss[0].val) && stmts_declare_none(ss.subrange(1, ss.len() as int))
}

pub open spec fn branches_declare_none(bs: Seq<(SpecLExpr, Seq<SpecLStmt>)>) -> bool
    decreases bs,
{
    bs.len() > 0 ==> expr_declares_none(bs[0].0.val) && stmts_declare_none(bs[0].1) && branches_declare_none(
        bs.subrange(1, bs.len() as int),
    )
}

// Regrouping what declares no operator leaves the table of operators as it was, and gives what
// declares none either.

pub proof fn lemma_kept_expr(ops: OpTable, e: SpecLExpr)
    requires
        expr_declares_none(e.val),
    ensures
        r_expr(ops, e).ops == ops,
        r_expr(ops, e).res matches Ok(y) ==> expr_declares_none(y.val),
    decreases esize(e), 1int,
{
    match e.val {
        SpecExpr::Parens(x) => lemma_kept_expr(ops, *x),
        SpecExpr::Call(c, args) => {
            lemma_kept_exprs(ops, args);
            lemma_kept_expr(ops, *c);
        },
        SpecExpr::UnaryOperation(_, x) => lemma_kept_expr(ops, *x),
        SpecExpr::BinaryOperation(l, op, r) => lemma_kept_binary(ops, *l, op, *r),
        SpecExpr::List(xs) => lemma_kept_exprs(ops, xs),
        SpecExpr::Index(x, i) => {
            lemma_kept_expr(ops, *x);
            lemma_kept_expr(ops, *i);
        },
        SpecExpr::Lambda(_, body) => lemma_kept_stmts(ops, body),
        SpecExpr::FieldAccess(x, _) => lemma_kept_expr(ops, *x),
        SpecExpr::MethodAccess(x, _, args) => {
            lemma_kept_expr(ops, *x);
            lemma_kept_exprs(ops, args);
        },
        _ => {},
    }
}

pub proof fn lemma_kept_binary(ops: OpTable, l: SpecLExpr, op: Located<Seq<char>>, r: SpecLExpr)
    requires
        expr_declares_none(l.val),
        expr_declares_none(r.val),
    ensures
        r_binary(ops, l, op, r).ops == ops,
        r_binary(ops, l, op, r).res matches Ok(y) ==> expr_declares_none(y.val),
    decreases esize(l) + esize(r) + 1, 0int,
{
    lemma_kept_expr(ops, l);
    law_regrouping_keeps_size(ops, l);
    let a = r_expr(ops, l);
    if let Ok(l1) = a.res {
        lemma_kept_expr(ops, r);
        law_regrouping_keeps_size(ops, r);
        let b = r_expr(ops, r);
        if let Ok(r1) = b.res {
            match r1.val {
                SpecExpr::BinaryOperation(l2, op2, r2) => {
                    assert(esize(r1) == 1 + esize(*l2) + esize(*r2));
                    if let (Some(p1), Some(p2)) = (scope_get(ops, op.val), scope_get(ops, op2.val)) {
                        if rotates(p1, p2) {
                            lemma_kept_binary(ops, l1, op, *l2);
                        }
                    }
                },
                _ => {},
            }
        }
    }
}

pub proof fn lemma_kept_exprs(ops: OpTable, es: Seq<SpecLExpr>)
    requires
        exprs_declare_none(es),
    ensures
        r_exprs(ops, es).ops == ops,
        r_exprs(ops, es).res matches Ok(ys) ==> exprs_declare_none(ys),
    decreases esizes(es), 2int,
{
    if es.len() > 0 {
        lemma_esize_pos(es[0]);
        lemma_kept_expr(ops, es[0]);
        let h = r_expr(ops, es[0]);
        if let Ok(x) = h.res {
            let rest = es.subrange(1, es.len() as int);
            lemma_kept_exprs(ops, rest);
            if let Ok(xs) = r_exprs(ops, rest).res {
                assert((seq![x] + xs).subrange(1, (xs.len() + 1) as int) =~= xs);
                assert((seq![x] + xs)[0] == x);
            }
        }
    }
}

pub proof fn lemma_kept_stmts(ops: OpTable, ss: Seq<SpecLStmt>)
    requires
        stmts_declare_none(ss),
    ensures
        r_stmts(ops, ss).ops == ops,
        r_stmts(ops, ss).res matches Ok(ys) ==> stmts_declare_none(ys),
    decreases ssizes(ss), 2int,
{
    if ss.len() > 0 {
        lemma_ssize_pos(ss[0]);
        lemma_kept_stmt(ops, ss[0]);
        let h = r_stmt(ops, ss[0]);
        if let Ok(x) = h.res {
            let rest = ss.subrange(1, ss.len() as int);
            lemma_kept_stmts(ops, rest);
            if let Ok(xs) = r_stmts(ops, rest).res {
                assert((seq![x] + xs).subrange(1, (xs.len() + 1) as int) =~= xs);
                assert((seq![x] + xs)[0] == x);
            }
        }
    }
}

pub proof fn lemma_kept_branches(ops: OpTable, bs: Seq<(SpecLExpr, Seq<SpecLStmt>)>)
    requires
        branches_declare_none(bs),
    ensures
        r_branches(ops, bs).ops == ops,
        r_branches(ops, bs).res matches Ok(ys) ==> branches_declare_none(ys),
    decreases bsizes(bs), 2int,
{
    if bs.len() > 0 {
        lemma_esize_pos(bs[0].0);
        lemma_kept_stmts(ops, bs[0].1);
        lemma_kept_expr(ops, bs[0].0);
        let b = r_stmts(ops, bs[0].1);
        let c = r_expr(ops, bs[0].0);
        if let (Ok(block), Ok(cond)) = (b.res, c.res) {
            let rest = bs.subrange(1, bs.len() as int);
            lemma_kept_branches(ops, rest);
            if let Ok(xs) = r_branches(ops, rest).res {
                let x = (cond, block);
                assert((seq![x] + xs).subrange(1, (xs.len() + 1) as int) =~= xs);
                assert((seq![x] + xs)[0] == x);
            }
        }
    }
}

pub proof fn lemma_kept_stmt(ops: OpTable, s: SpecLStmt)
    requires
        stmt_declares_none(s.val),
    ensures
        r_stmt(ops, s).ops == ops,
        r_stmt(ops, s).res matches Ok(y) ==> stmt_declares_none(y.val),
    decreases ssize(s), 1int,
{
    match s.val {
        SpecStmt::Expr(x) => lemma_kept_expr(ops, x),
        SpecStmt::VarDecl(_, x) => lemma_kept_expr(ops, x),
        SpecStmt::Assign(_, x) => lemma_kept_expr(ops, x),
        SpecStmt::AssignIndex(a, b, c) => {
            lemma_kept_expr(ops, a);
            lemma_kept_expr(ops, b);
            lemma_kept_expr(ops, c);
        },
        SpecStmt::Block(b) => lemma_kept_stmts(ops, b),
        SpecStmt::If(bs, els) => {
            lemma_kept_branches(ops, bs);
            if let Some(b) = els {
                lemma_kept_stmts(ops, b);
            }
        },
        SpecStmt::While(c, b) => {
            lemma_kept_expr(ops, c);
            lemma_kept_stmts(ops, b);
        },
        SpecStmt::FunDecl(_, _, b) => lemma_kept_stmts(ops, b),
        SpecStmt::Return(x) => lemma_kept_expr(ops, x),
        SpecStmt::AssignStruct(a, _, b) => {
            lemma_kept_expr(ops, a);
            lemma_kept_expr(ops, b);
        },
        SpecStmt::Impl(_, b) => lemma_kept_stmts(ops, b),
        _ => {},
    }
}

// Regrouping what is grouped already changes none of its grouping.

pub proof fn lemma_grouped_stays_grouped(ops: OpTable, e: SpecLExpr)
    requires
        grouped(ops, e),
        expr_declares_none(e.val),
    ensures
        r_expr(ops, e).res matches Ok(y) ==> grouped(ops, y) && top_op(y) == top_op(e),
    decreases esize(e),
{
    match e.val {
        SpecExpr::BinaryOperation(l, op, r) => {
            lemma_kept_expr(ops, *l);
            lemma_grouped_stays_grouped(ops, *l);
            let a = r_expr(ops, *l);
            if let Ok(l1) = a.res {
                lemma_kept_expr(ops, *r);
                lemma_grouped_stays_grouped(ops, *r);
                let b = r_expr(ops, *r);
                if let Ok(r1) = b.res {
                    let kept = Located {
                        val: SpecExpr::BinaryOperation(Box::new(l1), op, Box::new(r1)),
                        loc: crate::located::Location { start: l1.loc.start, end: r1.loc.end },
                    };
                    assert(r_expr(ops, e) == r_binary(ops, *l, op, *r));
                    match r1.val {
                        SpecExpr::BinaryOperation(l2, op2, r2) => {
                            let p1 = scope_get(ops, op.val)->Some_0;
                            let p2 = scope_get(ops, op2.val)->Some_0;
                            assert(stays(p1, p2));
                            assert(!rotates(p1, p2));
                            assert(r_binary(ops, *l, op, *r).res == Ok::<SpecLExpr, crate::error::SpecError>(kept));
                        },
                        _ => {
                            if scope_get(ops, op.val) is Some {
                                assert(r_binary(ops, *l, op, *r).res == Ok::<SpecLExpr, crate::error::SpecError>(kept));
                            }
                        },
                    }
                }
            }
        },
        _ => {},
    }
}

// Regrouping `l op r`, where the regrouped `l` may stand left of `op` and both regrouped
// operands are grouped, gives a grouped operation whose operator is `op` or that of the
// regrouped `r`.

pub proof fn lemma_binary_grouped(ops: OpTable, l: SpecLExpr, op: Located<Seq<char>>, r: SpecLExpr)
    requires
        expr_declares_none(l.val),
        expr_declares_none(r.val),
        r_expr(ops, l).res matches Ok(l1) ==> grouped(ops, l1) && left_fits(ops, l1, op.val),
        r_expr(ops, r).res matches Ok(r1) ==> grouped(ops, r1),
    ensures
        r_binary(ops, l, op, r).res matches Ok(y) ==> grouped(ops, y) && (top_op(y) == Some(op.val)
            || top_op(y) == top_op(r_expr(ops, r).res->Ok_0)),
    decreases esize(l) + esize(r) + 1,
{
    lemma_kept_expr(ops, l);
    law_regrouping_keeps_size(ops, l);
    let a = r_expr(ops, l);
    if let Ok(l1) = a.res {
        lemma_kept_expr(ops, r);
        law_regrouping_keeps_size(ops, r);
        let b = r_expr(ops, r);
        if let Ok(r1) = b.res {
            match r1.val {
                SpecExpr::BinaryOperation(l2, op2, r2) => {
                    assert(esize(r1) == 1 + esize(*l2) + esize(*r2));
                    if let (Some(p1), Some(p2)) = (scope_get(ops, op.val), scope_get(ops, op2.val)) {
                        if rotates(p1, p2) {
                            lemma_kept_expr(ops, l1);
                            lemma_grouped_stays_grouped(ops, l1);
                            lemma_grouped_stays_grouped(ops, *l2);
                            lemma_binary_grouped(ops, l1, op, *l2);
                            let c = r_binary(ops, l1, op, *l2);
                            if let Ok(nl) = c.res {
                                let y = Located { val: SpecExpr::BinaryOperation(Box::new(nl), op2, r2), loc: r2.loc };
                                assert(r_binary(ops, l, op, r).res == Ok::<SpecLExpr, crate::error::SpecError>(y));
                                assert(r_expr(ops, *l2).res is Ok);
                                assert(top_op(r_expr(ops, *l2).res->Ok_0) == top_op(*l2));
                                assert(left_fits(ops, *l2, op2.val));
                                assert(left_fits(ops, nl, op2.val));
                                assert(grouped(ops, y));
                            }
                        }
                    }
                },
                _ => {},
            }
        }
    }
}

/// Regrouping a chain of binary operations as the parser reads it, in which no operator is
/// declared, groups it by precedence and associativity: an operand that is itself a binary
/// operation binds tighter than the operator it belongs to, or as tight, both grouping to the
/// side it stands on.
pub proof fn law_regrouping_groups_by_precedence(ops: OpTable, e: SpecLExpr)
    requires
        right_nested(e),
        expr_declares_none(e.val),
    ensures
        r_expr(ops, e).res matches Ok(y) ==> grouped(ops, y),
    decreases esize(e),
{
    match e.val {
        SpecExpr::BinaryOperation(l, op, r) => {
            lemma_grouped_stays_grouped(ops, *l);
            lemma_kept_expr(ops, *l);
            law_regrouping_groups_by_precedence(ops, *r);
            lemma_binary_grouped(ops, *l, op, *r);
        },
        _ => {
            lemma_grouped_stays_grouped(ops, e);
        },
    }
}

// The parser reads a chain of binary operations right-nested.

pub proof fn lemma_lambda_not_binary(t: Seq<SpecToken>, i: int, errs: Seq<SpecError>, has_params: bool)
    ensures
        p_lambda(t, i, errs, has_params).res matches Ok(x) ==> top_op(x) is None,
{
}

pub proof fn lemma_primary_not_binary(t: Seq<SpecToken>, i: int, errs: Seq<SpecError>)
    ensures
        p_primary(t, i, errs).res matches Ok(x) ==> top_op(x) is None,
{
    lemma_lambda_not_binary(t, i, errs, true);
}

pub proof fn lemma_suffix_loop_not_binary(t: Seq<SpecToken>, j: int, errs: Seq<SpecError>, x: SpecLExpr, start: usize)
    requires
        top_op(x) is None,
    ensures
        p_suffix_loop(t, j, errs, x, start).res matches Ok(y) ==> top_op(y) is None,
    decreases rem(t, j),
{
    if 0 <= j < t.len() {
        match t[j].val {
            SpecTokenType::LParen => {
                let a = p_sep_exprs(t, j, errs, SpecTokenType::LParen, SpecTokenType::RParen);
                if let Ok((args, l)) = a.res {
                    lemma_suffix_loop_not_binary(
                        t,
                        lift(a.idx, j + 1),
                        a.errs,
                        Located { val: SpecExpr::Call(Box::new(x), args), loc: span(start, l.end) },
                        start,
                    );
                }
            },
            SpecTokenType::LBracket => {
                let k = p_expression(t, j + 1, errs);
                if let Ok(index) = k.res {
                    let j2 = lift(k.idx, j + 2);
                    if let (Ok(close), j3) = expect(t, j2, SpecTokenType::RBracket, msg_bracket()) {
                        lemma_suffix_loop_not_binary(
                            t,
                            j3,
                            k.errs,
                            Located {
                                val: SpecExpr::Index(Box::new(x), Box::new(index)),
                                loc: span(start, close.loc.end),
                            },
                            start,
                        );
                    }
                }
            },
            SpecTokenType::Dot => {
                if let (Ok(name), j2) = p_ident(t, j + 1) {
                    if t[j2].val is LParen {
                        let a = p_sep_exprs(t, j2, errs, SpecTokenType::LParen, SpecTokenType::RParen);
                        if let Ok((args, l)) = a.res {
                            lemma_suffix_loop_not_binary(
                                t,
                                lift(a.idx, j2 + 1),
                                a.errs,
                                Located {
                                    val: SpecExpr::MethodAccess(Box::new(x), name, args),
                                    loc: span(start, l.end),
                                },
                                start,
                            );
                        }
                    } else {
                        lemma_suffix_loop_not_binary(
                            t,
                            j2,
                            errs,
                            Located { val: SpecExpr::FieldAccess(Box::new(x), name), loc: span(start, name.loc.end) },
                            start,
                        );
                    }
                }
            },
            _ => {},
        }
    }
}

pub proof fn lemma_unary_not_binary(t: Seq<SpecToken>, i: int, errs: Seq<SpecError>)
    ensures
        p_unary(t, i, errs).res matches Ok(x) ==> top_op(x) is None,
    decreases rem(t, i),
{
    if 0 <= i < t.len() {
        match t[i].val {
            SpecTokenType::Symbol(sym) => {
                lemma_lambda_not_binary(t, i, errs, false);
            },
            _ => {
                lemma_primary_not_binary(t, i, errs);
                let p = p_primary(t, i, errs);
                if let Ok(x) = p.res {
                    lemma_suffix_loop_not_binary(t, lift(p.idx, i + 1), p.errs, x, x.loc.start);
                }
                assert(p_unary(t, i, errs) == p_suffix(t, i, errs));
            },
        }
    }
}

/// The parser reads `a op1 b op2 c` as `a op1 (b op2 c)`: a chain of binary operations comes out
/// with no binary operation as a left operand (unless in parentheses).
pub proof fn law_parser_nests_to_the_right(t: Seq<SpecToken>, i: int, errs: Seq<SpecError>)
    ensures
        p_expression(t, i, errs).res matches Ok(e) ==> right_nested(e),
    decreases rem(t, i),
{
    if 0 <= i < t.len() {
        lemma_unary_not_binary(t, i, errs);
        let l = p_unary(t, i, errs);
        if let Ok(left) = l.res {
            let j = lift(l.idx, i + 1);
            if let SpecTokenType::Symbol(name) = t[j].val {
                law_parser_nests_to_the_right(t, j + 1, l.errs);
            }
        }
    }
}

// ---------------------------------------------------------------------------
// What regrouping leaves alone
// ---------------------------------------------------------------------------

/// Whether no binary operation occurs anywhere in an expression.
pub open spec fn expr_plain(e: SpecExpr) -> bool
    decreases e,
{
    match e {
        SpecExpr::Parens(x) => expr_plain(x.val),
        SpecExpr::Call(c, args) => expr_plain(c.val) && exprs_plain(args),
        SpecExpr::UnaryOperation(_, x) => expr_plain(x.val),
        SpecExpr::BinaryOperation(..) => false,
        SpecExpr::List(xs) => exprs_plain(xs),
        SpecExpr::Index(x, i) => expr_plain(x.val) && expr_plain(i.val),
        SpecExpr::Lambda(_, body) => stmts_plain(body),
        SpecExpr::FieldAccess(x, _) => expr_plain(x.val),
        SpecExpr::MethodAccess(x, _, args) => expr_plain(x.val) && exprs_plain(args),
        _ => true,
    }
}

pub open spec fn exprs_plain(es: Seq<SpecLExpr>) -> bool
    decreases es,
{
    es.len() > 0 ==> expr_plain(es[0].val) && exprs_plain(es.subrange(1, es.len() as int))
}

/// Whether no binary operation occurs anywhere in a statement.
pub open spec fn stmt_plain(s: SpecStmt) -> bool
    decreases s,
{
    match s {
        SpecStmt::Expr(x) => expr_plain(x.val),
        SpecStmt::VarDecl(_, x) => expr_plain(x.val),
        SpecStmt::Assign(_, x) => expr_plain(x.val),
        SpecStmt::AssignIndex(a, b, c) => expr_plain(a.val) && expr_plain(b.val) && expr_plain(c.val),
        SpecStmt::Block(b) => stmts_plain(b),
        SpecStmt::If(bs, els) => branches_plain(bs) && match els {
            Some(b) => stmts_plain(b),
            None => true,
        },
        SpecStmt::While(c, b) => expr_plain(c.val) && stmts_plain(b),
        SpecStmt::FunDecl(_, _, b) => stmts_plain(b),
        SpecStmt::OperatorDecl(_, _, b, _) => stmts_plain(b),
        SpecStmt::Return(x) => expr_plain(x.val),
        SpecStmt::AssignStruct(a, _, b) => expr_plain(a.val) && expr_plain(b.val),
        SpecStmt::Impl(_, b) => stmts_plain(b),
        _ => true,
    }
}

pub open spec fn stmts_plain(ss: Seq<SpecLStmt>) -> bool
    decreases ss,
{
    ss.len() > 0 ==> stmt_plain(ss[0].val) && stmts_plain(ss.subrange(1, ss.len() as int))
}

pub open spec fn branches_plain(bs: Seq<(SpecLExpr, Seq<SpecLStmt>)>) -> bool
    decreases bs,
{
    bs.len() > 0 ==> expr_plain(bs[0].0.val) && stmts_plain(bs[0].1) && branches_plain(bs.subrange(1, bs.len() as int))
}

pub proof fn lemma_plain_expr(ops: OpTable, e: SpecLExpr)
    requires
        expr_plain(e.val),
    ensures
        r_expr(ops, e).res == Ok::<SpecLExpr, SpecError>(e),
    decreases esize(e), 1int,
{
    match e.val {
        SpecExpr::Parens(x) => lemma_plain_expr(ops, *x),
        SpecExpr::Call(c, args) => {
            lemma_plain_exprs(ops, args);
            lemma_plain_expr(r_exprs(ops, args).ops, *c);
        },
        SpecExpr::UnaryOperation(_, x) => lemma_plain_expr(ops, *x),
        SpecExpr::List(xs) => lemma_plain_exprs(ops, xs),
        SpecExpr::Index(x, i) => {
            lemma_plain_expr(ops, *x);
            lemma_plain_expr(r_expr(ops, *x).ops, *i);
        },
        SpecExpr::Lambda(_, body) => lemma_plain_stmts(ops, body),
        SpecExpr::FieldAccess(x, _) => lemma_plain_expr(ops, *x),
        SpecExpr::MethodAccess(x, _, args) => {
            lemma_plain_expr(ops, *x);
            lemma_plain_exprs(r_expr(ops, *x).ops, args);
        },
        _ => {},
    }
}

pub proof fn lemma_plain_exprs(ops: OpTable, es: Seq<SpecLExpr>)
    requires
        exprs_plain(es),
    ensures
        r_exprs(ops, es).res == Ok::<Seq<SpecLExpr>, SpecError>(es),
    decreases esizes(es), 2int,
{
    if es.len() > 0 {
        lemma_esize_pos(es[0]);
        lemma_plain_expr(ops, es[0]);
        let rest = es.subrange(1, es.len() as int);
        lemma_plain_exprs(r_expr(ops, es[0]).ops, rest);
        assert(seq![es[0]] + rest =~= es);
    } else {
        assert(es =~= Seq::<SpecLExpr>::empty());
    }
}

pub proof fn lemma_plain_stmts(ops: OpTable, ss: Seq<SpecLStmt>)
    requires
        stmts_plain(ss),
    ensures
        r_stmts(ops, ss).res == Ok::<Seq<SpecLStmt>, SpecError>(ss),
    decreases ssizes(ss), 2int,
{
    if ss.len() > 0 {
        lemma_ssize_pos(ss[0]);
        lemma_plain_stmt(ops, ss[0]);
        let rest = ss.subrange(1, ss.len() as int);
        lemma_plain_stmts(r_stmt(ops, ss[0]).ops, rest);
        assert(seq![ss[0]] + rest =~= ss);
    } else {
        assert(ss =~= Seq::<SpecLStmt>::empty());
    }
}

pub proof fn lemma_plain_branches(ops: OpTable, bs: Seq<(SpecLExpr, Seq<SpecLStmt>)>)
    requires
        branches_plain(bs),
    ensures
        r_branches(ops, bs).res == Ok::<Seq<(SpecLExpr, Seq<SpecLStmt>)>, SpecError>(bs),
    decreases bsizes(bs), 2int,
{
    if bs.len() > 0 {
        lemma_esize_pos(bs[0].0);
        lemma_plain_stmts(ops, bs[0].1);
        let o1 = r_stmts(ops, bs[0].1).ops;
        lemma_plain_expr(o1, bs[0].0);
        let rest = bs.subrange(1, bs.len() as int);
        lemma_plain_branches(r_expr(o1, bs[0].0).ops, rest);
        assert(seq![(bs[0].0, bs[0].1)] + rest =~= bs);
    } else {
        assert(bs =~= Seq::<(SpecLExpr, Seq<SpecLStmt>)>::empty());
    }
}

pub proof fn lemma_plain_stmt(ops: OpTable, s: SpecLStmt)
    requires
        stmt_plain(s.val),
    ensures
        r_stmt(ops, s).res == Ok::<SpecLStmt, SpecError>(s),
    decreases ssize(s), 1int,
{
    match s.val {
        SpecStmt::Expr(x) => lemma_plain_expr(ops, x),
        SpecStmt::VarDecl(_, x) => lemma_plain_expr(ops, x),
        SpecStmt::Assign(_, x) => lemma_plain_expr(ops, x),
        SpecStmt::AssignIndex(a, b, c) => {
            lemma_plain_expr(ops, a);
            let o1 = r_expr(ops, a).ops;
            lemma_plain_expr(o1, b);
            lemma_plain_expr(r_expr(o1, b).ops, c);
        },
        SpecStmt::Block(b) => lemma_plain_stmts(ops, b),
        SpecStmt::If(bs, els) => {
            lemma_plain_branches(ops, bs);
            if let Some(b) = els {
                lemma_plain_stmts(r_branches(ops, bs).ops, b);
            }
        },
        SpecStmt::While(c, b) => {
            lemma_plain_expr(ops, c);
            lemma_plain_stmts(r_expr(ops, c).ops, b);
        },
        SpecStmt::FunDecl(_, _, b) => lemma_plain_stmts(ops, b),
        SpecStmt::OperatorDecl(name, _, b, p) => lemma_plain_stmts(scope_put(ops, name.val, p), b),
        SpecStmt::Return(x) => lemma_plain_expr(ops, x),
        SpecStmt::AssignStruct(a, _, b) => {
            lemma_plain_expr(ops, a);
            lemma_plain_expr(r_expr(ops, a).ops, b);
        },
        SpecStmt::Impl(_, b) => lemma_plain_stmts(ops, b),
        _ => {},
    }
}

/// Regrouping changes only binary operations: statements in which none occurs, a `break`
/// among them, come back as they were.
pub proof fn law_regrouping_keeps_plain_statements(ops: OpTable, ss: Seq<SpecLStmt>)
    requires
        stmts_plain(ss),
    ensures
        r_stmts(ops, ss).res == Ok::<Seq<SpecLStmt>, SpecError>(ss),
{
    lemma_plain_stmts(ops, ss);
}

/// Regrouping validates operators: a binary operation whose operator the table does not know
/// (and which declares no operator in its operands) is refused, with operator-not-found at that
/// operator once its operands regroup.
pub proof fn law_unknown_operator_refused(ops: OpTable, l: SpecLExpr, op: Located<Seq<char>>, r: SpecLExpr)
    requires
        expr_declares_none(l.val),
        expr_declares_none(r.val),
        scope_get(ops, op.val) is None,
    ensures
        r_binary(ops, l, op, r).res is Err,
        r_expr(ops, l).res is Ok && r_expr(ops, r).res is Ok ==> r_binary(ops, l, op, r).res == Err::<SpecLExpr, SpecError>(
            crate::error::err_on(crate::error::SpecErrorType::OperatorNotFound(op.val), op.loc),
        ),
{
    lemma_kept_expr(ops, l);
    lemma_kept_expr(ops, r);
}

// ---------------------------------------------------------------------------
// Regrouping reaches every statement
// ---------------------------------------------------------------------------

/// Whether `p` holds of every expression a statement holds directly, and of those of every
/// statement in its blocks (function, loop and conditional bodies, blocks, impls).
pub open spec fn stmt_all(s: SpecStmt, p: spec_fn(SpecLExpr) -> bool) -> bool
    decreases s,
{
    match s {
        SpecStmt::Expr(x) => p(x),
        SpecStmt::VarDecl(_, x) => p(x),
        SpecStmt::Assign(_, x) => p(x),
        SpecStmt::AssignIndex(a, b, c) => p(a) && p(b) && p(c),
        SpecStmt::Block(b) => stmts_all(b, p),
        SpecStmt::If(bs, els) => branches_all(bs, p) && match els {
            Some(b) => stmts_all(b, p),
            None => true,
        },
        SpecStmt::While(c, b) => p(c) && stmts_all(b, p),
        SpecStmt::FunDecl(_, _, b) => stmts_all(b, p),
        SpecStmt::OperatorDecl(_, _, b, _) => stmts_all(b, p),
        SpecStmt::Return(x) => p(x),
        SpecStmt::AssignStruct(a, _, b) => p(a) && p(b),
        SpecStmt::Impl(_, b) => stmts_all(b, p),
        _ => true,
    }
}

pub open spec fn stmts_all(ss: Seq<SpecLStmt>, p: spec_fn(SpecLExpr) -> bool) -> bool
    decreases ss,
{
    ss.len() > 0 ==> stmt_all(ss[0].val, p) && stmts_all(ss.subrange(1, ss.len() as int), p)
}

pub open spec fn branches_all(bs: Seq<(SpecLExpr, Seq<SpecLStmt>)>, p: spec_fn(SpecLExpr) -> bool) -> bool
    decreases bs,
{
    bs.len() > 0 ==> p(bs[0].0) && stmts_all(bs[0].1, p) && branches_all(bs.subrange(1, bs.len() as int), p)
}

pub open spec fn nested_right(e: SpecLExpr) -> bool {
    right_nested(e)
}

pub open spec fn grouped_in(ops: OpTable) -> spec_fn(SpecLExpr) -> bool {
    |e: SpecLExpr| grouped(ops, e)
}

proof fn lemma_expr_grouped(ops: OpTable, x: SpecLExpr)
    requires
        right_nested(x),
        expr_declares_none(x.val),
    ensures
        r_expr(ops, x).ops == ops,
        r_expr(ops, x).res matches Ok(y) ==> grouped_in(ops)(y),
{
    lemma_kept_expr(ops, x);
    law_regrouping_groups_by_precedence(ops, x);
}

pub proof fn lemma_stmt_grouped(ops: OpTable, s: SpecLStmt)
    requires
        stmt_all(s.val, |e: SpecLExpr| nested_right(e)),
        stmt_declares_none(s.val),
    ensures
        r_stmt(ops, s).res matches Ok(y) ==> stmt_all(y.val, grouped_in(ops)),
    decreases ssize(s), 1int,
{
    let rn = |e: SpecLExpr| nested_right(e);
    match s.val {
        SpecStmt::Expr(x) => lemma_expr_grouped(ops, x),
        SpecStmt::VarDecl(_, x) => lemma_expr_grouped(ops, x),
        SpecStmt::Assign(_, x) => lemma_expr_grouped(ops, x),
        SpecStmt::AssignIndex(a, b, c) => {
            lemma_expr_grouped(ops, a);
            lemma_expr_grouped(ops, b);
            lemma_expr_grouped(ops, c);
        },
        SpecStmt::Block(b) => lemma_stmts_grouped(ops, b),
        SpecStmt::If(bs, els) => {
            lemma_branches_grouped(ops, bs);
            lemma_kept_branches(ops, bs);
            if let Some(b) = els {
                lemma_stmts_grouped(ops, b);
            }
        },
        SpecStmt::While(c, b) => {
            lemma_expr_grouped(ops, c);
            lemma_stmts_grouped(ops, b);
        },
        SpecStmt::FunDecl(_, _, b) => lemma_stmts_grouped(ops, b),
        SpecStmt::Return(x) => lemma_expr_grouped(ops, x),
        SpecStmt::AssignStruct(a, _, b) => {
            lemma_expr_grouped(ops, a);
            lemma_expr_grouped(ops, b);
        },
        SpecStmt::Impl(_, b) => lemma_stmts_grouped(ops, b),
        _ => {},
    }
}

pub proof fn lemma_stmts_grouped(ops: OpTable, ss: Seq<SpecLStmt>)
    requires
        stmts_all(ss, |e: SpecLExpr| nested_right(e)),
        stmts_declare_none(ss),
    ensures
        r_stmts(ops, ss).ops == ops,
        r_stmts(ops, ss).res matches Ok(ys) ==> stmts_all(ys, grouped_in(ops)),
    decreases ssizes(ss), 2int,
{
    lemma_kept_stmts(ops, ss);
    if ss.len() > 0 {
        lemma_ssize_pos(ss[0]);
        lemma_stmt_grouped(ops, ss[0]);
        lemma_kept_stmt(ops, ss[0]);
        let h = r_stmt(ops, ss[0]);
        if let Ok(x) = h.res {
            let rest = ss.subrange(1, ss.len() as int);
            lemma_stmts_grouped(ops, rest);
            if let Ok(xs) = r_stmts(ops, rest).res {
                let ys = seq![x] + xs;
                assert(ys[0] == x);
                assert(ys.subrange(1, ys.len() as int) =~= xs);
            }
        }
    }
}

pub proof fn lemma_branches_grouped(ops: OpTable, bs: Seq<(SpecLExpr, Seq<SpecLStmt>)>)
    requires
        branches_all(bs, |e: SpecLExpr| nested_right(e)),
        branches_declare_none(bs),
    ensures
        r_branches(ops, bs).res matches Ok(ys) ==> branches_all(ys, grouped_in(ops)),
    decreases bsizes(bs), 2int,
{
    if bs.len() > 0 {
        lemma_esize_pos(bs[0].0);
        lemma_stmts_grouped(ops, bs[0].1);
        lemma_expr_grouped(ops, bs[0].0);
        let b = r_stmts(ops, bs[0].1);
        let c = r_expr(ops, bs[0].0);
        if let (Ok(block), Ok(cond)) = (b.res, c.res) {
            let rest = bs.subrange(1, bs.len() as int);
            lemma_branches_grouped(ops, rest);
            if let Ok(xs) = r_branches(ops, rest).res {
                let x = (cond, block);
                let ys = seq![x] + xs;
                assert(ys[0] == x);
                assert(ys.subrange(1, ys.len() as int) =~= xs);
            }
        }
    }
}

/// Regrouping a statement regroups every chain of binary operations it holds, at any depth of
/// its blocks (function bodies, loops, conditionals, blocks, impls): when each chain is as the
/// parser reads it and no operator is declared inside, each comes out grouped by precedence.
pub proof fn law_regrouping_groups_every_statement(ops: OpTable, s: SpecLStmt)
    requires
        stmt_all(s.val, |e: SpecLExpr| nested_right(e)),
        stmt_declares_none(s.val),
    ensures
        r_stmt(ops, s).res matches Ok(y) ==> stmt_all(y.val, |e: SpecLExpr| grouped(ops, e)),
{
    lemma_stmt_grouped(ops, s);
    assert(grouped_in(ops) == (|e: SpecLExpr| grouped(ops, e)));
}

/// An operator declaration enters the table, and the statements of its body are regrouped with
/// it: each chain in them, as the parser reads it, comes out grouped by the table that holds the
/// new operator.
pub proof fn law_regrouping_groups_operator_bodies(ops: OpTable, s: SpecLStmt)
    requires
        s.val is OperatorDecl,
        stmts_all(s.val->OperatorDecl_2, |e: SpecLExpr| nested_right(e)),
        stmts_declare_none(s.val->OperatorDecl_2),
    ensures
        r_stmt(ops, s).res matches Ok(y) ==> ({
            let table = scope_put(ops, s.val->OperatorDecl_0.val, s.val->OperatorDecl_3);
            &&& y.val is OperatorDecl
            &&& stmts_all(y.val->OperatorDecl_2, |e: SpecLExpr| grouped(table, e))
        }),
{
    let table = scope_put(ops, s.val->OperatorDecl_0.val, s.val->OperatorDecl_3);
    lemma_stmts_grouped(table, s.val->OperatorDecl_2);
    assert(grouped_in(table) == (|e: SpecLExpr| grouped(table, e)));
}

// ---------------------------------------------------------------------------
// Regrouping reaches every expression inside an expression
// ---------------------------------------------------------------------------

/// Whether `p` holds of every expression that an expression holds inside it as a whole (in
/// parentheses, as an operand of a unary operation, a callee, an argument, an item, a collection
/// or index, an object of a field or method), at any depth; the operands of a chain of binary
/// operations belong to the chain, and `p` is not asked of them. Lambda bodies are not looked at.
pub open spec fn inside_all(e: SpecLExpr, p: spec_fn(SpecLExpr) -> bool) -> bool
    decreases e,
{
    match e.val {
        SpecExpr::BinaryOperation(l, _, r) => inside_all(*l, p) && inside_all(*r, p),
        SpecExpr::Parens(x) => p(*x) && inside_all(*x, p),
        SpecExpr::UnaryOperation(_, x) => p(*x) && inside_all(*x, p),
        SpecExpr::Call(c, args) => p(*c) && inside_all(*c, p) && each_inside_all(args, p),
        SpecExpr::List(xs) => each_inside_all(xs, p),
        SpecExpr::Index(x, i) => p(*x) && inside_all(*x, p) && p(*i) && inside_all(*i, p),
        SpecExpr::FieldAccess(x, _) => p(*x) && inside_all(*x, p),
        SpecExpr::MethodAccess(x, _, args) => p(*x) && inside_all(*x, p) && each_inside_all(args, p),
        _ => true,
    }
}

pub open spec fn each_inside_all(es: Seq<SpecLExpr>, p: spec_fn(SpecLExpr) -> bool) -> bool
    decreases es,
{
    es.len() > 0 ==> p(es[0]) && inside_all(es[0], p) && each_inside_all(es.subrange(1, es.len() as int), p)
}

proof fn lemma_prepend_each<V>(x: V, xs: Seq<V>)
    ensures
        (seq![x] + xs)[0] == x,
        (seq![x] + xs).subrange(1, xs.len() + 1int) == xs,
        (seq![x] + xs).len() == xs.len() + 1,
{
    assert((seq![x] + xs).subrange(1, xs.len() + 1int) =~= xs);
}

/// Regrouping what is grouped throughout keeps it so.
proof fn lemma_deep_stays(ops: OpTable, e: SpecLExpr)
    requires
        grouped(ops, e),
        inside_all(e, grouped_in(ops)),
        expr_declares_none(e.val),
    ensures
        r_expr(ops, e).res matches Ok(y) ==> grouped(ops, y) && inside_all(y, grouped_in(ops)) && top_op(y) == top_op(e),
    decreases esize(e), 1int,
{
    let g = grouped_in(ops);
    match e.val {
        SpecExpr::BinaryOperation(l, op, r) => {
            lemma_kept_expr(ops, *l);
            lemma_kept_expr(ops, *r);
            lemma_deep_stays(ops, *l);
            lemma_deep_stays(ops, *r);
            lemma_grouped_stays_grouped(ops, e);
            if let (Ok(l1), Ok(r1)) = (r_expr(ops, *l).res, r_expr(ops, *r).res) {
                let kept = Located {
                    val: SpecExpr::BinaryOperation(Box::new(l1), op, Box::new(r1)),
                    loc: crate::located::Location { start: l1.loc.start, end: r1.loc.end },
                };
                assert(r_expr(ops, e) == r_binary(ops, *l, op, *r));
                if r_expr(ops, e).res is Ok {
                    match r1.val {
                        SpecExpr::BinaryOperation(l2, op2, r2) => {
                            let p1 = scope_get(ops, op.val)->Some_0;
                            let p2 = scope_get(ops, op2.val)->Some_0;
                            assert(stays(p1, p2));
                            assert(!rotates(p1, p2));
                            assert(r_binary(ops, *l, op, *r).res == Ok::<SpecLExpr, SpecError>(kept));
                        },
                        _ => {
                            assert(r_binary(ops, *l, op, *r).res == Ok::<SpecLExpr, SpecError>(kept));
                        },
                    }
                }
            }
        },
        SpecExpr::Parens(x) => lemma_deep_stays(ops, *x),
        SpecExpr::UnaryOperation(_, x) => lemma_deep_stays(ops, *x),
        SpecExpr::Call(c, args) => {
            lemma_kept_exprs(ops, args);
            lemma_each_stays(ops, args);
            lemma_deep_stays(ops, *c);
        },
        SpecExpr::List(xs) => lemma_each_stays(ops, xs),
        SpecExpr::Index(x, i) => {
            lemma_kept_expr(ops, *x);
            lemma_deep_stays(ops, *x);
            lemma_deep_stays(ops, *i);
        },
        SpecExpr::FieldAccess(x, _) => lemma_deep_stays(ops, *x),
        SpecExpr::MethodAccess(x, _, args) => {
            lemma_kept_expr(ops, *x);
            lemma_deep_stays(ops, *x);
            lemma_each_stays(ops, args);
        },
        _ => {},
    }
}

proof fn lemma_each_stays(ops: OpTable, es: Seq<SpecLExpr>)
    requires
        each_inside_all(es, grouped_in(ops)),
        exprs_declare_none(es),
    ensures
        r_exprs(ops, es).res matches Ok(ys) ==> each_inside_all(ys, grouped_in(ops)),
    decreases esizes(es), 2int,
{
    if es.len() > 0 {
        lemma_esize_pos(es[0]);
        lemma_kept_expr(ops, es[0]);
        lemma_deep_stays(ops, es[0]);
        let rest = es.subrange(1, es.len() as int);
        lemma_each_stays(ops, rest);
        if let (Ok(x), Ok(xs)) = (r_expr(ops, es[0]).res, r_exprs(ops, rest).res) {
            lemma_prepend_each(x, xs);
        }
    }
}

proof fn lemma_deep_binary(ops: OpTable, l: SpecLExpr, op: Located<Seq<char>>, r: SpecLExpr)
    requires
        expr_declares_none(l.val),
        expr_declares_none(r.val),
        r_expr(ops, l).res matches Ok(l1) ==> grouped(ops, l1) && inside_all(l1, grouped_in(ops)) && left_fits(ops, l1, op.val),
        r_expr(ops, r).res matches Ok(r1) ==> grouped(ops, r1) && inside_all(r1, grouped_in(ops)),
    ensures
        r_binary(ops, l, op, r).res matches Ok(y) ==> grouped(ops, y) && inside_all(y, grouped_in(ops)) && (top_op(y)
            == Some(op.val) || top_op(y) == top_op(r_expr(ops, r).res->Ok_0)),
    decreases esize(l) + esize(r) + 1,
{
    lemma_kept_expr(ops, l);
    law_regrouping_keeps_size(ops, l);
    let a = r_expr(ops, l);
    if let Ok(l1) = a.res {
        lemma_kept_expr(ops, r);
        law_regrouping_keeps_size(ops, r);
        let b = r_expr(ops, r);
        if let Ok(r1) = b.res {
            match r1.val {
                SpecExpr::BinaryOperation(l2, op2, r2) => {
                    assert(esize(r1) == 1 + esize(*l2) + esize(*r2));
                    if let (Some(p1), Some(p2)) = (scope_get(ops, op.val), scope_get(ops, op2.val)) {
                        if rotates(p1, p2) {
                            lemma_kept_expr(ops, l1);
                            lemma_deep_stays(ops, l1);
                            lemma_deep_stays(ops, *l2);
                            lemma_deep_binary(ops, l1, op, *l2);
                            let c = r_binary(ops, l1, op, *l2);
                            if let Ok(nl) = c.res {
                                let y = Located { val: SpecExpr::BinaryOperation(Box::new(nl), op2, r2), loc: r2.loc };
                                assert(r_binary(ops, l, op, r).res == Ok::<SpecLExpr, SpecError>(y));
                                assert(r_expr(ops, *l2).res is Ok);
                                assert(top_op(r_expr(ops, *l2).res->Ok_0) == top_op(*l2));
                                assert(left_fits(ops, *l2, op2.val));
                                assert(left_fits(ops, nl, op2.val));
                                assert(grouped(ops, y));
                                assert(inside_all(y, grouped_in(ops)));
                            }
                        }
                    }
                },
                _ => {},
            }
        }
    }
}

proof fn lemma_deep_regroup(ops: OpTable, e: SpecLExpr)
    requires
        right_nested(e),
        inside_all(e, |x: SpecLExpr| nested_right(x)),
        expr_declares_none(e.val),
    ensures
        r_expr(ops, e).res matches Ok(y) ==> grouped(ops, y) && inside_all(y, grouped_in(ops)) && (top_op(e) is None
            ==> top_op(y) is None),
    decreases esize(e), 1int,
{
    match e.val {
        SpecExpr::BinaryOperation(l, op, r) => {
            lemma_kept_expr(ops, *l);
            lemma_deep_regroup(ops, *l);
            lemma_deep_regroup(ops, *r);
            lemma_deep_binary(ops, *l, op, *r);
        },
        SpecExpr::Parens(x) => lemma_deep_regroup(ops, *x),
        SpecExpr::UnaryOperation(_, x) => lemma_deep_regroup(ops, *x),
        SpecExpr::Call(c, args) => {
            lemma_kept_exprs(ops, args);
            lemma_each_regroup(ops, args);
            lemma_deep_regroup(ops, *c);
        },
        SpecExpr::List(xs) => lemma_each_regroup(ops, xs),
        SpecExpr::Index(x, i) => {
            lemma_kept_expr(ops, *x);
            lemma_deep_regroup(ops, *x);
            lemma_deep_regroup(ops, *i);
        },
        SpecExpr::FieldAccess(x, _) => lemma_deep_regroup(ops, *x),
        SpecExpr::MethodAccess(x, _, args) => {
            lemma_kept_expr(ops, *x);
            lemma_deep_regroup(ops, *x);
            lemma_each_regroup(ops, args);
        },
        _ => {},
    }
}

proof fn lemma_each_regroup(ops: OpTable, es: Seq<SpecLExpr>)
    requires
        each_inside_all(es, |x: SpecLExpr| nested_right(x)),
        exprs_declare_none(es),
    ensures
        r_exprs(ops, es).res matches Ok(ys) ==> each_inside_all(ys, grouped_in(ops)),
    decreases esizes(es), 2int,
{
    if es.len() > 0 {
        lemma_esize_pos(es[0]);
        lemma_kept_expr(ops, es[0]);
        lemma_deep_regroup(ops, es[0]);
        let rest = es.subrange(1, es.len() as int);
        lemma_each_regroup(ops, rest);
        if let (Ok(x), Ok(xs)) = (r_expr(ops, es[0]).res, r_exprs(ops, rest).res) {
            lemma_prepend_each(x, xs);
        }
    }
}

/// Regrouping reaches every expression inside an expression: when every chain of binary
/// operations in it (in parentheses, operands of unary operations, callees, arguments, list
/// items, collections, indices, objects) is as the parser reads it and no operator is declared
/// inside, each of them comes out grouped by precedence.
pub proof fn law_regrouping_groups_every_expression(ops: OpTable, e: SpecLExpr)
    requires
        right_nested(e),
        inside_all(e, |x: SpecLExpr| right_nested(x)),
        expr_declares_none(e.val),
    ensures
        r_expr(ops, e).res matches Ok(y) ==> grouped(ops, y) && inside_all(y, |x: SpecLExpr| grouped(ops, x)),
{
    assert((|x: SpecLExpr| right_nested(x)) == (|x: SpecLExpr| nested_right(x)));
    lemma_deep_regroup(ops, e);
    assert(grouped_in(ops) == (|x: SpecLExpr| grouped(ops, x)));
}

/// Whether an expression and every expression inside it is a chain as the parser reads it.
pub open spec fn deep_nested_right() -> spec_fn(SpecLExpr) -> bool {
    |e: SpecLExpr| right_nested(e) && inside_all(e, |x: SpecLExpr| right_nested(x))
}

/// Whether an expression and every expression inside it is grouped as `ops` asks.
pub open spec fn deep_grouped_in(ops: OpTable) -> spec_fn(SpecLExpr) -> bool {
    |e: SpecLExpr| grouped(ops, e) && inside_all(e, |x: SpecLExpr| grouped(ops, x))
}

proof fn lemma_expr_deep(ops: OpTable, x: SpecLExpr)
    requires
        deep_nested_right()(x),
        expr_declares_none(x.val),
    ensures
        r_expr(ops, x).ops == ops,
        r_expr(ops, x).res matches Ok(y) ==> deep_grouped_in(ops)(y),
{
    lemma_kept_expr(ops, x);
    law_regrouping_groups_every_expression(ops, x);
}

pub proof fn lemma_stmt_deep(ops: OpTable, s: SpecLStmt)
    requires
        stmt_all(s.val, deep_nested_right()),
        stmt_declares_none(s.val),
    ensures
        r_stmt(ops, s).res matches Ok(y) ==> stmt_all(y.val, deep_grouped_in(ops)),
    decreases ssize(s), 1int,
{
    match s.val {
        SpecStmt::Expr(x) => lemma_expr_deep(ops, x),
        SpecStmt::VarDecl(_, x) => lemma_expr_deep(ops, x),
        SpecStmt::Assign(_, x) => lemma_expr_deep(ops, x),
        SpecStmt::AssignIndex(a, b, c) => {
            lemma_expr_deep(ops, a);
            lemma_expr_deep(ops, b);
            lemma_expr_deep(ops, c);
        },
        SpecStmt::Block(b) => lemma_stmts_deep(ops, b),
        SpecStmt::If(bs, els) => {
            lemma_branches_deep(ops, bs);
            lemma_kept_branches(ops, bs);
            if let Some(b) = els {
                lemma_stmts_deep(ops, b);
            }
        },
        SpecStmt::While(c, b) => {
            lemma_expr_deep(ops, c);
            lemma_stmts_deep(ops, b);
        },
        SpecStmt::FunDecl(_, _, b) => lemma_stmts_deep(ops, b),
        SpecStmt::Return(x) => lemma_expr_deep(ops, x),
        SpecStmt::AssignStruct(a, _, b) => {
            lemma_expr_deep(ops, a);
            lemma_expr_deep(ops, b);
        },
        SpecStmt::Impl(_, b) => lemma_stmts_deep(ops, b),
        _ => {},
    }
}

pub proof fn lemma_stmts_deep(ops: OpTable, ss: Seq<SpecLStmt>)
    requires
        stmts_all(ss, deep_nested_right()),
        stmts_declare_none(ss),
    ensures
        r_stmts(ops, ss).ops == ops,
        r_stmts(ops, ss).res matches Ok(ys) ==> stmts_all(ys, deep_grouped_in(ops)),
    decreases ssizes(ss), 2int,
{
    lemma_kept_stmts(ops, ss);
    if ss.len() > 0 {
        lemma_ssize_pos(ss[0]);
        lemma_stmt_deep(ops, ss[0]);
        lemma_kept_stmt(ops, ss[0]);
        let h = r_stmt(ops, ss[0]);
        if let Ok(x) = h.res {
            let rest = ss.subrange(1, ss.len() as int);
            lemma_stmts_deep(ops, rest);
            if let Ok(xs) = r_stmts(ops, rest).res {
                let ys = seq![x] + xs;
                assert(ys[0] == x);
                assert(ys.subrange(1, ys.len() as int) =~= xs);
            }
        }
    }
}

pub proof fn lemma_branches_deep(ops: OpTable, bs: Seq<(SpecLExpr, Seq<SpecLStmt>)>)
    requires
        branches_all(bs, deep_nested_right()),
        branches_declare_none(bs),
    ensures
        r_branches(ops, bs).res matches Ok(ys) ==> branches_all(ys, deep_grouped_in(ops)),
    decreases bsizes(bs), 2int,
{
    if bs.len() > 0 {
        lemma_esize_pos(bs[0].0);
        lemma_stmts_deep(ops, bs[0].1);
        lemma_expr_deep(ops, bs[0].0);
        let b = r_stmts(ops, bs[0].1);
        let c = r_expr(ops, bs[0].0);
        if let (Ok(block), Ok(cond)) = (b.res, c.res) {
            let rest = bs.subrange(1, bs.len() as int);
            lemma_branches_deep(ops, rest);
            if let Ok(xs) = r_branches(ops, rest).res {
                let x = (cond, block);
                let ys = seq![x] + xs;
                assert(ys[0] == x);
                assert(ys.subrange(1, ys.len() as int) =~= xs);
            }
        }
    }
}

/// Regrouping a statement regroups every chain of binary operations it holds, at any depth of
/// its blocks and inside its expressions: when each chain is as the parser reads it and no
/// operator is declared inside, each comes out grouped by precedence.
pub proof fn law_regrouping_groups_throughout(ops: OpTable, s: SpecLStmt)
    requires
        stmt_all(s.val, deep_nested_right()),
        stmt_declares_none(s.val),
    ensures
        r_stmt(ops, s).res matches Ok(y) ==> stmt_all(y.val, deep_grouped_in(ops)),
{
    lemma_stmt_deep(ops, s);
}

} // verus!
