use crate::backend::lowexprstmt::{
    low_branches_view, low_lexprs_view, low_lstmts_view, Expr, FloatConst, LExpr, LStmt, SpecFloatConst, SpecLowExpr, SpecLowLExpr,
    SpecLowLStmt, SpecLowStmt, Stmt,
};
use crate::exprstmt::idents_view;
use crate::frontend::chars::push_char;
use crate::printing::{join, names, push_idents, push_string};
use crate::text::{decimal, push_decimal, push_str};
use vstd::prelude::*;

verus! {

// ---------------------------------------------------------------------------
// The lowered syntax tree as text
// ---------------------------------------------------------------------------
//
// A floating point literal is shown as it was written.

/// A floating point constant as text: a literal as written, the operations shown as written
/// in the program, in parentheses.
pub open spec fn float_text(f: SpecFloatConst) -> Seq<char>
    decreases f,
{
    match f {
        SpecFloatConst::Literal(t) => t,
        SpecFloatConst::Neg(x) => "-"@ + float_text(*x),
        SpecFloatConst::Arith(c, a, b) => "("@ + float_text(*a) + seq![' ', c, ' '] + float_text(*b) + ")"@,
    }
}

/// A lowered expression as text.
pub open spec fn low_expr_text(e: SpecLowExpr) -> Seq<char>
    decreases e,
{
    match e {
        SpecLowExpr::Unit => "()"@,
        SpecLowExpr::Int(n) => decimal(n as int),
        SpecLowExpr::Float(f) => float_text(f),
        SpecLowExpr::String(t) => "\""@ + t + "\""@,
        SpecLowExpr::Bool(b) => if b { "true"@ } else { "false"@ },
        SpecLowExpr::Identifier(name) => name,
        SpecLowExpr::Call(c, args) => low_expr_text(c.val) + "("@ + low_exprs_text(args) + ")"@,
        SpecLowExpr::List(xs) => "["@ + low_exprs_text(xs) + "]"@,
        SpecLowExpr::Index(x, i) => low_expr_text(x.val) + "["@ + low_expr_text(i.val) + "]"@,
        SpecLowExpr::Lambda(ps, body) => "lambda("@ + join(names(ps), ", "@) + ")"@ + low_stmts_text(body),
        SpecLowExpr::FieldAccess(x, name) => low_expr_text(x.val) + "."@ + name.val,
        SpecLowExpr::MethodAccess(x, name, args) => low_expr_text(x.val) + "."@ + name.val + "("@
            + low_exprs_text(args) + ")"@,
    }
}

/// Lowered expressions as text, separated by commas.
pub open spec fn low_exprs_text(es: Seq<SpecLowLExpr>) -> Seq<char>
    decreases es,
{
    if es.len() == 0 {
        Seq::empty()
    } else if es.len() == 1 {
        low_expr_text(es[0].val)
    } else {
        low_exprs_text(es.subrange(0, es.len() - 1)) + ", "@ + low_expr_text(es[es.len() - 1].val)
    }
}

/// A lowered statement as text.
pub open spec fn low_stmt_text(s: SpecLowStmt) -> Seq<char>
    decreases s,
{
    match s {
        SpecLowStmt::Expr(x) => low_expr_text(x.val) + ";"@,
        SpecLowStmt::VarDecl(name, x) => "let "@ + name.val + " = "@ + low_expr_text(x.val) + ";"@,
        SpecLowStmt::Assign(name, x) => name.val + " = "@ + low_expr_text(x.val) + ";"@,
        SpecLowStmt::AssignIndex(l, i, x) => low_expr_text(l.val) + "["@ + low_expr_text(i.val) + "] = "@
            + low_expr_text(x.val) + ";"@,
        SpecLowStmt::Block(b) => "{\n"@ + low_stmts_text(b) + "\n}"@,
        SpecLowStmt::If(bs) => if bs.len() == 0 {
            Seq::empty()
        } else {
            "if "@ + low_expr_text(bs[0].0.val) + " {\n"@ + low_stmts_text(bs[0].1) + "\n} "@
                + low_else_ifs_text(bs.subrange(1, bs.len() as int))
        },
        SpecLowStmt::While(c, b) => "while "@ + low_expr_text(c.val) + " {"@ + low_stmts_text(b) + "}"@,
        SpecLowStmt::Return(x) => "return "@ + low_expr_text(x.val) + ";"@,
        SpecLowStmt::Break => "break;"@,
        SpecLowStmt::Continue => "continue;"@,
        SpecLowStmt::Struct(name, fs) => "struct "@ + name.val + " { "@ + join(names(fs), ", "@) + " }"@,
        SpecLowStmt::AssignStruct(l, name, x) => low_expr_text(l.val) + "."@ + name.val + " = "@
            + low_expr_text(x.val),
        SpecLowStmt::Impl(name, b) => "impl "@ + name.val + " {\n"@ + low_stmts_text(b) + "\n}"@,
    }
}

/// Lowered statements as text, one per line.
pub open spec fn low_stmts_text(ss: Seq<SpecLowLStmt>) -> Seq<char>
    decreases ss,
{
    if ss.len() == 0 {
        Seq::empty()
    } else if ss.len() == 1 {
        low_stmt_text(ss[0].val)
    } else {
        low_stmts_text(ss.subrange(0, ss.len() - 1)) + "\n"@ + low_stmt_text(ss[ss.len() - 1].val)
    }
}

/// The branches after the first of a lowered conditional as text.
pub open spec fn low_else_ifs_text(bs: Seq<(SpecLowLExpr, Seq<SpecLowLStmt>)>) -> Seq<char>
    decreases bs,
{
    if bs.len() == 0 {
        Seq::empty()
    } else {
        low_else_ifs_text(bs.subrange(0, bs.len() - 1)) + "else if "@ + low_expr_text(bs[bs.len() - 1].0.val)
            + " {\n"@ + low_stmts_text(bs[bs.len() - 1].1) + "\n}"@
    }
}

/// Whether a lowered expression can be shown: every conditional in it has a branch.
pub open spec fn low_expr_printable(e: SpecLowExpr) -> bool
    decreases e,
{
    match e {
        SpecLowExpr::Call(c, args) => low_expr_printable(c.val) && low_exprs_printable(args),
        SpecLowExpr::List(xs) => low_exprs_printable(xs),
        SpecLowExpr::Index(x, i) => low_expr_printable(x.val) && low_expr_printable(i.val),
        SpecLowExpr::Lambda(_, body) => low_stmts_printable(body),
        SpecLowExpr::FieldAccess(x, _) => low_expr_printable(x.val),
        SpecLowExpr::MethodAccess(x, _, args) => low_expr_printable(x.val) && low_exprs_printable(args),
        _ => true,
    }
}

pub open spec fn low_exprs_printable(es: Seq<SpecLowLExpr>) -> bool
    decreases es,
{
    es.len() > 0 ==> low_exprs_printable(es.subrange(0, es.len() - 1)) && low_expr_printable(
        es[es.len() - 1].val,
    )
}

/// Whether a lowered statement can be shown: every conditional in it has a branch.
pub open spec fn low_stmt_printable(s: SpecLowStmt) -> bool
    decreases s,
{
    match s {
        SpecLowStmt::Expr(x) => low_expr_printable(x.val),
        SpecLowStmt::VarDecl(_, x) => low_expr_printable(x.val),
        SpecLowStmt::Assign(_, x) => low_expr_printable(x.val),
        SpecLowStmt::AssignIndex(l, i, x) => low_expr_printable(l.val) && low_expr_printable(i.val)
            && low_expr_printable(x.val),
        SpecLowStmt::Block(b) => low_stmts_printable(b),
        SpecLowStmt::If(bs) => bs.len() > 0 && low_branches_printable(bs),
        SpecLowStmt::While(c, b) => low_expr_printable(c.val) && low_stmts_printable(b),
        SpecLowStmt::Return(x) => low_expr_printable(x.val),
        SpecLowStmt::AssignStruct(l, _, x) => low_expr_printable(l.val) && low_expr_printable(x.val),
        SpecLowStmt::Impl(_, b) => low_stmts_printable(b),
        _ => true,
    }
}

pub open spec fn low_stmts_printable(ss: Seq<SpecLowLStmt>) -> bool
    decreases ss,
{
    ss.len() > 0 ==> low_stmts_printable(ss.subrange(0, ss.len() - 1)) && low_stmt_printable(
        ss[ss.len() - 1].val,
    )
}

pub open spec fn low_branches_printable(bs: Seq<(SpecLowLExpr, Seq<SpecLowLStmt>)>) -> bool
    decreases bs,
{
    bs.len() > 0 ==> low_branches_printable(bs.subrange(0, bs.len() - 1)) && low_expr_printable(
        bs[bs.len() - 1].0.val,
    ) && low_stmts_printable(bs[bs.len() - 1].1)
}

pub proof fn lemma_low_exprs_printable(es: Seq<SpecLowLExpr>, i: int)
    requires
        low_exprs_printable(es),
        0 <= i < es.len(),
    ensures
        low_expr_printable(es[i].val),
    decreases es.len(),
{
    if i < es.len() - 1 {
        lemma_low_exprs_printable(es.subrange(0, es.len() - 1), i);
    }
}

pub proof fn lemma_low_stmts_printable(ss: Seq<SpecLowLStmt>, i: int)
    requires
        low_stmts_printable(ss),
        0 <= i < ss.len(),
    ensures
        low_stmt_printable(ss[i].val),
    decreases ss.len(),
{
    if i < ss.len() - 1 {
        lemma_low_stmts_printable(ss.subrange(0, ss.len() - 1), i);
    }
}

pub proof fn lemma_low_branches_printable(bs: Seq<(SpecLowLExpr, Seq<SpecLowLStmt>)>, i: int)
    requires
        low_branches_printable(bs),
        0 <= i < bs.len(),
    ensures
        low_expr_printable(bs[i].0.val),
        low_stmts_printable(bs[i].1),
    decreases bs.len(),
{
    if i < bs.len() - 1 {
        lemma_low_branches_printable(bs.subrange(0, bs.len() - 1), i);
    }
}

// ---------------------------------------------------------------------------
// Implementation
// ---------------------------------------------------------------------------

fn push_float(out: &mut String, f: &FloatConst)
    ensures
        final(out)@ == old(out)@ + float_text(f@),
    decreases f,
{
    let ghost o = out@;
    match f {
        FloatConst::Literal(t) => push_string(out, t),
        FloatConst::Neg(x) => {
            push_str(out, "-");
            push_float(out, x);
            assert(out@ =~= o + ("-"@ + float_text(x@)));
        },
        FloatConst::Arith(c, a, b) => {
            push_str(out, "(");
            push_float(out, a);
            push_char(out, ' ');
            push_char(out, *c);
            push_char(out, ' ');
            push_float(out, b);
            push_str(out, ")");
            assert(out@ =~= o + ("("@ + float_text(a@) + seq![' ', *c, ' '] + float_text(b@) + ")"@));
        },
    }
}

fn push_expr(out: &mut String, e: &Expr)
    requires
        low_expr_printable(e@),
    ensures
        final(out)@ == old(out)@ + low_expr_text(e@),
    decreases e,
{
    let ghost o = out@;
    match e {
        Expr::Unit => push_str(out, "()"),
        Expr::Int(n) => push_decimal(out, *n as i64),
        Expr::Float(f) => push_float(out, f),
        Expr::String(t) => {
            push_str(out, "\"");
            push_string(out, t);
            push_str(out, "\"");
            assert(out@ =~= o + ("\""@ + t@ + "\""@));
        },
        Expr::Bool(b) => {
            if *b {
                push_str(out, "true");
            } else {
                push_str(out, "false");
            }
        },
        Expr::Identifier(name) => push_string(out, name),
        Expr::Call(c, args) => {
            push_expr(out, &c.val);
            push_str(out, "(");
            push_exprs(out, args);
            push_str(out, ")");
            assert(out@ =~= o + (low_expr_text(c.val@) + "("@ + low_exprs_text(low_lexprs_view(args@)) + ")"@));
        },
        Expr::List(xs) => {
            push_str(out, "[");
            push_exprs(out, xs);
            push_str(out, "]");
            assert(out@ =~= o + ("["@ + low_exprs_text(low_lexprs_view(xs@)) + "]"@));
        },
        Expr::Index(x, i) => {
            push_expr(out, &x.val);
            push_str(out, "[");
            push_expr(out, &i.val);
            push_str(out, "]");
            assert(out@ =~= o + (low_expr_text(x.val@) + "["@ + low_expr_text(i.val@) + "]"@));
        },
        Expr::Lambda(ps, body) => {
            push_str(out, "lambda(");
            push_idents(out, ps, ", ");
            push_str(out, ")");
            push_stmts(out, body);
            assert(out@ =~= o + ("lambda("@ + join(names(idents_view(ps@)), ", "@) + ")"@ + low_stmts_text(
                low_lstmts_view(body@),
            )));
        },
        Expr::FieldAccess(x, name) => {
            push_expr(out, &x.val);
            push_str(out, ".");
            push_string(out, &name.val);
            assert(out@ =~= o + (low_expr_text(x.val@) + "."@ + name.val@));
        },
        Expr::MethodAccess(x, name, args) => {
            push_expr(out, &x.val);
            push_str(out, ".");
            push_string(out, &name.val);
            push_str(out, "(");
            push_exprs(out, args);
            push_str(out, ")");
            assert(out@ =~= o + (low_expr_text(x.val@) + "."@ + name.val@ + "("@ + low_exprs_text(
                low_lexprs_view(args@),
            ) + ")"@));
        },
    }
}

fn push_exprs(out: &mut String, es: &Vec<LExpr>)
    requires
        low_exprs_printable(low_lexprs_view(es@)),
    ensures
        final(out)@ == old(out)@ + low_exprs_text(low_lexprs_view(es@)),
    decreases es,
{
    let ghost v = low_lexprs_view(es@);
    let mut i: usize = 0;
    assert(v.take(0) =~= Seq::<SpecLowLExpr>::empty());
    assert(old(out)@ + Seq::<char>::empty() =~= old(out)@);
    while i < es.len()
        invariant
            v == low_lexprs_view(es@),
            low_exprs_printable(v),
            i <= es.len(),
            out@ == old(out)@ + low_exprs_text(v.take(i as int)),
        decreases es.len() - i,
    {
        if i > 0 {
            push_str(out, ", ");
        }
        proof {
            lemma_low_exprs_printable(v, i as int);
        }
        assert(decreases_to!(es => es@[i as int].val));
        push_expr(out, &es[i].val);
        proof {
            let p = v.take(i + 1);
            assert(p.subrange(0, i as int) =~= v.take(i as int));
            assert(p[i as int].val == es@[i as int].val@);
        }
        assert(out@ =~= old(out)@ + low_exprs_text(v.take(i + 1)));
        i = i + 1;
    }
    assert(v.take(v.len() as int) =~= v);
}

fn push_stmts(out: &mut String, ss: &Vec<LStmt>)
    requires
        low_stmts_printable(low_lstmts_view(ss@)),
    ensures
        final(out)@ == old(out)@ + low_stmts_text(low_lstmts_view(ss@)),
    decreases ss,
{
    let ghost v = low_lstmts_view(ss@);
    let mut i: usize = 0;
    assert(v.take(0) =~= Seq::<SpecLowLStmt>::empty());
    assert(old(out)@ + Seq::<char>::empty() =~= old(out)@);
    while i < ss.len()
        invariant
            v == low_lstmts_view(ss@),
            low_stmts_printable(v),
            i <= ss.len(),
            out@ == old(out)@ + low_stmts_text(v.take(i as int)),
        decreases ss.len() - i,
    {
        if i > 0 {
            push_str(out, "\n");
        }
        proof {
            lemma_low_stmts_printable(v, i as int);
        }
        assert(decreases_to!(ss => ss@[i as int].val));
        push_stmt(out, &ss[i].val);
        proof {
            let p = v.take(i + 1);
            assert(p.subrange(0, i as int) =~= v.take(i as int));
            assert(p[i as int].val == ss@[i as int].val@);
        }
        assert(out@ =~= old(out)@ + low_stmts_text(v.take(i + 1)));
        i = i + 1;
    }
    assert(v.take(v.len() as int) =~= v);
}

/// Appends the branches of a lowered conditional after its first.
fn push_else_ifs(out: &mut String, bs: &Vec<(LExpr, Vec<LStmt>)>)
    requires
        bs.len() > 0,
        low_branches_printable(low_branches_view(bs@)),
    ensures
        final(out)@ == old(out)@ + low_else_ifs_text(low_branches_view(bs@).subrange(1, bs.len() as int)),
    decreases bs,
{
    let ghost bv = low_branches_view(bs@);
    let mut i: usize = 1;
    assert(bv.subrange(1, 1) =~= Seq::<(SpecLowLExpr, Seq<SpecLowLStmt>)>::empty());
    assert(old(out)@ + Seq::<char>::empty() =~= old(out)@);
    while i < bs.len()
        invariant
            1 <= i <= bs.len(),
            bv == low_branches_view(bs@),
            low_branches_printable(bv),
            out@ == old(out)@ + low_else_ifs_text(bv.subrange(1, i as int)),
        decreases bs.len() - i,
    {
        let ghost before = out@;
        proof {
            lemma_low_branches_printable(bv, i as int);
        }
        push_str(out, "else if ");
        assert(decreases_to!(bs => bs@[i as int].0.val));
        push_expr(out, &bs[i].0.val);
        push_str(out, " {\n");
        assert(decreases_to!(bs => bs@[i as int].1));
        push_stmts(out, &bs[i].1);
        push_str(out, "\n}");
        proof {
            let p = bv.subrange(1, i + 1);
            assert(p.subrange(0, p.len() - 1) =~= bv.subrange(1, i as int));
            assert(p[p.len() - 1] == bv[i as int]);
            assert(out@ =~= before + ("else if "@ + low_expr_text(bv[i as int].0.val) + " {\n"@ + low_stmts_text(
                bv[i as int].1,
            ) + "\n}"@));
        }
        i = i + 1;
    }
}

fn push_stmt(out: &mut String, s: &Stmt)
    requires
        low_stmt_printable(s@),
    ensures
        final(out)@ == old(out)@ + low_stmt_text(s@),
    decreases s,
{
    let ghost o = out@;
    match s {
        Stmt::Expr(x) => {
            push_expr(out, &x.val);
            push_str(out, ";");
        },
        Stmt::VarDecl(name, x) => {
            push_str(out, "let ");
            push_string(out, &name.val);
            push_str(out, " = ");
            push_expr(out, &x.val);
            push_str(out, ";");
            assert(out@ =~= o + ("let "@ + name.val@ + " = "@ + low_expr_text(x.val@) + ";"@));
        },
        Stmt::Assign(name, x) => {
            push_string(out, &name.val);
            push_str(out, " = ");
            push_expr(out, &x.val);
            push_str(out, ";");
            assert(out@ =~= o + (name.val@ + " = "@ + low_expr_text(x.val@) + ";"@));
        },
        Stmt::AssignIndex(l, i, x) => {
            push_expr(out, &l.val);
            push_str(out, "[");
            push_expr(out, &i.val);
            push_str(out, "] = ");
            push_expr(out, &x.val);
            push_str(out, ";");
            assert(out@ =~= o + (low_expr_text(l.val@) + "["@ + low_expr_text(i.val@) + "] = "@ + low_expr_text(
                x.val@,
            ) + ";"@));
        },
        Stmt::Block(b) => {
            push_str(out, "{\n");
            push_stmts(out, b);
            push_str(out, "\n}");
            assert(out@ =~= o + ("{\n"@ + low_stmts_text(low_lstmts_view(b@)) + "\n}"@));
        },
        Stmt::If(bs) => {
            let ghost bv = low_branches_view(bs@);
            proof {
                lemma_low_branches_printable(bv, 0);
            }
            push_str(out, "if ");
            assert(decreases_to!(s => bs@[0].0.val));
            push_expr(out, &bs[0].0.val);
            push_str(out, " {\n");
            assert(decreases_to!(s => bs@[0].1));
            push_stmts(out, &bs[0].1);
            push_str(out, "\n} ");
            let ghost head = "if "@ + low_expr_text(bv[0].0.val) + " {\n"@ + low_stmts_text(bv[0].1) + "\n} "@;
            assert(out@ =~= o + head);
            push_else_ifs(out, bs);
            assert(s@ == SpecLowStmt::If(bv));
            assert(out@ =~= o + (head + low_else_ifs_text(bv.subrange(1, bv.len() as int))));
        },
        Stmt::While(c, b) => {
            push_str(out, "while ");
            push_expr(out, &c.val);
            push_str(out, " {");
            push_stmts(out, b);
            push_str(out, "}");
            assert(out@ =~= o + ("while "@ + low_expr_text(c.val@) + " {"@ + low_stmts_text(low_lstmts_view(b@))
                + "}"@));
        },
        Stmt::Return(x) => {
            push_str(out, "return ");
            push_expr(out, &x.val);
            push_str(out, ";");
            assert(out@ =~= o + ("return "@ + low_expr_text(x.val@) + ";"@));
        },
        Stmt::Break => push_str(out, "break;"),
        Stmt::Continue => push_str(out, "continue;"),
        Stmt::Struct(name, fs) => {
            push_str(out, "struct ");
            push_string(out, &name.val);
            push_str(out, " { ");
            push_idents(out, fs, ", ");
            push_str(out, " }");
            assert(out@ =~= o + ("struct "@ + name.val@ + " { "@ + join(names(idents_view(fs@)), ", "@) + " }"@));
        },
        Stmt::AssignStruct(l, name, x) => {
            push_expr(out, &l.val);
            push_str(out, ".");
            push_string(out, &name.val);
            push_str(out, " = ");
            push_expr(out, &x.val);
            assert(out@ =~= o + (low_expr_text(l.val@) + "."@ + name.val@ + " = "@ + low_expr_text(x.val@)));
        },
        Stmt::Impl(name, b) => {
            push_str(out, "impl ");
            push_string(out, &name.val);
            push_str(out, " {\n");
            push_stmts(out, b);
            push_str(out, "\n}");
            assert(out@ =~= o + ("impl "@ + name.val@ + " {\n"@ + low_stmts_text(low_lstmts_view(b@)) + "\n}"@));
        },
    }
}

fn check_expr(e: &Expr) -> (r: bool)
    ensures
        r == low_expr_printable(e@),
    decreases e,
{
    match e {
        Expr::Call(c, args) => check_expr(&c.val) && check_exprs(args),
        Expr::List(xs) => check_exprs(xs),
        Expr::Index(x, i) => check_expr(&x.val) && check_expr(&i.val),
        Expr::Lambda(_, body) => check_stmts(body),
        Expr::FieldAccess(x, _) => check_expr(&x.val),
        Expr::MethodAccess(x, _, args) => check_expr(&x.val) && check_exprs(args),
        _ => true,
    }
}

fn check_exprs(es: &Vec<LExpr>) -> (r: bool)
    ensures
        r == low_exprs_printable(low_lexprs_view(es@)),
    decreases es,
{
    let ghost v = low_lexprs_view(es@);
    let mut i: usize = 0;
    assert(v.take(0) =~= Seq::<SpecLowLExpr>::empty());
    while i < es.len()
        invariant
            v == low_lexprs_view(es@),
            i <= es.len(),
            low_exprs_printable(v.take(i as int)),
        decreases es.len() - i,
    {
        assert(decreases_to!(es => es@[i as int].val));
        let ok = check_expr(&es[i].val);
        assert(v.take(i + 1).subrange(0, i as int) =~= v.take(i as int));
        if !ok {
            proof {
                if low_exprs_printable(v) {
                    lemma_low_exprs_printable(v, i as int);
                }
            }
            return false;
        }
        i = i + 1;
    }
    assert(v.take(v.len() as int) =~= v);
    true
}

fn check_stmts(ss: &Vec<LStmt>) -> (r: bool)
    ensures
        r == low_stmts_printable(low_lstmts_view(ss@)),
    decreases ss,
{
    let ghost v = low_lstmts_view(ss@);
    let mut i: usize = 0;
    assert(v.take(0) =~= Seq::<SpecLowLStmt>::empty());
    while i < ss.len()
        invariant
            v == low_lstmts_view(ss@),
            i <= ss.len(),
            low_stmts_printable(v.take(i as int)),
        decreases ss.len() - i,
    {
        assert(decreases_to!(ss => ss@[i as int].val));
        let ok = check_stmt(&ss[i].val);
        assert(v.take(i + 1).subrange(0, i as int) =~= v.take(i as int));
        if !ok {
            proof {
                if low_stmts_printable(v) {
                    lemma_low_stmts_printable(v, i as int);
                }
            }
            return false;
        }
        i = i + 1;
    }
    assert(v.take(v.len() as int) =~= v);
    true
}

fn check_branches(bs: &Vec<(LExpr, Vec<LStmt>)>) -> (r: bool)
    ensures
        r == low_branches_printable(low_branches_view(bs@)),
    decreases bs,
{
    let ghost v = low_branches_view(bs@);
    let mut i: usize = 0;
    assert(v.take(0) =~= Seq::<(SpecLowLExpr, Seq<SpecLowLStmt>)>::empty());
    while i < bs.len()
        invariant
            v == low_branches_view(bs@),
            i <= bs.len(),
            low_branches_printable(v.take(i as int)),
        decreases bs.len() - i,
    {
        assert(decreases_to!(bs => bs@[i as int].0.val));
        assert(decreases_to!(bs => bs@[i as int].1));
        let ok = check_expr(&bs[i].0.val) && check_stmts(&bs[i].1);
        assert(v.take(i + 1).subrange(0, i as int) =~= v.take(i as int));
        if !ok {
            proof {
                if low_branches_printable(v) {
                    lemma_low_branches_printable(v, i as int);
                }
            }
            return false;
        }
        i = i + 1;
    }
    assert(v.take(v.len() as int) =~= v);
    true
}

fn check_stmt(s: &Stmt) -> (r: bool)
    ensures
        r == low_stmt_printable(s@),
    decreases s,
{
    match s {
        Stmt::Expr(x) => check_expr(&x.val),
        Stmt::VarDecl(_, x) => check_expr(&x.val),
        Stmt::Assign(_, x) => check_expr(&x.val),
        Stmt::AssignIndex(l, i, x) => check_expr(&l.val) && check_expr(&i.val) && check_expr(&x.val),
        Stmt::Block(b) => check_stmts(b),
        Stmt::If(bs) => bs.len() > 0 && check_branches(bs),
        Stmt::While(c, b) => check_expr(&c.val) && check_stmts(b),
        Stmt::Return(x) => check_expr(&x.val),
        Stmt::AssignStruct(l, _, x) => check_expr(&l.val) && check_expr(&x.val),
        Stmt::Impl(_, b) => check_stmts(b),
        _ => true,
    }
}

impl Expr {
    /// Whether the expression can be shown: every conditional in it has a branch.
    pub fn printable(&self) -> (r: bool)
        ensures
            r == low_expr_printable(self@),
    {
        check_expr(self)
    }

    /// The lowered expression as text.
    pub fn format(&self) -> (r: String)
        requires
            low_expr_printable(self@),
        ensures
            r@ == low_expr_text(self@),
    {
        let mut s = String::new();
        push_expr(&mut s, self);
        s
    }
}

impl Stmt {
    /// Whether the statement can be shown: every conditional in it has a branch.
    pub fn printable(&self) -> (r: bool)
        ensures
            r == low_stmt_printable(self@),
    {
        check_stmt(self)
    }

    /// The lowered statement as text.
    pub fn format(&self) -> (r: String)
        requires
            low_stmt_printable(self@),
        ensures
            r@ == low_stmt_text(self@),
    {
        let mut s = String::new();
        push_stmt(&mut s, self);
        s
    }
}

} // verus!
