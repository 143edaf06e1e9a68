use crate::exprstmt::{
    branches_view, idents_view, lexprs_view, lstmts_view, ExprType, Identifier, LExpr, LStmt, SpecExpr,
    SpecIdent, SpecLExpr, SpecLStmt, SpecStmt, StmtType,
};
use crate::text::{decimal, push_decimal, push_str};
use vstd::prelude::*;

verus! {

// ---------------------------------------------------------------------------
// The syntax tree as text
// ---------------------------------------------------------------------------
//
// Every operation is shown in parentheses, so the text shows how the expression is grouped.
// A floating point literal is shown as it was written.

/// The parts, with `sep` between each two.
pub open spec fn join(parts: Seq<Seq<char>>, sep: Seq<char>) -> Seq<char>
    decreases parts.len(),
{
    if parts.len() == 0 {
        Seq::empty()
    } else if parts.len() == 1 {
        parts[0]
    } else {
        join(parts.drop_last(), sep) + sep + parts.last()
    }
}

/// The names of identifiers.
pub open spec fn names(ids: Seq<SpecIdent>) -> Seq<Seq<char>> {
    ids.map_values(|i: SpecIdent| i.val)
}

/// An expression as text.
pub open spec fn expr_text(e: SpecExpr) -> Seq<char>
    decreases e,
{
    match e {
        SpecExpr::Unit => "()"@,
        SpecExpr::Int(n) => decimal(n as int),
        SpecExpr::Float(t) => t,
        SpecExpr::String(t) => "\""@ + t + "\""@,
        SpecExpr::Bool(b) => if b { "true"@ } else { "false"@ },
        SpecExpr::Identifier(name) => name,
        SpecExpr::Parens(x) => "("@ + expr_text(x.val) + ")"@,
        SpecExpr::UnaryOperation(op, x) => "("@ + op.val + " "@ + expr_text(x.val) + ")"@,
        SpecExpr::BinaryOperation(l, op, r) => "("@ + expr_text(l.val) + " "@ + op.val + " "@ + expr_text(r.val)
            + ")"@,
        SpecExpr::Call(c, args) => expr_text(c.val) + "("@ + exprs_text(args) + ")"@,
        SpecExpr::List(xs) => "["@ + exprs_text(xs) + "]"@,
        SpecExpr::Index(x, i) => expr_text(x.val) + "["@ + expr_text(i.val) + "]"@,
        SpecExpr::Lambda(ps, body) => "lambda("@ + join(names(ps), ", "@) + ")"@ + stmts_text(body),
        SpecExpr::FieldAccess(x, name) => expr_text(x.val) + "."@ + name.val,
        SpecExpr::MethodAccess(x, name, args) => expr_text(x.val) + "."@ + name.val + "("@ + exprs_text(args)
            + ")"@,
    }
}

/// Expressions as text, separated by commas.
pub open spec fn exprs_text(es: Seq<SpecLExpr>) -> Seq<char>
    decreases es,
{
    if es.len() == 0 {
        Seq::empty()
    } else if es.len() == 1 {
        expr_text(es[0].val)
    } else {
        exprs_text(es.subrange(0, es.len() - 1)) + ", "@ + expr_text(es[es.len() - 1].val)
    }
}

/// A statement as text.
pub open spec fn stmt_text(s: SpecStmt) -> Seq<char>
    decreases s,
{
    match s {
        SpecStmt::Expr(x) => expr_text(x.val) + ";"@,
        SpecStmt::VarDecl(name, x) => "let "@ + name.val + " = "@ + expr_text(x.val) + ";"@,
        SpecStmt::Assign(name, x) => name.val + " = "@ + expr_text(x.val) + ";"@,
        SpecStmt::AssignIndex(l, i, x) => expr_text(l.val) + "["@ + expr_text(i.val) + "] = "@ + expr_text(x.val)
            + ";"@,
        SpecStmt::Block(b) => "{\n"@ + stmts_text(b) + "\n}"@,
        SpecStmt::If(bs, els) => if bs.len() == 0 {
            Seq::empty()
        } else {
            "if "@ + expr_text(bs[0].0.val) + " {\n"@ + stmts_text(bs[0].1) + "\n} "@ + else_ifs_text(
                bs.subrange(1, bs.len() as int),
            ) + " else {\n"@ + match els {
                Some(b) => stmts_text(b),
                None => Seq::empty(),
            } + "\n}"@
        },
        SpecStmt::While(c, b) => "while "@ + expr_text(c.val) + " {"@ + stmts_text(b) + "}"@,
        SpecStmt::FunDecl(name, ps, b) => "fun "@ + name.val + "("@ + join(names(ps), ", "@) + ")"@ + stmts_text(b),
        SpecStmt::OperatorDecl(name, ps, b, _) => "fun "@ + name.val + "("@ + ps.0.val + ", "@ + ps.1.val + ")"@
            + stmts_text(b),
        SpecStmt::Return(x) => "return "@ + expr_text(x.val) + ";"@,
        SpecStmt::Break => "break;"@,
        SpecStmt::Continue => "continue;"@,
        SpecStmt::Struct(name, fs) => "struct "@ + name.val + " { "@ + join(names(fs), ", "@) + " }"@,
        SpecStmt::AssignStruct(l, name, x) => expr_text(l.val) + "."@ + name.val + " = "@ + expr_text(x.val),
        SpecStmt::Impl(name, b) => "impl "@ + name.val + " {\n"@ + stmts_text(b) + "\n}"@,
    }
}

/// Statements as text, one per line.
pub open spec fn stmts_text(ss: Seq<SpecLStmt>) -> Seq<char>
    decreases ss,
{
    if ss.len() == 0 {
        Seq::empty()
    } else if ss.len() == 1 {
        stmt_text(ss[0].val)
    } else {
        stmts_text(ss.subrange(0, ss.len() - 1)) + "\n"@ + stmt_text(ss[ss.len() - 1].val)
    }
}

/// The `else if` branches of a conditional as text.
pub open spec fn else_ifs_text(bs: Seq<(SpecLExpr, Seq<SpecLStmt>)>) -> Seq<char>
    decreases bs,
{
    if bs.len() == 0 {
        Seq::empty()
    } else {
        else_ifs_text(bs.subrange(0, bs.len() - 1)) + "else if "@ + expr_text(bs[bs.len() - 1].0.val) + " {\n"@
            + stmts_text(bs[bs.len() - 1].1) + "\n}"@
    }
}

/// Whether an expression can be shown: every conditional in it has a branch.
pub open spec fn expr_printable(e: SpecExpr) -> bool
    decreases e,
{
    match e {
        SpecExpr::Parens(x) => expr_printable(x.val),
        SpecExpr::UnaryOperation(_, x) => expr_printable(x.val),
        SpecExpr::BinaryOperation(l, _, r) => expr_printable(l.val) && expr_printable(r.val),
        SpecExpr::Call(c, args) => expr_printable(c.val) && exprs_printable(args),
        SpecExpr::List(xs) => exprs_printable(xs),
        SpecExpr::Index(x, i) => expr_printable(x.val) && expr_printable(i.val),
        SpecExpr::Lambda(_, body) => stmts_printable(body),
        SpecExpr::FieldAccess(x, _) => expr_printable(x.val),
        SpecExpr::MethodAccess(x, _, args) => expr_printable(x.val) && exprs_printable(args),
        _ => true,
    }
}

pub open spec fn exprs_printable(es: Seq<SpecLExpr>) -> bool
    decreases es,
{
    es.len() > 0 ==> exprs_printable(es.subrange(0, es.len() - 1)) && expr_printable(es[es.len() - 1].val)
}

/// Whether a statement can be shown: every conditional in it has a branch.
pub open spec fn stmt_printable(s: SpecStmt) -> bool
    decreases s,
{
    match s {
        SpecStmt::Expr(x) => expr_printable(x.val),
        SpecStmt::VarDecl(_, x) => expr_printable(x.val),
        SpecStmt::Assign(_, x) => expr_printable(x.val),
        SpecStmt::AssignIndex(l, i, x) => expr_printable(l.val) && expr_printable(i.val) && expr_printable(x.val),
        SpecStmt::Block(b) => stmts_printable(b),
        SpecStmt::If(bs, els) => bs.len() > 0 && branches_printable(bs) && match els {
            Some(b) => stmts_printable(b),
            None => true,
        },
        SpecStmt::While(c, b) => expr_printable(c.val) && stmts_printable(b),
        SpecStmt::FunDecl(_, _, b) => stmts_printable(b),
        SpecStmt::OperatorDecl(_, _, b, _) => stmts_printable(b),
        SpecStmt::Return(x) => expr_printable(x.val),
        SpecStmt::AssignStruct(l, _, x) => expr_printable(l.val) && expr_printable(x.val),
        SpecStmt::Impl(_, b) => stmts_printable(b),
        _ => true,
    }
}

pub open spec fn stmts_printable(ss: Seq<SpecLStmt>) -> bool
    decreases ss,
{
    ss.len() > 0 ==> stmts_printable(ss.subrange(0, ss.len() - 1)) && stmt_printable(ss[ss.len() - 1].val)
}

pub open spec fn branches_printable(bs: Seq<(SpecLExpr, Seq<SpecLStmt>)>) -> bool
    decreases bs,
{
    bs.len() > 0 ==> branches_printable(bs.subrange(0, bs.len() - 1)) && expr_printable(bs[bs.len() - 1].0.val)
        && stmts_printable(bs[bs.len() - 1].1)
}

pub proof fn lemma_exprs_printable(es: Seq<SpecLExpr>, i: int)
    requires
        exprs_printable(es),
        0 <= i < es.len(),
    ensures
        expr_printable(es[i].val),
    decreases es.len(),
{
    if i < es.len() - 1 {
        lemma_exprs_printable(es.subrange(0, es.len() - 1), i);
    }
}

pub proof fn lemma_stmts_printable(ss: Seq<SpecLStmt>, i: int)
    requires
        stmts_printable(ss),
        0 <= i < ss.len(),
    ensures
        stmt_printable(ss[i].val),
    decreases ss.len(),
{
    if i < ss.len() - 1 {
        lemma_stmts_printable(ss.subrange(0, ss.len() - 1), i);
    }
}

pub proof fn lemma_branches_printable(bs: Seq<(SpecLExpr, Seq<SpecLStmt>)>, i: int)
    requires
        branches_printable(bs),
        0 <= i < bs.len(),
    ensures
        expr_printable(bs[i].0.val),
        stmts_printable(bs[i].1),
    decreases bs.len(),
{
    if i < bs.len() - 1 {
        lemma_branches_printable(bs.subrange(0, bs.len() - 1), i);
    }
}

// ---------------------------------------------------------------------------
// Implementation
// ---------------------------------------------------------------------------

pub fn push_string(out: &mut String, t: &String)
    ensures
        final(out)@ == old(out)@ + t@,
{
    push_str(out, t.as_str());
}

/// Appends the names of `ids`, with `sep` between each two.
pub fn push_idents(out: &mut String, ids: &Vec<Identifier>, sep: &str)
    ensures
        final(out)@ == old(out)@ + join(names(idents_view(ids@)), sep@),
{
    let ghost parts = names(idents_view(ids@));
    let mut i: usize = 0;
    assert(parts.take(0) =~= Seq::<Seq<char>>::empty());
    assert(old(out)@ + Seq::<char>::empty() =~= old(out)@);
    while i < ids.len()
        invariant
            i <= ids.len(),
            parts == names(idents_view(ids@)),
            parts.len() == ids.len(),
            out@ == old(out)@ + join(parts.take(i as int), sep@),
        decreases ids.len() - i,
    {
        let ghost before = out@;
        if i > 0 {
            push_str(out, sep);
        }
        push_string(out, &ids[i].val);
        proof {
            let p = parts.take(i + 1);
            assert(p.drop_last() =~= parts.take(i as int));
            assert(p.last() == ids@[i as int].val@);
            if i == 0 {
                assert(out@ =~= old(out)@ + p[0]);
            } else {
                assert(out@ =~= old(out)@ + (join(p.drop_last(), sep@) + sep@ + p.last()));
            }
        }
        i = i + 1;
    }
    assert(parts.take(ids.len() as int) =~= parts);
}

fn push_expr(out: &mut String, e: &ExprType)
    requires
        expr_printable(e@),
    ensures
        final(out)@ == old(out)@ + expr_text(e@),
    decreases e,
{
    let ghost o = out@;
    match e {
        ExprType::Unit => push_str(out, "()"),
        ExprType::Int(n) => push_decimal(out, *n as i64),
        ExprType::Float(t) => push_string(out, t),
        ExprType::String(t) => {
            push_str(out, "\"");
            push_string(out, t);
            push_str(out, "\"");
            assert(out@ =~= o + ("\""@ + t@ + "\""@));
        },
        ExprType::Bool(b) => {
            if *b {
                push_str(out, "true");
            } else {
                push_str(out, "false");
            }
        },
        ExprType::Identifier(name) => push_string(out, name),
        ExprType::Parens(x) => {
            push_str(out, "(");
            push_expr(out, &x.val);
            push_str(out, ")");
            assert(out@ =~= o + ("("@ + expr_text(x.val@) + ")"@));
        },
        ExprType::UnaryOperation(op, x) => {
            push_str(out, "(");
            push_string(out, &op.val);
            push_str(out, " ");
            push_expr(out, &x.val);
            push_str(out, ")");
            assert(out@ =~= o + ("("@ + op.val@ + " "@ + expr_text(x.val@) + ")"@));
        },
        ExprType::BinaryOperation(l, op, r) => {
            push_str(out, "(");
            push_expr(out, &l.val);
            push_str(out, " ");
            push_string(out, &op.val);
            push_str(out, " ");
            push_expr(out, &r.val);
            push_str(out, ")");
            assert(out@ =~= o + ("("@ + expr_text(l.val@) + " "@ + op.val@ + " "@ + expr_text(r.val@) + ")"@));
        },
        ExprType::Call(c, args) => {
            push_expr(out, &c.val);
            push_str(out, "(");
            push_exprs(out, args);
            push_str(out, ")");
            assert(out@ =~= o + (expr_text(c.val@) + "("@ + exprs_text(lexprs_view(args@)) + ")"@));
        },
        ExprType::List(xs) => {
            push_str(out, "[");
            push_exprs(out, xs);
            push_str(out, "]");
            assert(out@ =~= o + ("["@ + exprs_text(lexprs_view(xs@)) + "]"@));
        },
        ExprType::Index(x, i) => {
            push_expr(out, &x.val);
            push_str(out, "[");
            push_expr(out, &i.val);
            push_str(out, "]");
            assert(out@ =~= o + (expr_text(x.val@) + "["@ + expr_text(i.val@) + "]"@));
        },
        ExprType::Lambda(ps, body) => {
            push_str(out, "lambda(");
            push_idents(out, ps, ", ");
            push_str(out, ")");
            push_stmts(out, body);
            assert(out@ =~= o + ("lambda("@ + join(names(idents_view(ps@)), ", "@) + ")"@ + stmts_text(
                lstmts_view(body@),
            )));
        },
        ExprType::FieldAccess(x, name) => {
            push_expr(out, &x.val);
            push_str(out, ".");
            push_string(out, &name.val);
            assert(out@ =~= o + (expr_text(x.val@) + "."@ + name.val@));
        },
        ExprType::MethodAccess(x, name, args) => {
            push_expr(out, &x.val);
            push_str(out, ".");
            push_string(out, &name.val);
            push_str(out, "(");
            push_exprs(out, args);
            push_str(out, ")");
            assert(out@ =~= o + (expr_text(x.val@) + "."@ + name.val@ + "("@ + exprs_text(lexprs_view(args@))
                + ")"@));
        },
    }
}

fn push_exprs(out: &mut String, es: &Vec<LExpr>)
    requires
        exprs_printable(lexprs_view(es@)),
    ensures
        final(out)@ == old(out)@ + exprs_text(lexprs_view(es@)),
    decreases es,
{
    let ghost v = lexprs_view(es@);
    let mut i: usize = 0;
    assert(v.take(0) =~= Seq::<SpecLExpr>::empty());
    assert(old(out)@ + Seq::<char>::empty() =~= old(out)@);
    while i < es.len()
        invariant
            v == lexprs_view(es@),
            exprs_printable(v),
            i <= es.len(),
            out@ == old(out)@ + exprs_text(v.take(i as int)),
        decreases es.len() - i,
    {
        if i > 0 {
            push_str(out, ", ");
        }
        proof {
            lemma_exprs_printable(v, i as int);
        }
        assert(decreases_to!(es => es@[i as int].val));
        push_expr(out, &es[i].val);
        proof {
            let p = v.take(i + 1);
            assert(p.subrange(0, i as int) =~= v.take(i as int));
            assert(p[i as int].val == es@[i as int].val@);
        }
        assert(out@ =~= old(out)@ + exprs_text(v.take(i + 1)));
        i = i + 1;
    }
    assert(v.take(v.len() as int) =~= v);
}

fn push_stmts(out: &mut String, ss: &Vec<LStmt>)
    requires
        stmts_printable(lstmts_view(ss@)),
    ensures
        final(out)@ == old(out)@ + stmts_text(lstmts_view(ss@)),
    decreases ss,
{
    let ghost v = lstmts_view(ss@);
    let mut i: usize = 0;
    assert(v.take(0) =~= Seq::<SpecLStmt>::empty());
    assert(old(out)@ + Seq::<char>::empty() =~= old(out)@);
    while i < ss.len()
        invariant
            v == lstmts_view(ss@),
            stmts_printable(v),
            i <= ss.len(),
            out@ == old(out)@ + stmts_text(v.take(i as int)),
        decreases ss.len() - i,
    {
        if i > 0 {
            push_str(out, "\n");
        }
        proof {
            lemma_stmts_printable(v, i as int);
        }
        assert(decreases_to!(ss => ss@[i as int].val));
        push_stmt(out, &ss[i].val);
        proof {
            let p = v.take(i + 1);
            assert(p.subrange(0, i as int) =~= v.take(i as int));
            assert(p[i as int].val == ss@[i as int].val@);
        }
        assert(out@ =~= old(out)@ + stmts_text(v.take(i + 1)));
        i = i + 1;
    }
    assert(v.take(v.len() as int) =~= v);
}

/// Appends the `else if` branches of a conditional: all its branches but the first.
fn push_else_ifs(out: &mut String, bs: &Vec<(LExpr, Vec<LStmt>)>)
    requires
        bs.len() > 0,
        branches_printable(branches_view(bs@)),
    ensures
        final(out)@ == old(out)@ + else_ifs_text(branches_view(bs@).subrange(1, bs.len() as int)),
    decreases bs,
{
    let ghost bv = branches_view(bs@);
    let mut i: usize = 1;
    assert(bv.subrange(1, 1) =~= Seq::<(SpecLExpr, Seq<SpecLStmt>)>::empty());
    assert(old(out)@ + Seq::<char>::empty() =~= old(out)@);
    while i < bs.len()
        invariant
            1 <= i <= bs.len(),
            bv == branches_view(bs@),
            branches_printable(bv),
            out@ == old(out)@ + else_ifs_text(bv.subrange(1, i as int)),
        decreases bs.len() - i,
    {
        let ghost before = out@;
        proof {
            lemma_branches_printable(bv, i as int);
        }
        push_str(out, "else if ");
        assert(decreases_to!(bs => bs@[i as int].0.val));
        push_expr(out, &bs[i].0.val);
        push_str(out, " {\n");
        assert(decreases_to!(bs => bs@[i as int].1));
        push_stmts(out, &bs[i].1);
        push_str(out, "\n}");
        proof {
            let p = bv.subrange(1, i + 1);
            assert(p.subrange(0, p.len() - 1) =~= bv.subrange(1, i as int));
            assert(p[p.len() - 1] == bv[i as int]);
            assert(out@ =~= before + ("else if "@ + expr_text(bv[i as int].0.val) + " {\n"@ + stmts_text(
                bv[i as int].1,
            ) + "\n}"@));
        }
        i = i + 1;
    }
}

#[verifier::spinoff_prover]
#[verifier::rlimit(40)]
fn push_stmt(out: &mut String, s: &StmtType)
    requires
        stmt_printable(s@),
    ensures
        final(out)@ == old(out)@ + stmt_text(s@),
    decreases s,
{
    let ghost o = out@;
    match s {
        StmtType::Expr(x) => {
            push_expr(out, &x.val);
            push_str(out, ";");
        },
        StmtType::VarDecl(name, x) => {
            push_str(out, "let ");
            push_string(out, &name.val);
            push_str(out, " = ");
            push_expr(out, &x.val);
            push_str(out, ";");
            assert(out@ =~= o + ("let "@ + name.val@ + " = "@ + expr_text(x.val@) + ";"@));
        },
        StmtType::Assign(name, x) => {
            push_string(out, &name.val);
            push_str(out, " = ");
            push_expr(out, &x.val);
            push_str(out, ";");
            assert(out@ =~= o + (name.val@ + " = "@ + expr_text(x.val@) + ";"@));
        },
        StmtType::AssignIndex(l, i, x) => {
            push_expr(out, &l.val);
            push_str(out, "[");
            push_expr(out, &i.val);
            push_str(out, "] = ");
            push_expr(out, &x.val);
            push_str(out, ";");
            assert(out@ =~= o + (expr_text(l.val@) + "["@ + expr_text(i.val@) + "] = "@ + expr_text(x.val@) + ";"@));
        },
        StmtType::Block(b) => {
            push_str(out, "{\n");
            push_stmts(out, b);
            push_str(out, "\n}");
            assert(out@ =~= o + ("{\n"@ + stmts_text(lstmts_view(b@)) + "\n}"@));
        },
        StmtType::If(bs, els) => {
            let ghost bv = branches_view(bs@);
            proof {
                lemma_branches_printable(bv, 0);
            }
            push_str(out, "if ");
            assert(decreases_to!(s => bs@[0].0.val));
            push_expr(out, &bs[0].0.val);
            push_str(out, " {\n");
            assert(decreases_to!(s => bs@[0].1));
            push_stmts(out, &bs[0].1);
            push_str(out, "\n} ");
            let ghost head = "if "@ + expr_text(bv[0].0.val) + " {\n"@ + stmts_text(bv[0].1) + "\n} "@;
            assert(out@ =~= o + head);
            push_else_ifs(out, bs);
            let ghost mid = out@;
            push_str(out, " else {\n");
            let ghost before_els = out@;
            let ghost ev: Option<Seq<SpecLStmt>> = match els {
                Some(b) => Some(lstmts_view(b@)),
                None => None,
            };
            match els {
                Some(b) => push_stmts(out, b),
                None => {},
            }
            let ghost et = match ev {
                Some(b) => stmts_text(b),
                None => Seq::<char>::empty(),
            };
            assert(out@ =~= before_els + et);
            push_str(out, "\n}");
            assert(s@ == SpecStmt::If(bv, ev));
            assert(out@ =~= o + (head + else_ifs_text(bv.subrange(1, bv.len() as int)) + " else {\n"@ + et
                + "\n}"@));
        },
        StmtType::While(c, b) => {
            push_str(out, "while ");
            push_expr(out, &c.val);
            push_str(out, " {");
            push_stmts(out, b);
            push_str(out, "}");
            assert(out@ =~= o + ("while "@ + expr_text(c.val@) + " {"@ + stmts_text(lstmts_view(b@)) + "}"@));
        },
        StmtType::FunDecl(name, ps, b) => {
            push_str(out, "fun ");
            push_string(out, &name.val);
            push_str(out, "(");
            push_idents(out, ps, ", ");
            push_str(out, ")");
            push_stmts(out, b);
            assert(out@ =~= o + ("fun "@ + name.val@ + "("@ + join(names(idents_view(ps@)), ", "@) + ")"@
                + stmts_text(lstmts_view(b@))));
        },
        StmtType::OperatorDecl(name, ps, b, _) => {
            push_str(out, "fun ");
            push_string(out, &name.val);
            push_str(out, "(");
            push_string(out, &ps.0.val);
            push_str(out, ", ");
            push_string(out, &ps.1.val);
            push_str(out, ")");
            push_stmts(out, b);
            assert(out@ =~= o + ("fun "@ + name.val@ + "("@ + ps.0.val@ + ", "@ + ps.1.val@ + ")"@ + stmts_text(
                lstmts_view(b@),
            )));
        },
        StmtType::Return(x) => {
            push_str(out, "return ");
            push_expr(out, &x.val);
            push_str(out, ";");
            assert(out@ =~= o + ("return "@ + expr_text(x.val@) + ";"@));
        },
        StmtType::Break => push_str(out, "break;"),
        StmtType::Continue => push_str(out, "continue;"),
        StmtType::Struct(name, fs) => {
            push_str(out, "struct ");
            push_string(out, &name.val);
            push_str(out, " { ");
            push_idents(out, fs, ", ");
            push_str(out, " }");
            assert(out@ =~= o + ("struct "@ + name.val@ + " { "@ + join(names(idents_view(fs@)), ", "@) + " }"@));
        },
        StmtType::AssignStruct(l, name, x) => {
            push_expr(out, &l.val);
            push_str(out, ".");
            push_string(out, &name.val);
            push_str(out, " = ");
            push_expr(out, &x.val);
            assert(out@ =~= o + (expr_text(l.val@) + "."@ + name.val@ + " = "@ + expr_text(x.val@)));
        },
        StmtType::Impl(name, b) => {
            push_str(out, "impl ");
            push_string(out, &name.val);
            push_str(out, " {\n");
            push_stmts(out, b);
            push_str(out, "\n}");
            assert(out@ =~= o + ("impl "@ + name.val@ + " {\n"@ + stmts_text(lstmts_view(b@)) + "\n}"@));
        },
    }
}

fn check_expr(e: &ExprType) -> (r: bool)
    ensures
        r == expr_printable(e@),
    decreases e,
{
    match e {
        ExprType::Parens(x) => check_expr(&x.val),
        ExprType::UnaryOperation(_, x) => check_expr(&x.val),
        ExprType::BinaryOperation(l, _, r) => check_expr(&l.val) && check_expr(&r.val),
        ExprType::Call(c, args) => check_expr(&c.val) && check_exprs(args),
        ExprType::List(xs) => check_exprs(xs),
        ExprType::Index(x, i) => check_expr(&x.val) && check_expr(&i.val),
        ExprType::Lambda(_, body) => check_stmts(body),
        ExprType::FieldAccess(x, _) => check_expr(&x.val),
        ExprType::MethodAccess(x, _, args) => check_expr(&x.val) && check_exprs(args),
        _ => true,
    }
}

fn check_exprs(es: &Vec<LExpr>) -> (r: bool)
    ensures
        r == exprs_printable(lexprs_view(es@)),
    decreases es,
{
    let ghost v = lexprs_view(es@);
    let mut i: usize = 0;
    assert(v.take(0) =~= Seq::<SpecLExpr>::empty());
    while i < es.len()
        invariant
            v == lexprs_view(es@),
            i <= es.len(),
            exprs_printable(v.take(i as int)),
        decreases es.len() - i,
    {
        assert(decreases_to!(es => es@[i as int].val));
        let ok = check_expr(&es[i].val);
        assert(v.take(i + 1).subrange(0, i as int) =~= v.take(i as int));
        if !ok {
            proof {
                if exprs_printable(v) {
                    lemma_exprs_printable(v, i as int);
                }
            }
            return false;
        }
        i = i + 1;
    }
    assert(v.take(v.len() as int) =~= v);
    true
}

fn check_stmts(ss: &Vec<LStmt>) -> (r: bool)
    ensures
        r == stmts_printable(lstmts_view(ss@)),
    decreases ss,
{
    let ghost v = lstmts_view(ss@);
    let mut i: usize = 0;
    assert(v.take(0) =~= Seq::<SpecLStmt>::empty());
    while i < ss.len()
        invariant
            v == lstmts_view(ss@),
            i <= ss.len(),
            stmts_printable(v.take(i as int)),
        decreases ss.len() - i,
    {
        assert(decreases_to!(ss => ss@[i as int].val));
        let ok = check_stmt(&ss[i].val);
        assert(v.take(i + 1).subrange(0, i as int) =~= v.take(i as int));
        if !ok {
            proof {
                if stmts_printable(v) {
                    lemma_stmts_printable(v, i as int);
                }
            }
            return false;
        }
        i = i + 1;
    }
    assert(v.take(v.len() as int) =~= v);
    true
}

fn check_branches(bs: &Vec<(LExpr, Vec<LStmt>)>) -> (r: bool)
    ensures
        r == branches_printable(branches_view(bs@)),
    decreases bs,
{
    let ghost v = branches_view(bs@);
    let mut i: usize = 0;
    assert(v.take(0) =~= Seq::<(SpecLExpr, Seq<SpecLStmt>)>::empty());
    while i < bs.len()
        invariant
            v == branches_view(bs@),
            i <= bs.len(),
            branches_printable(v.take(i as int)),
        decreases bs.len() - i,
    {
        assert(decreases_to!(bs => bs@[i as int].0.val));
        assert(decreases_to!(bs => bs@[i as int].1));
        let ok = check_expr(&bs[i].0.val) && check_stmts(&bs[i].1);
        assert(v.take(i + 1).subrange(0, i as int) =~= v.take(i as int));
        if !ok {
            proof {
                if branches_printable(v) {
                    lemma_branches_printable(v, i as int);
                }
            }
            return false;
        }
        i = i + 1;
    }
    assert(v.take(v.len() as int) =~= v);
    true
}

fn check_stmt(s: &StmtType) -> (r: bool)
    ensures
        r == stmt_printable(s@),
    decreases s,
{
    match s {
        StmtType::Expr(x) => check_expr(&x.val),
        StmtType::VarDecl(_, x) => check_expr(&x.val),
        StmtType::Assign(_, x) => check_expr(&x.val),
        StmtType::AssignIndex(l, i, x) => check_expr(&l.val) && check_expr(&i.val) && check_expr(&x.val),
        StmtType::Block(b) => check_stmts(b),
        StmtType::If(bs, els) => bs.len() > 0 && check_branches(bs) && match els {
            Some(b) => check_stmts(b),
            None => true,
        },
        StmtType::FunDecl(_, _, b) => check_stmts(b),
        StmtType::OperatorDecl(_, _, b, _) => check_stmts(b),
        StmtType::While(c, b) => check_expr(&c.val) && check_stmts(b),
        StmtType::Return(x) => check_expr(&x.val),
        StmtType::AssignStruct(l, _, x) => check_expr(&l.val) && check_expr(&x.val),
        StmtType::Impl(_, b) => check_stmts(b),
        _ => true,
    }
}

impl ExprType {
    /// Whether the expression can be shown: every conditional in it has a branch.
    pub fn printable(&self) -> (r: bool)
        ensures
            r == expr_printable(self@),
    {
        check_expr(self)
    }

    /// The expression as text, every operation in parentheses.
    pub fn format(&self) -> (r: String)
        requires
            expr_printable(self@),
        ensures
            r@ == expr_text(self@),
    {
        let mut s = String::new();
        push_expr(&mut s, self);
        s
    }
}

impl StmtType {
    /// Whether the statement can be shown: every conditional in it has a branch.
    pub fn printable(&self) -> (r: bool)
        ensures
            r == stmt_printable(self@),
    {
        check_stmt(self)
    }

    /// The statement as text.
    pub fn format(&self) -> (r: String)
        requires
            stmt_printable(self@),
        ensures
            r@ == stmt_text(self@),
    {
        let mut s = String::new();
        push_stmt(&mut s, self);
        s
    }
}

} // verus!
