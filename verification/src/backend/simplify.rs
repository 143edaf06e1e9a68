use super::lowexprstmt::{
    low_branches_view, low_lexpr_view, low_lexprs_view, low_lstmt_view, low_lstmts_view, Expr, FloatConst, LExpr,
    LStmt, SpecFloatConst, SpecLowExpr, SpecLowLExpr, SpecLowLStmt, SpecLowStmt, Stmt,
};
use crate::error::{err_on, error_on, Error, ErrorType, SpecError, SpecErrorType};
use crate::exprstmt::{
    self, branches_view, idents_view, lexpr_view, lexprs_view, lstmt_view, lstmts_view, SpecExpr, SpecIdent,
    SpecLExpr, SpecLStmt, SpecStmt,
};
use crate::frontend::chars::{chars_of, string_from, string_of};
use crate::backend::lowprinting::float_text;
use crate::frontend::reassoc::{
    bsizes, esize, esizes, lemma_esize_pos, lemma_ssize_pos, ssize, ssizes,
};
use crate::located::{Located, Location};
use vstd::prelude::*;

verus! {

// ---------------------------------------------------------------------------
// Lowering the syntax tree
// ---------------------------------------------------------------------------
//
// Operators become calls of the functions they name, after folding those on two integer
// literals (`+ - * / %`) and the negation of an integer or the `!` of a boolean literal.
// Folding that would overflow or divide by zero is reported as an error with the message of
// the arithmetic fault. Folding floating point literals gives a constant that records the
// operations, to be computed where the program runs.

/// `done` followed by what `r` gives, when it succeeds.
pub open spec fn then_prepend<V>(done: Seq<V>, r: Result<Seq<V>, SpecError>) -> Result<Seq<V>, SpecError> {
    match r {
        Ok(v) => Ok(done + v),
        Err(e) => Err(e),
    }
}

/// The operator a name stands for when it is one of `+ - * / %`.
pub open spec fn arith_op(name: Seq<char>) -> Option<char> {
    if name.len() == 1 && (name[0] == '+' || name[0] == '-' || name[0] == '*' || name[0] == '/' || name[0] == '%') {
        Some(name[0])
    } else {
        None
    }
}

/// The integer operation `a op b`, or `None` when it overflows or divides by zero.
pub open spec fn int_fold(op: char, a: i32, b: i32) -> Option<i32> {
    if op == '+' {
        a.checked_add(b)
    } else if op == '-' {
        a.checked_sub(b)
    } else if op == '*' {
        a.checked_mul(b)
    } else if op == '/' {
        a.checked_div(b)
    } else {
        a.checked_rem(b)
    }
}

/// The message of the arithmetic fault of `a op b`.
pub open spec fn fold_fault(op: char, b: i32) -> Seq<char> {
    if op == '+' {
        "attempt to add with overflow"@
    } else if op == '-' {
        "attempt to subtract with overflow"@
    } else if op == '*' {
        "attempt to multiply with overflow"@
    } else if op == '/' {
        if b == 0 {
            "attempt to divide by zero"@
        } else {
            "attempt to divide with overflow"@
        }
    } else if b == 0 {
        "attempt to calculate the remainder with a divisor of zero"@
    } else {
        "attempt to calculate the remainder with overflow"@
    }
}

/// The call of the function named `op` (located at `oploc`) with `args`, located at `loc`.
pub open spec fn call_of(op: Seq<char>, oploc: Location, args: Seq<SpecLowLExpr>, loc: Location) -> SpecLowLExpr {
    Located {
        val: SpecLowExpr::Call(Box::new(Located { val: SpecLowExpr::Identifier(op), loc: oploc }), args),
        loc,
    }
}

/// `l op r` on lowered operands: folded, or a call of `op`.
pub open spec fn s_binary(l: SpecLowLExpr, op: SpecIdent, r: SpecLowLExpr, loc: Location) -> Result<SpecLowLExpr, SpecError> {
    match (l.val, r.val, arith_op(op.val)) {
        (SpecLowExpr::Int(a), SpecLowExpr::Int(b), Some(c)) => match int_fold(c, a, b) {
            Some(v) => Ok(Located { val: SpecLowExpr::Int(v), loc }),
            None => Err(err_on(SpecErrorType::OtherError(fold_fault(c, b)), loc)),
        },
        (SpecLowExpr::Float(a), SpecLowExpr::Float(b), Some(c)) => Ok(
            Located { val: SpecLowExpr::Float(SpecFloatConst::Arith(c, Box::new(a), Box::new(b))), loc },
        ),
        _ => Ok(call_of(op.val, op.loc, seq![l, r], loc)),
    }
}

/// `op x` on a lowered operand: folded, or a call of `$$neg` (for `-`) or `$$not` (for `!`).
pub open spec fn s_unary(op: SpecIdent, x: SpecLowLExpr, loc: Location) -> Result<SpecLowLExpr, SpecError> {
    if op.val == seq!['-'] && x.val is Int {
        match 0i32.checked_sub(x.val->Int_0) {
            Some(v) => Ok(Located { val: SpecLowExpr::Int(v), loc }),
            None => Err(err_on(SpecErrorType::OtherError("attempt to negate with overflow"@), loc)),
        }
    } else if op.val == seq!['-'] && x.val is Float {
        Ok(Located { val: SpecLowExpr::Float(SpecFloatConst::Neg(Box::new(x.val->Float_0))), loc })
    } else if op.val == seq!['!'] && x.val is Bool {
        Ok(Located { val: SpecLowExpr::Bool(!x.val->Bool_0), loc })
    } else if op.val == seq!['!'] {
        Ok(call_of("$$not"@, op.loc, seq![x], loc))
    } else if op.val == seq!['-'] {
        Ok(call_of("$$neg"@, op.loc, seq![x], loc))
    } else {
        Err(err_on(SpecErrorType::OtherError("internal error: entered unreachable code"@), op.loc))
    }
}

/// An expression lowered.
pub open spec fn s_expr(e: SpecLExpr) -> Result<SpecLowLExpr, SpecError>
    decreases esize(e), 1int,
{
    let loc = e.loc;
    match e.val {
        SpecExpr::Unit => Ok(Located { val: SpecLowExpr::Unit, loc }),
        SpecExpr::Int(n) => Ok(Located { val: SpecLowExpr::Int(n), loc }),
        SpecExpr::Float(t) => Ok(Located { val: SpecLowExpr::Float(SpecFloatConst::Literal(t)), loc }),
        SpecExpr::String(t) => Ok(Located { val: SpecLowExpr::String(t), loc }),
        SpecExpr::Bool(b) => Ok(Located { val: SpecLowExpr::Bool(b), loc }),
        SpecExpr::Identifier(t) => Ok(Located { val: SpecLowExpr::Identifier(t), loc }),
        SpecExpr::Parens(x) => s_expr(*x),
        SpecExpr::Call(c, args) => match s_expr(*c) {
            Err(er) => Err(er),
            Ok(c2) => match s_exprs(args) {
                Err(er) => Err(er),
                Ok(args2) => Ok(Located { val: SpecLowExpr::Call(Box::new(c2), args2), loc }),
            },
        },
        SpecExpr::UnaryOperation(op, x) => match s_expr(*x) {
            Err(er) => Err(er),
            Ok(x2) => s_unary(op, x2, loc),
        },
        SpecExpr::BinaryOperation(l, op, r) => match s_expr(*l) {
            Err(er) => Err(er),
            Ok(l2) => match s_expr(*r) {
                Err(er) => Err(er),
                Ok(r2) => s_binary(l2, op, r2, loc),
            },
        },
        SpecExpr::List(xs) => match s_exprs(xs) {
            Err(er) => Err(er),
            Ok(ys) => Ok(Located { val: SpecLowExpr::List(ys), loc }),
        },
        SpecExpr::Index(x, i) => match s_expr(*x) {
            Err(er) => Err(er),
            Ok(x2) => match s_expr(*i) {
                Err(er) => Err(er),
                Ok(i2) => Ok(Located { val: SpecLowExpr::Index(Box::new(x2), Box::new(i2)), loc }),
            },
        },
        SpecExpr::Lambda(ps, body) => match s_stmts(body) {
            Err(er) => Err(er),
            Ok(b2) => Ok(Located { val: SpecLowExpr::Lambda(ps, b2), loc }),
        },
        SpecExpr::FieldAccess(x, name) => match s_expr(*x) {
            Err(er) => Err(er),
            Ok(x2) => Ok(Located { val: SpecLowExpr::FieldAccess(Box::new(x2), name), loc }),
        },
        SpecExpr::MethodAccess(x, name, args) => match s_expr(*x) {
            Err(er) => Err(er),
            Ok(x2) => match s_exprs(args) {
                Err(er) => Err(er),
                Ok(args2) => Ok(Located { val: SpecLowExpr::MethodAccess(Box::new(x2), name, args2), loc }),
            },
        },
    }
}

/// Expressions lowered in order.
pub open spec fn s_exprs(es: Seq<SpecLExpr>) -> Result<Seq<SpecLowLExpr>, SpecError>
    decreases esizes(es), 2int,
{
    if es.len() == 0 {
        Ok(Seq::empty())
    } else {
        proof {
            lemma_esize_pos(es[0]);
        }
        match s_expr(es[0]) {
            Err(er) => Err(er),
            Ok(x) => then_prepend(seq![x], s_exprs(es.subrange(1, es.len() as int))),
        }
    }
}

/// Statements lowered in order.
pub open spec fn s_stmts(ss: Seq<SpecLStmt>) -> Result<Seq<SpecLowLStmt>, SpecError>
    decreases ssizes(ss), 2int,
{
    if ss.len() == 0 {
        Ok(Seq::empty())
    } else {
        proof {
            lemma_ssize_pos(ss[0]);
        }
        match s_stmt(ss[0]) {
            Err(er) => Err(er),
            Ok(x) => then_prepend(seq![x], s_stmts(ss.subrange(1, ss.len() as int))),
        }
    }
}

/// The branches of a conditional lowered in order: of each, its block and then its condition.
pub open spec fn s_branches(bs: Seq<(SpecLExpr, Seq<SpecLStmt>)>) -> Result<Seq<(SpecLowLExpr, Seq<SpecLowLStmt>)>, SpecError>
    decreases bsizes(bs), 2int,
{
    if bs.len() == 0 {
        Ok(Seq::empty())
    } else {
        proof {
            lemma_esize_pos(bs[0].0);
        }
        match s_stmts(bs[0].1) {
            Err(er) => Err(er),
            Ok(block) => match s_expr(bs[0].0) {
                Err(er) => Err(er),
                Ok(cond) => then_prepend(seq![(cond, block)], s_branches(bs.subrange(1, bs.len() as int))),
            },
        }
    }
}

/// A function named `name` with parameters `ps` and body `body`, as the binding of a lambda.
pub open spec fn s_fun(name: SpecIdent, ps: Seq<SpecIdent>, body: Seq<SpecLStmt>, loc: Location) -> Result<SpecLowLStmt, SpecError>
    decreases ssizes(body), 3int,
{
    match s_stmts(body) {
        Err(er) => Err(er),
        Ok(b2) => Ok(
            Located {
                val: SpecLowStmt::VarDecl(name, Located { val: SpecLowExpr::Lambda(ps, b2), loc }),
                loc,
            },
        ),
    }
}

/// A statement lowered.
pub open spec fn s_stmt(s: SpecLStmt) -> Result<SpecLowLStmt, SpecError>
    decreases ssize(s), 1int,
{
    let loc = s.loc;
    match s.val {
        SpecStmt::Expr(x) => match s_expr(x) {
            Err(er) => Err(er),
            Ok(y) => Ok(Located { val: SpecLowStmt::Expr(y), loc }),
        },
        SpecStmt::VarDecl(id, x) => match s_expr(x) {
            Err(er) => Err(er),
            Ok(y) => Ok(Located { val: SpecLowStmt::VarDecl(id, y), loc }),
        },
        SpecStmt::Assign(id, x) => match s_expr(x) {
            Err(er) => Err(er),
            Ok(y) => Ok(Located { val: SpecLowStmt::Assign(id, y), loc }),
        },
        SpecStmt::AssignIndex(x, i, v) => match s_expr(x) {
            Err(er) => Err(er),
            Ok(x2) => match s_expr(i) {
                Err(er) => Err(er),
                Ok(i2) => match s_expr(v) {
                    Err(er) => Err(er),
                    Ok(v2) => Ok(Located { val: SpecLowStmt::AssignIndex(x2, i2, v2), loc }),
                },
            },
        },
        SpecStmt::Block(b) => match s_stmts(b) {
            Err(er) => Err(er),
            Ok(b2) => Ok(Located { val: SpecLowStmt::Block(b2), loc }),
        },
        SpecStmt::If(bs, els) => match s_branches(bs) {
            Err(er) => Err(er),
            Ok(bs2) => match els {
                None => Ok(Located { val: SpecLowStmt::If(bs2), loc }),
                Some(eb) => match s_stmts(eb) {
                    Err(er) => Err(er),
                    Ok(eb2) => Ok(
                        Located {
                            val: SpecLowStmt::If(bs2.push((Located { val: SpecLowExpr::Bool(true), loc }, eb2))),
                            loc,
                        },
                    ),
                },
            },
        },
        SpecStmt::While(c, b) => match s_stmts(b) {
            Err(er) => Err(er),
            Ok(b2) => match s_expr(c) {
                Err(er) => Err(er),
                Ok(c2) => Ok(Located { val: SpecLowStmt::While(c2, b2), loc }),
            },
        },
        SpecStmt::FunDecl(name, ps, b) => s_fun(name, ps, b, loc),
        SpecStmt::OperatorDecl(name, ps, b, _) => s_fun(name, seq![ps.0, ps.1], b, loc),
        SpecStmt::Return(x) => match s_expr(x) {
            Err(er) => Err(er),
            Ok(y) => Ok(Located { val: SpecLowStmt::Return(y), loc }),
        },
        SpecStmt::Break => Ok(Located { val: SpecLowStmt::Break, loc }),
        SpecStmt::Continue => Ok(Located { val: SpecLowStmt::Continue, loc }),
        SpecStmt::Struct(name, fs) => Ok(Located { val: SpecLowStmt::Struct(name, fs), loc }),
        SpecStmt::AssignStruct(x, name, v) => match s_expr(x) {
            Err(er) => Err(er),
            Ok(x2) => match s_expr(v) {
                Err(er) => Err(er),
                Ok(v2) => Ok(Located { val: SpecLowStmt::AssignStruct(x2, name, v2), loc }),
            },
        },
        SpecStmt::Impl(name, b) => match s_stmts(b) {
            Err(er) => Err(er),
            Ok(b2) => Ok(Located { val: SpecLowStmt::Impl(name, b2), loc }),
        },
    }
}


/// Lowering keeps the number of statements: each becomes one lowered statement.
pub proof fn law_lowering_keeps_statement_count(ss: Seq<SpecLStmt>)
    ensures
        s_stmts(ss) matches Ok(v) ==> v.len() == ss.len(),
    decreases ss.len(),
{
    if ss.len() > 0 {
        law_lowering_keeps_statement_count(ss.subrange(1, ss.len() as int));
    }
}

/// Lowering keeps the branches of a conditional, in order.
pub proof fn lemma_branch_count(bs: Seq<(SpecLExpr, Seq<SpecLStmt>)>)
    ensures
        s_branches(bs) matches Ok(v) ==> v.len() == bs.len(),
    decreases bs.len(),
{
    if bs.len() > 0 {
        lemma_branch_count(bs.subrange(1, bs.len() as int));
    }
}

/// A conditional keeps its branches, and an `else` block becomes one more branch, last, whose
/// condition is `true`, located where the conditional is.
pub proof fn law_else_becomes_last_branch(s: SpecLStmt)
    requires
        s.val is If,
    ensures
        s_stmt(s) matches Ok(y) ==> ({
            let bs = s.val->If_0;
            &&& y.val is If
            &&& y.loc == s.loc
            &&& match s.val->If_1 {
                None => y.val->If_0.len() == bs.len(),
                Some(_) => {
                    &&& y.val->If_0.len() == bs.len() + 1
                    &&& y.val->If_0.last().0 == Located { val: SpecLowExpr::Bool(true), loc: s.loc }
                },
            }
        }),
{
    lemma_branch_count(s.val->If_0);
}

/// An operation `+`, `-` or `*` on two integer literals is folded to its value when that fits in
/// 32 bits, and reported as the overflow otherwise.
pub proof fn law_fold_integers(a: i32, b: i32, op: SpecIdent, la: Location, lb: Location, loc: Location)
    requires
        op.val == seq!['+'] || op.val == seq!['-'] || op.val == seq!['*'],
    ensures
        ({
            let e = Located {
                val: SpecExpr::BinaryOperation(
                    Box::new(Located { val: SpecExpr::Int(a), loc: la }),
                    op,
                    Box::new(Located { val: SpecExpr::Int(b), loc: lb }),
                ),
                loc,
            };
            let v: int = if op.val == seq!['+'] {
                a + b
            } else if op.val == seq!['-'] {
                a - b
            } else {
                a * b
            };
            s_expr(e) == if i32::MIN <= v <= i32::MAX {
                Ok::<SpecLowLExpr, SpecError>(Located { val: SpecLowExpr::Int(v as i32), loc })
            } else {
                Err::<SpecLowLExpr, SpecError>(err_on(SpecErrorType::OtherError(fold_fault(op.val[0], b)), loc))
            }
        }),
{
    let l = Located { val: SpecExpr::Int(a), loc: la };
    let r = Located { val: SpecExpr::Int(b), loc: lb };
    assert(s_expr(l) == Ok::<SpecLowLExpr, SpecError>(Located { val: SpecLowExpr::Int(a), loc: la }));
    assert(s_expr(r) == Ok::<SpecLowLExpr, SpecError>(Located { val: SpecLowExpr::Int(b), loc: lb }));
    assert(arith_op(op.val) == Some(op.val[0]));
}

/// An arithmetic operation (`+ - * / %`) on two floating point literals is folded to one
/// floating point constant, the operation of the two.
pub proof fn law_fold_floats(a: Seq<char>, b: Seq<char>, op: SpecIdent, la: Location, lb: Location, loc: Location)
    requires
        arith_op(op.val) is Some,
    ensures
        s_expr(
            Located {
                val: SpecExpr::BinaryOperation(
                    Box::new(Located { val: SpecExpr::Float(a), loc: la }),
                    op,
                    Box::new(Located { val: SpecExpr::Float(b), loc: lb }),
                ),
                loc,
            },
        ) == Ok::<SpecLowLExpr, SpecError>(
            Located {
                val: SpecLowExpr::Float(
                    SpecFloatConst::Arith(
                        op.val[0],
                        Box::new(SpecFloatConst::Literal(a)),
                        Box::new(SpecFloatConst::Literal(b)),
                    ),
                ),
                loc,
            },
        ),
{
    let l = Located { val: SpecExpr::Float(a), loc: la };
    let r = Located { val: SpecExpr::Float(b), loc: lb };
    assert(s_expr(l) == Ok::<SpecLowLExpr, SpecError>(Located { val: SpecLowExpr::Float(SpecFloatConst::Literal(a)), loc: la }));
    assert(s_expr(r) == Ok::<SpecLowLExpr, SpecError>(Located { val: SpecLowExpr::Float(SpecFloatConst::Literal(b)), loc: lb }));
}

// ---------------------------------------------------------------------------
// What lowering keeps of an expression without operations
// ---------------------------------------------------------------------------

/// A name or a literal of an expression.
pub enum Atom {
    Unit,
    Int(i32),
    Float(Seq<char>),
    Str(Seq<char>),
    Bool(bool),
    Name(Seq<char>),
    Break,
    Continue,
}

/// Whether nothing in an expression can be folded (outside the bodies of lambdas): it holds no
/// unary operation, and no binary operation but by operators other than `+ - * / %`.
pub open spec fn op_free(e: SpecExpr) -> bool
    decreases e,
{
    match e {
        SpecExpr::Parens(x) => op_free(x.val),
        SpecExpr::Call(c, args) => op_free(c.val) && ops_free(args),
        SpecExpr::UnaryOperation(..) => false,
        SpecExpr::BinaryOperation(l, op, r) => arith_op(op.val) is None && op_free(l.val) && op_free(r.val),
        SpecExpr::List(xs) => ops_free(xs),
        SpecExpr::Index(x, i) => op_free(x.val) && op_free(i.val),
        SpecExpr::FieldAccess(x, _) => op_free(x.val),
        SpecExpr::MethodAccess(x, _, args) => op_free(x.val) && ops_free(args),
        _ => true,
    }
}

pub open spec fn ops_free(es: Seq<SpecLExpr>) -> bool
    decreases es,
{
    es.len() > 0 ==> op_free(es[0].val) && ops_free(es.subrange(1, es.len() as int))
}

/// The names and literals of an expression, left to right as written, but a binary operation
/// by its operator before its operands, as it is called (a lambda by its parameters).
pub open spec fn atoms(e: SpecExpr) -> Seq<Atom>
    decreases e,
{
    match e {
        SpecExpr::Unit => seq![Atom::Unit],
        SpecExpr::Int(n) => seq![Atom::Int(n)],
        SpecExpr::Float(t) => seq![Atom::Float(t)],
        SpecExpr::String(t) => seq![Atom::Str(t)],
        SpecExpr::Bool(b) => seq![Atom::Bool(b)],
        SpecExpr::Identifier(t) => seq![Atom::Name(t)],
        SpecExpr::Parens(x) => atoms(x.val),
        SpecExpr::Call(c, args) => atoms(c.val) + atoms_of(args),
        SpecExpr::UnaryOperation(op, x) => seq![Atom::Name(op.val)] + atoms(x.val),
        SpecExpr::BinaryOperation(l, op, r) => seq![Atom::Name(op.val)] + atoms(l.val) + atoms(r.val),
        SpecExpr::List(xs) => atoms_of(xs),
        SpecExpr::Index(x, i) => atoms(x.val) + atoms(i.val),
        SpecExpr::Lambda(ps, _) => ps.map_values(|p: SpecIdent| Atom::Name(p.val)),
        SpecExpr::FieldAccess(x, name) => atoms(x.val) + seq![Atom::Name(name.val)],
        SpecExpr::MethodAccess(x, name, args) => atoms(x.val) + seq![Atom::Name(name.val)] + atoms_of(args),
    }
}

pub open spec fn atoms_of(es: Seq<SpecLExpr>) -> Seq<Atom>
    decreases es,
{
    if es.len() == 0 {
        Seq::empty()
    } else {
        atoms(es[0].val) + atoms_of(es.subrange(1, es.len() as int))
    }
}

/// The names and literals of a lowered expression, left to right (a lambda by its parameters,
/// a floating point constant by its text).
pub open spec fn low_atoms(e: SpecLowExpr) -> Seq<Atom>
    decreases e,
{
    match e {
        SpecLowExpr::Unit => seq![Atom::Unit],
        SpecLowExpr::Int(n) => seq![Atom::Int(n)],
        SpecLowExpr::Float(f) => seq![Atom::Float(float_text(f))],
        SpecLowExpr::String(t) => seq![Atom::Str(t)],
        SpecLowExpr::Bool(b) => seq![Atom::Bool(b)],
        SpecLowExpr::Identifier(t) => seq![Atom::Name(t)],
        SpecLowExpr::Call(c, args) => low_atoms(c.val) + low_atoms_of(args),
        SpecLowExpr::List(xs) => low_atoms_of(xs),
        SpecLowExpr::Index(x, i) => low_atoms(x.val) + low_atoms(i.val),
        SpecLowExpr::Lambda(ps, _) => ps.map_values(|p: SpecIdent| Atom::Name(p.val)),
        SpecLowExpr::FieldAccess(x, name) => low_atoms(x.val) + seq![Atom::Name(name.val)],
        SpecLowExpr::MethodAccess(x, name, args) => low_atoms(x.val) + seq![Atom::Name(name.val)] + low_atoms_of(
            args,
        ),
    }
}

pub open spec fn low_atoms_of(es: Seq<SpecLowLExpr>) -> Seq<Atom>
    decreases es,
{
    if es.len() == 0 {
        Seq::empty()
    } else {
        low_atoms(es[0].val) + low_atoms_of(es.subrange(1, es.len() as int))
    }
}

/// Lowering an expression in which nothing can be folded keeps its names and literals in order:
/// a call keeps its callee before its arguments, an index its collection before the index, an
/// operation its left operand before its right one, and so on.
pub proof fn law_lowering_keeps_atoms(e: SpecLExpr)
    requires
        op_free(e.val),
    ensures
        s_expr(e) matches Ok(y) ==> low_atoms(y.val) == atoms(e.val),
    decreases esize(e), 1int,
{
    match e.val {
        SpecExpr::Parens(x) => law_lowering_keeps_atoms(*x),
        SpecExpr::BinaryOperation(l, op, r) => {
            law_lowering_keeps_atoms(*l);
            law_lowering_keeps_atoms(*r);
            if let (Ok(l2), Ok(r2)) = (s_expr(*l), s_expr(*r)) {
                let y = call_of(op.val, op.loc, seq![l2, r2], e.loc);
                assert(s_binary(l2, op, r2, e.loc) == Ok::<SpecLowLExpr, SpecError>(y));
                let args = seq![l2, r2];
                let tail = args.subrange(1, 2);
                assert(tail =~= seq![r2]);
                assert(tail.subrange(1, 1) =~= Seq::<SpecLowLExpr>::empty());
                assert(low_atoms_of(Seq::<SpecLowLExpr>::empty()) == Seq::<Atom>::empty());
                assert(low_atoms_of(tail) == low_atoms(r2.val) + low_atoms_of(tail.subrange(1, 1)));
                assert(low_atoms_of(tail) =~= low_atoms(r2.val));
                assert(low_atoms_of(args) == low_atoms(l2.val) + low_atoms_of(tail));
                let callee = Located { val: SpecLowExpr::Identifier(op.val), loc: op.loc };
                assert(y.val == SpecLowExpr::Call(Box::new(callee), args));
                assert(low_atoms(callee.val) == seq![Atom::Name(op.val)]);
                assert(low_atoms(y.val) == low_atoms(callee.val) + low_atoms_of(args));
                assert(low_atoms(y.val) =~= atoms(e.val));
            }
        },
        SpecExpr::Call(c, args) => {
            law_lowering_keeps_atoms(*c);
            lemma_lowering_keeps_atoms_of(args);
        },
        SpecExpr::List(xs) => lemma_lowering_keeps_atoms_of(xs),
        SpecExpr::Index(x, i) => {
            law_lowering_keeps_atoms(*x);
            law_lowering_keeps_atoms(*i);
        },
        SpecExpr::FieldAccess(x, _) => law_lowering_keeps_atoms(*x),
        SpecExpr::MethodAccess(x, _, args) => {
            law_lowering_keeps_atoms(*x);
            lemma_lowering_keeps_atoms_of(args);
        },
        SpecExpr::Float(t) => {
            assert(float_text(SpecFloatConst::Literal(t)) == t);
        },
        _ => {},
    }
}

pub proof fn lemma_lowering_keeps_atoms_of(es: Seq<SpecLExpr>)
    requires
        ops_free(es),
    ensures
        s_exprs(es) matches Ok(ys) ==> low_atoms_of(ys) == atoms_of(es),
    decreases esizes(es), 2int,
{
    if es.len() > 0 {
        lemma_esize_pos(es[0]);
        law_lowering_keeps_atoms(es[0]);
        let rest = es.subrange(1, es.len() as int);
        lemma_lowering_keeps_atoms_of(rest);
        if let (Ok(x), Ok(xs)) = (s_expr(es[0]), s_exprs(rest)) {
            let ys = seq![x] + xs;
            assert(ys[0] == x);
            assert(ys.subrange(1, ys.len() as int) =~= xs);
        }
    }
}

// ---------------------------------------------------------------------------
// What lowering keeps of a whole program without operations
// ---------------------------------------------------------------------------

/// Whether nothing can be folded anywhere in an expression, lambda bodies included.
pub open spec fn all_op_free(e: SpecExpr) -> bool
    decreases e,
{
    match e {
        SpecExpr::Parens(x) => all_op_free(x.val),
        SpecExpr::Call(c, args) => all_op_free(c.val) && all_ops_free(args),
        SpecExpr::UnaryOperation(..) => false,
        SpecExpr::BinaryOperation(l, op, r) => arith_op(op.val) is None && all_op_free(l.val) && all_op_free(r.val),
        SpecExpr::List(xs) => all_ops_free(xs),
        SpecExpr::Index(x, i) => all_op_free(x.val) && all_op_free(i.val),
        SpecExpr::Lambda(_, body) => stmts_op_free(body),
        SpecExpr::FieldAccess(x, _) => all_op_free(x.val),
        SpecExpr::MethodAccess(x, _, args) => all_op_free(x.val) && all_ops_free(args),
        _ => true,
    }
}

pub open spec fn all_ops_free(es: Seq<SpecLExpr>) -> bool
    decreases es,
{
    es.len() > 0 ==> all_op_free(es[0].val) && all_ops_free(es.subrange(1, es.len() as int))
}

/// Whether nothing can be folded anywhere in a statement.
pub open spec fn stmt_op_free(s: SpecStmt) -> bool
    decreases s,
{
    match s {
        SpecStmt::Expr(x) => all_op_free(x.val),
        SpecStmt::VarDecl(_, x) => all_op_free(x.val),
        SpecStmt::Assign(_, x) => all_op_free(x.val),
        SpecStmt::AssignIndex(a, b, c) => all_op_free(a.val) && all_op_free(b.val) && all_op_free(c.val),
        SpecStmt::Block(b) => stmts_op_free(b),
        SpecStmt::If(bs, els) => branches_op_free(bs) && match els {
            Some(b) => stmts_op_free(b),
            None => true,
        },
        SpecStmt::While(c, b) => all_op_free(c.val) && stmts_op_free(b),
        SpecStmt::FunDecl(_, _, b) => stmts_op_free(b),
        SpecStmt::OperatorDecl(_, _, b, _) => stmts_op_free(b),
        SpecStmt::Return(x) => all_op_free(x.val),
        SpecStmt::AssignStruct(a, _, b) => all_op_free(a.val) && all_op_free(b.val),
        SpecStmt::Impl(_, b) => stmts_op_free(b),
        _ => true,
    }
}

pub open spec fn stmts_op_free(ss: Seq<SpecLStmt>) -> bool
    decreases ss,
{
    ss.len() > 0 ==> stmt_op_free(ss[0].val) && stmts_op_free(ss.subrange(1, ss.len() as int))
}

pub open spec fn branches_op_free(bs: Seq<(SpecLExpr, Seq<SpecLStmt>)>) -> bool
    decreases bs,
{
    bs.len() > 0 ==> all_op_free(bs[0].0.val) && stmts_op_free(bs[0].1) && branches_op_free(
        bs.subrange(1, bs.len() as int),
    )
}

pub open spec fn name_atoms(ids: Seq<SpecIdent>) -> Seq<Atom> {
    ids.map_values(|p: SpecIdent| Atom::Name(p.val))
}

/// The names, literals and jumps of an expression in order, lambda bodies included; a binary
/// operation by its operator before its operands, as it is called.
pub open spec fn e_atoms(e: SpecExpr) -> Seq<Atom>
    decreases e,
{
    match e {
        SpecExpr::Unit => seq![Atom::Unit],
        SpecExpr::Int(n) => seq![Atom::Int(n)],
        SpecExpr::Float(t) => seq![Atom::Float(t)],
        SpecExpr::String(t) => seq![Atom::Str(t)],
        SpecExpr::Bool(b) => seq![Atom::Bool(b)],
        SpecExpr::Identifier(t) => seq![Atom::Name(t)],
        SpecExpr::Parens(x) => e_atoms(x.val),
        SpecExpr::Call(c, args) => e_atoms(c.val) + es_atoms(args),
        SpecExpr::UnaryOperation(op, x) => seq![Atom::Name(op.val)] + e_atoms(x.val),
        SpecExpr::BinaryOperation(l, op, r) => seq![Atom::Name(op.val)] + e_atoms(l.val) + e_atoms(r.val),
        SpecExpr::List(xs) => es_atoms(xs),
        SpecExpr::Index(x, i) => e_atoms(x.val) + e_atoms(i.val),
        SpecExpr::Lambda(ps, body) => name_atoms(ps) + ss_atoms(body),
        SpecExpr::FieldAccess(x, name) => e_atoms(x.val) + seq![Atom::Name(name.val)],
        SpecExpr::MethodAccess(x, name, args) => e_atoms(x.val) + seq![Atom::Name(name.val)] + es_atoms(args),
    }
}

pub open spec fn es_atoms(es: Seq<SpecLExpr>) -> Seq<Atom>
    decreases es,
{
    if es.len() == 0 {
        Seq::empty()
    } else {
        e_atoms(es[0].val) + es_atoms(es.subrange(1, es.len() as int))
    }
}

/// The names, literals and jumps of a statement in order, its blocks included; a function by
/// its name, its parameters and its body, and an `else` block as a last branch whose condition
/// is `true`.
pub open spec fn s_atoms(s: SpecStmt) -> Seq<Atom>
    decreases s,
{
    match s {
        SpecStmt::Expr(x) => e_atoms(x.val),
        SpecStmt::VarDecl(name, x) => seq![Atom::Name(name.val)] + e_atoms(x.val),
        SpecStmt::Assign(name, x) => seq![Atom::Name(name.val)] + e_atoms(x.val),
        SpecStmt::AssignIndex(a, b, c) => e_atoms(a.val) + e_atoms(b.val) + e_atoms(c.val),
        SpecStmt::Block(b) => ss_atoms(b),
        SpecStmt::If(bs, els) => bs_atoms(bs) + match els {
            Some(b) => seq![Atom::Bool(true)] + ss_atoms(b),
            None => Seq::empty(),
        },
        SpecStmt::While(c, b) => e_atoms(c.val) + ss_atoms(b),
        SpecStmt::FunDecl(name, ps, b) => seq![Atom::Name(name.val)] + name_atoms(ps) + ss_atoms(b),
        SpecStmt::OperatorDecl(name, ps, b, _) => seq![Atom::Name(name.val), Atom::Name(ps.0.val), Atom::Name(ps.1.val)]
            + ss_atoms(b),
        SpecStmt::Return(x) => e_atoms(x.val),
        SpecStmt::Break => seq![Atom::Break],
        SpecStmt::Continue => seq![Atom::Continue],
        SpecStmt::Struct(name, fs) => seq![Atom::Name(name.val)] + name_atoms(fs),
        SpecStmt::AssignStruct(a, name, b) => e_atoms(a.val) + seq![Atom::Name(name.val)] + e_atoms(b.val),
        SpecStmt::Impl(name, b) => seq![Atom::Name(name.val)] + ss_atoms(b),
    }
}

pub open spec fn ss_atoms(ss: Seq<SpecLStmt>) -> Seq<Atom>
    decreases ss,
{
    if ss.len() == 0 {
        Seq::empty()
    } else {
        s_atoms(ss[0].val) + ss_atoms(ss.subrange(1, ss.len() as int))
    }
}

pub open spec fn bs_atoms(bs: Seq<(SpecLExpr, Seq<SpecLStmt>)>) -> Seq<Atom>
    decreases bs,
{
    if bs.len() == 0 {
        Seq::empty()
    } else {
        e_atoms(bs[0].0.val) + ss_atoms(bs[0].1) + bs_atoms(bs.subrange(1, bs.len() as int))
    }
}

/// The names, literals and jumps of a lowered expression in order, lambda bodies included.
pub open spec fn le_atoms(e: SpecLowExpr) -> Seq<Atom>
    decreases e,
{
    match e {
        SpecLowExpr::Unit => seq![Atom::Unit],
        SpecLowExpr::Int(n) => seq![Atom::Int(n)],
        SpecLowExpr::Float(f) => seq![Atom::Float(float_text(f))],
        SpecLowExpr::String(t) => seq![Atom::Str(t)],
        SpecLowExpr::Bool(b) => seq![Atom::Bool(b)],
        SpecLowExpr::Identifier(t) => seq![Atom::Name(t)],
        SpecLowExpr::Call(c, args) => le_atoms(c.val) + les_atoms(args),
        SpecLowExpr::List(xs) => les_atoms(xs),
        SpecLowExpr::Index(x, i) => le_atoms(x.val) + le_atoms(i.val),
        SpecLowExpr::Lambda(ps, body) => name_atoms(ps) + lss_atoms(body),
        SpecLowExpr::FieldAccess(x, name) => le_atoms(x.val) + seq![Atom::Name(name.val)],
        SpecLowExpr::MethodAccess(x, name, args) => le_atoms(x.val) + seq![Atom::Name(name.val)] + les_atoms(args),
    }
}

pub open spec fn les_atoms(es: Seq<SpecLowLExpr>) -> Seq<Atom>
    decreases es,
{
    if es.len() == 0 {
        Seq::empty()
    } else {
        le_atoms(es[0].val) + les_atoms(es.subrange(1, es.len() as int))
    }
}

/// The names, literals and jumps of a lowered statement in order, its blocks included.
pub open spec fn ls_atoms(s: SpecLowStmt) -> Seq<Atom>
    decreases s,
{
    match s {
        SpecLowStmt::Expr(x) => le_atoms(x.val),
        SpecLowStmt::VarDecl(name, x) => seq![Atom::Name(name.val)] + le_atoms(x.val),
        SpecLowStmt::Assign(name, x) => seq![Atom::Name(name.val)] + le_atoms(x.val),
        SpecLowStmt::AssignIndex(a, b, c) => le_atoms(a.val) + le_atoms(b.val) + le_atoms(c.val),
        SpecLowStmt::Block(b) => lss_atoms(b),
        SpecLowStmt::If(bs) => lbs_atoms(bs),
        SpecLowStmt::While(c, b) => le_atoms(c.val) + lss_atoms(b),
        SpecLowStmt::Return(x) => le_atoms(x.val),
        SpecLowStmt::Break => seq![Atom::Break],
        SpecLowStmt::Continue => seq![Atom::Continue],
        SpecLowStmt::Struct(name, fs) => seq![Atom::Name(name.val)] + name_atoms(fs),
        SpecLowStmt::AssignStruct(a, name, b) => le_atoms(a.val) + seq![Atom::Name(name.val)] + le_atoms(b.val),
        SpecLowStmt::Impl(name, b) => seq![Atom::Name(name.val)] + lss_atoms(b),
    }
}

pub open spec fn lss_atoms(ss: Seq<SpecLowLStmt>) -> Seq<Atom>
    decreases ss,
{
    if ss.len() == 0 {
        Seq::empty()
    } else {
        ls_atoms(ss[0].val) + lss_atoms(ss.subrange(1, ss.len() as int))
    }
}

pub open spec fn lbs_atoms(bs: Seq<(SpecLowLExpr, Seq<SpecLowLStmt>)>) -> Seq<Atom>
    decreases bs,
{
    if bs.len() == 0 {
        Seq::empty()
    } else {
        le_atoms(bs[0].0.val) + lss_atoms(bs[0].1) + lbs_atoms(bs.subrange(1, bs.len() as int))
    }
}

proof fn lemma_lbs_atoms_push(bs: Seq<(SpecLowLExpr, Seq<SpecLowLStmt>)>, x: (SpecLowLExpr, Seq<SpecLowLStmt>))
    ensures
        lbs_atoms(bs.push(x)) == lbs_atoms(bs) + le_atoms(x.0.val) + lss_atoms(x.1),
    decreases bs.len(),
{
    if bs.len() == 0 {
        assert(bs.push(x).subrange(1, 1) =~= Seq::<(SpecLowLExpr, Seq<SpecLowLStmt>)>::empty());
        assert(bs.push(x)[0] == x);
        assert(lbs_atoms(Seq::<(SpecLowLExpr, Seq<SpecLowLStmt>)>::empty()) == Seq::<Atom>::empty());
        assert(bs =~= Seq::<(SpecLowLExpr, Seq<SpecLowLStmt>)>::empty());
        assert(lbs_atoms(bs.push(x)) == le_atoms(x.0.val) + lss_atoms(x.1) + lbs_atoms(bs.push(x).subrange(1, 1)));
        assert(lbs_atoms(bs.push(x)) =~= lbs_atoms(bs) + le_atoms(x.0.val) + lss_atoms(x.1));
    } else {
        assert(bs.push(x).subrange(1, bs.len() + 1int) =~= bs.subrange(1, bs.len() as int).push(x));
        assert(bs.push(x)[0] == bs[0]);
        lemma_lbs_atoms_push(bs.subrange(1, bs.len() as int), x);
        assert(lbs_atoms(bs.push(x)) =~= lbs_atoms(bs) + le_atoms(x.0.val) + lss_atoms(x.1));
    }
}

proof fn lemma_low_binary_atoms(l2: SpecLowLExpr, op: SpecIdent, r2: SpecLowLExpr, loc: Location)
    ensures
        le_atoms(call_of(op.val, op.loc, seq![l2, r2], loc).val) == seq![Atom::Name(op.val)] + le_atoms(l2.val) + le_atoms(r2.val),
{
    let args = seq![l2, r2];
    let tail = args.subrange(1, 2);
    assert(tail =~= seq![r2]);
    assert(tail.subrange(1, 1) =~= Seq::<SpecLowLExpr>::empty());
    assert(les_atoms(Seq::<SpecLowLExpr>::empty()) == Seq::<Atom>::empty());
    assert(les_atoms(tail) == le_atoms(tail[0].val) + les_atoms(tail.subrange(1, 1)));
    assert(les_atoms(tail) =~= le_atoms(r2.val));
    let callee = Located { val: SpecLowExpr::Identifier(op.val), loc: op.loc };
    assert(le_atoms(callee.val) == seq![Atom::Name(op.val)]);
    assert(les_atoms(args) == le_atoms(l2.val) + les_atoms(tail));
    assert(le_atoms(call_of(op.val, op.loc, args, loc).val) =~= seq![Atom::Name(op.val)] + le_atoms(l2.val) + le_atoms(r2.val));
}

pub proof fn lemma_e_atoms(e: SpecLExpr)
    requires
        all_op_free(e.val),
    ensures
        s_expr(e) matches Ok(y) ==> le_atoms(y.val) == e_atoms(e.val),
    decreases esize(e), 1int,
{
    match e.val {
        SpecExpr::Parens(x) => lemma_e_atoms(*x),
        SpecExpr::BinaryOperation(l, op, r) => {
            lemma_e_atoms(*l);
            lemma_e_atoms(*r);
            if let (Ok(l2), Ok(r2)) = (s_expr(*l), s_expr(*r)) {
                assert(s_binary(l2, op, r2, e.loc) == Ok::<SpecLowLExpr, SpecError>(call_of(op.val, op.loc, seq![l2, r2], e.loc)));
                lemma_low_binary_atoms(l2, op, r2, e.loc);
            }
        },
        SpecExpr::Call(c, args) => {
            lemma_e_atoms(*c);
            lemma_es_atoms(args);
        },
        SpecExpr::List(xs) => lemma_es_atoms(xs),
        SpecExpr::Index(x, i) => {
            lemma_e_atoms(*x);
            lemma_e_atoms(*i);
        },
        SpecExpr::Lambda(_, body) => lemma_ss_atoms(body),
        SpecExpr::FieldAccess(x, _) => lemma_e_atoms(*x),
        SpecExpr::MethodAccess(x, _, args) => {
            lemma_e_atoms(*x);
            lemma_es_atoms(args);
        },
        SpecExpr::Float(t) => {
            assert(float_text(SpecFloatConst::Literal(t)) == t);
        },
        _ => {},
    }
}

pub proof fn lemma_es_atoms(es: Seq<SpecLExpr>)
    requires
        all_ops_free(es),
    ensures
        s_exprs(es) matches Ok(ys) ==> les_atoms(ys) == es_atoms(es),
    decreases esizes(es), 2int,
{
    if es.len() > 0 {
        lemma_esize_pos(es[0]);
        lemma_e_atoms(es[0]);
        let rest = es.subrange(1, es.len() as int);
        lemma_es_atoms(rest);
        if let (Ok(x), Ok(xs)) = (s_expr(es[0]), s_exprs(rest)) {
            let ys = seq![x] + xs;
            assert(ys[0] == x);
            assert(ys.subrange(1, ys.len() as int) =~= xs);
        }
    }
}

pub proof fn lemma_ss_atoms(ss: Seq<SpecLStmt>)
    requires
        stmts_op_free(ss),
    ensures
        s_stmts(ss) matches Ok(ys) ==> lss_atoms(ys) == ss_atoms(ss),
    decreases ssizes(ss), 2int,
{
    if ss.len() > 0 {
        lemma_ssize_pos(ss[0]);
        lemma_s_atoms(ss[0]);
        let rest = ss.subrange(1, ss.len() as int);
        lemma_ss_atoms(rest);
        if let (Ok(x), Ok(xs)) = (s_stmt(ss[0]), s_stmts(rest)) {
            let ys = seq![x] + xs;
            assert(ys[0] == x);
            assert(ys.subrange(1, ys.len() as int) =~= xs);
        }
    }
}

pub proof fn lemma_bs_atoms(bs: Seq<(SpecLExpr, Seq<SpecLStmt>)>)
    requires
        branches_op_free(bs),
    ensures
        s_branches(bs) matches Ok(ys) ==> lbs_atoms(ys) == bs_atoms(bs),
    decreases bsizes(bs), 2int,
{
    if bs.len() > 0 {
        lemma_esize_pos(bs[0].0);
        lemma_ss_atoms(bs[0].1);
        lemma_e_atoms(bs[0].0);
        let rest = bs.subrange(1, bs.len() as int);
        lemma_bs_atoms(rest);
        if let (Ok(block), Ok(cond), Ok(xs)) = (s_stmts(bs[0].1), s_expr(bs[0].0), s_branches(rest)) {
            let ys = seq![(cond, block)] + xs;
            assert(ys[0] == (cond, block));
            assert(ys.subrange(1, ys.len() as int) =~= xs);
            assert(lbs_atoms(ys) =~= bs_atoms(bs));
        }
    }
}

pub proof fn lemma_fun_atoms(name: SpecIdent, ps: Seq<SpecIdent>, body: Seq<SpecLStmt>, loc: Location)
    requires
        stmts_op_free(body),
    ensures
        s_fun(name, ps, body, loc) matches Ok(y) ==> ls_atoms(y.val) == seq![Atom::Name(name.val)] + name_atoms(ps)
            + ss_atoms(body),
    decreases ssizes(body), 3int,
{
    lemma_ss_atoms(body);
    if let Ok(b2) = s_stmts(body) {
        assert(ls_atoms(s_fun(name, ps, body, loc)->Ok_0.val) =~= seq![Atom::Name(name.val)] + name_atoms(ps) + ss_atoms(body));
    }
}

pub proof fn lemma_s_atoms(s: SpecLStmt)
    requires
        stmt_op_free(s.val),
    ensures
        s_stmt(s) matches Ok(y) ==> ls_atoms(y.val) == s_atoms(s.val),
    decreases ssize(s), 1int,
{
    match s.val {
        SpecStmt::Expr(x) => lemma_e_atoms(x),
        SpecStmt::VarDecl(_, x) => lemma_e_atoms(x),
        SpecStmt::Assign(_, x) => lemma_e_atoms(x),
        SpecStmt::AssignIndex(a, b, c) => {
            lemma_e_atoms(a);
            lemma_e_atoms(b);
            lemma_e_atoms(c);
            assert(s_stmt(s) matches Ok(y) ==> ls_atoms(y.val) =~= s_atoms(s.val));
        },
        SpecStmt::Block(b) => lemma_ss_atoms(b),
        SpecStmt::If(bs, els) => {
            lemma_bs_atoms(bs);
            if let Ok(bs2) = s_branches(bs) {
                match els {
                    Some(eb) => {
                        lemma_ss_atoms(eb);
                        if let Ok(eb2) = s_stmts(eb) {
                            let t = Located { val: SpecLowExpr::Bool(true), loc: s.loc };
                            lemma_lbs_atoms_push(bs2, (t, eb2));
                            assert(le_atoms(t.val) == seq![Atom::Bool(true)]);
                            assert(s_stmt(s) matches Ok(y) ==> ls_atoms(y.val) =~= s_atoms(s.val));
                        }
                    },
                    None => {
                        assert(s_stmt(s) matches Ok(y) ==> ls_atoms(y.val) =~= s_atoms(s.val));
                    },
                }
            }
        },
        SpecStmt::While(c, b) => {
            lemma_e_atoms(c);
            lemma_ss_atoms(b);
        },
        SpecStmt::FunDecl(name, ps, b) => lemma_fun_atoms(name, ps, b, s.loc),
        SpecStmt::OperatorDecl(name, ps, b, _) => {
            lemma_fun_atoms(name, seq![ps.0, ps.1], b, s.loc);
            assert(name_atoms(seq![ps.0, ps.1]) =~= seq![Atom::Name(ps.0.val), Atom::Name(ps.1.val)]);
            assert(s_stmt(s) matches Ok(y) ==> ls_atoms(y.val) =~= s_atoms(s.val));
        },
        SpecStmt::Return(x) => lemma_e_atoms(x),
        SpecStmt::AssignStruct(a, _, b) => {
            lemma_e_atoms(a);
            lemma_e_atoms(b);
        },
        SpecStmt::Impl(_, b) => lemma_ss_atoms(b),
        _ => {},
    }
}

/// Lowering a program in which nothing can be folded keeps its names, literals and jumps in
/// order, at every depth: each statement keeps its parts in place, a function becomes the
/// binding of a lambda with its name, parameters and body, and an `else` block a last branch
/// whose condition is `true`.
pub proof fn law_lowering_keeps_program_atoms(ss: Seq<SpecLStmt>)
    requires
        stmts_op_free(ss),
    ensures
        s_stmts(ss) matches Ok(ys) ==> lss_atoms(ys) == ss_atoms(ss),
{
    lemma_ss_atoms(ss);
}

// ---------------------------------------------------------------------------
// Implementation
// ---------------------------------------------------------------------------

pub open spec fn rv_low_expr(r: Result<LExpr, Error>) -> Result<SpecLowLExpr, SpecError> {
    match r {
        Ok(x) => Ok(low_lexpr_view(x)),
        Err(e) => Err(e@),
    }
}

pub open spec fn rv_low_exprs(r: Result<Vec<LExpr>, Error>) -> Result<Seq<SpecLowLExpr>, SpecError> {
    match r {
        Ok(x) => Ok(low_lexprs_view(x@)),
        Err(e) => Err(e@),
    }
}

pub open spec fn rv_low_stmt(r: Result<LStmt, Error>) -> Result<SpecLowLStmt, SpecError> {
    match r {
        Ok(x) => Ok(low_lstmt_view(x)),
        Err(e) => Err(e@),
    }
}

pub open spec fn rv_low_stmts(r: Result<Vec<LStmt>, Error>) -> Result<Seq<SpecLowLStmt>, SpecError> {
    match r {
        Ok(x) => Ok(low_lstmts_view(x@)),
        Err(e) => Err(e@),
    }
}

pub open spec fn rv_low_branches(r: Result<Vec<(LExpr, Vec<LStmt>)>, Error>) -> Result<Seq<(SpecLowLExpr, Seq<SpecLowLStmt>)>, SpecError> {
    match r {
        Ok(x) => Ok(low_branches_view(x@)),
        Err(e) => Err(e@),
    }
}

pub proof fn lemma_then_prepend<V>(done: Seq<V>, x: V, r: Result<Seq<V>, SpecError>)
    ensures
        then_prepend(done, then_prepend(seq![x], r)) == then_prepend(done.push(x), r),
{
    match r {
        Ok(v) => {
            assert(done + (seq![x] + v) =~= done.push(x) + v);
        },
        Err(_) => {},
    }
}

/// The single character of a name, if it has exactly one.
fn single_char(name: &String) -> (r: Option<char>)
    ensures
        r == (if name@.len() == 1 { Some(name@[0]) } else { None::<char> }),
{
    let cs = chars_of(name.as_str());
    if cs.len() == 1 {
        Some(cs[0])
    } else {
        None
    }
}

/// The operator a name stands for when it is one of `+ - * / %`.
fn arith_op_of(name: &String) -> (r: Option<char>)
    ensures
        r == arith_op(name@),
{
    match single_char(name) {
        Some(c) => if c == '+' || c == '-' || c == '*' || c == '/' || c == '%' {
            Some(c)
        } else {
            None
        },
        None => None,
    }
}

fn int_fold_exec(op: char, a: i32, b: i32) -> (r: Option<i32>)
    ensures
        r == int_fold(op, a, b),
{
    if op == '+' {
        a.checked_add(b)
    } else if op == '-' {
        a.checked_sub(b)
    } else if op == '*' {
        a.checked_mul(b)
    } else if op == '/' {
        a.checked_div(b)
    } else {
        a.checked_rem(b)
    }
}

fn fold_fault_exec(op: char, b: i32) -> (r: String)
    ensures
        r@ == fold_fault(op, b),
{
    if op == '+' {
        string_from("attempt to add with overflow")
    } else if op == '-' {
        string_from("attempt to subtract with overflow")
    } else if op == '*' {
        string_from("attempt to multiply with overflow")
    } else if op == '/' {
        if b == 0 {
            string_from("attempt to divide by zero")
        } else {
            string_from("attempt to divide with overflow")
        }
    } else if b == 0 {
        string_from("attempt to calculate the remainder with a divisor of zero")
    } else {
        string_from("attempt to calculate the remainder with overflow")
    }
}

/// The integer operation `a op b`, for `op` one of `+ - * / %`, as the built-in operators
/// compute it: its value, or the message of the arithmetic fault when it overflows or divides
/// by zero.
pub fn int_arith(op: char, a: i32, b: i32) -> (r: Result<i32, String>)
    requires
        op == '+' || op == '-' || op == '*' || op == '/' || op == '%',
    ensures
        r matches Ok(v) ==> int_fold(op, a, b) == Some(v),
        r matches Err(m) ==> int_fold(op, a, b) is None && m@ == fold_fault(op, b),
        r is Ok <==> int_fold(op, a, b) is Some,
{
    match int_fold_exec(op, a, b) {
        Some(v) => Ok(v),
        None => Err(fold_fault_exec(op, b)),
    }
}

/// The call of the function named `op` with `args`.
fn call_exec(op: String, oploc: Location, args: Vec<LExpr>, loc: Location) -> (r: LExpr)
    ensures
        low_lexpr_view(r) == call_of(op@, oploc, low_lexprs_view(args@), loc),
{
    let callee = Located { val: Expr::Identifier(op), loc: oploc };
    assert(low_lexpr_view(callee) == Located { val: SpecLowExpr::Identifier(callee.val->Identifier_0@), loc: oploc });
    Located { val: Expr::Call(Box::new(callee), args), loc }
}

fn two(a: LExpr, b: LExpr) -> (r: Vec<LExpr>)
    ensures
        low_lexprs_view(r@) == seq![low_lexpr_view(a), low_lexpr_view(b)],
{
    let mut v: Vec<LExpr> = Vec::new();
    v.push(a);
    v.push(b);
    assert(low_lexprs_view(v@) =~= seq![low_lexpr_view(a), low_lexpr_view(b)]);
    v
}

fn one(a: LExpr) -> (r: Vec<LExpr>)
    ensures
        low_lexprs_view(r@) == seq![low_lexpr_view(a)],
{
    let mut v: Vec<LExpr> = Vec::new();
    v.push(a);
    assert(low_lexprs_view(v@) =~= seq![low_lexpr_view(a)]);
    v
}

/// `l op r` on lowered operands.
fn lower_binary(l: LExpr, op: exprstmt::Symbol, r: LExpr, loc: Location) -> (res: Result<LExpr, Error>)
    ensures
        rv_low_expr(res) == s_binary(low_lexpr_view(l), op@, low_lexpr_view(r), loc),
{
    let c = arith_op_of(&op.val);
    match (&l.val, &r.val, c) {
        (Expr::Int(a), Expr::Int(b), Some(c)) => match int_fold_exec(c, *a, *b) {
            Some(v) => Ok(Located { val: Expr::Int(v), loc }),
            None => Err(error_on(ErrorType::OtherError(fold_fault_exec(c, *b)), loc)),
        },
        (Expr::Float(_), Expr::Float(_), Some(c)) => match (l.val, r.val) {
            (Expr::Float(a), Expr::Float(b)) => Ok(
                Located { val: Expr::Float(FloatConst::Arith(c, Box::new(a), Box::new(b))), loc },
            ),
            (lv, rv) => Ok(call_exec(op.val, op.loc, two(Located { val: lv, loc: l.loc }, Located { val: rv, loc: r.loc }), loc)),
        },
        _ => Ok(call_exec(op.val, op.loc, two(l, r), loc)),
    }
}

/// `op x` on a lowered operand.
fn lower_unary(op: exprstmt::Symbol, x: LExpr, loc: Location) -> (res: Result<LExpr, Error>)
    ensures
        rv_low_expr(res) == s_unary(op@, low_lexpr_view(x), loc),
{
    let c = single_char(&op.val);
    let minus = c == Some('-');
    let not = c == Some('!');
    proof {
        if minus {
            assert(op.val@ =~= seq!['-']);
        }
        if not {
            assert(op.val@ =~= seq!['!']);
        }
    }
    match (&x.val, minus, not) {
        (Expr::Int(n), true, _) => match 0i32.checked_sub(*n) {
            Some(v) => Ok(Located { val: Expr::Int(v), loc }),
            None => Err(error_on(ErrorType::OtherError(string_from("attempt to negate with overflow")), loc)),
        },
        (Expr::Float(_), true, _) => match x.val {
            Expr::Float(f) => Ok(Located { val: Expr::Float(FloatConst::Neg(Box::new(f))), loc }),
            _ => Ok(call_exec(string_from("$$neg"), op.loc, one(x), loc)),
        },
        (Expr::Bool(b), _, true) => Ok(Located { val: Expr::Bool(!*b), loc }),
        _ => if not {
            Ok(call_exec(string_from("$$not"), op.loc, one(x), loc))
        } else if minus {
            Ok(call_exec(string_from("$$neg"), op.loc, one(x), loc))
        } else {
            Err(error_on(ErrorType::OtherError(string_from("internal error: entered unreachable code")), op.loc))
        },
    }
}

fn lower_expr(e: exprstmt::LExpr) -> (r: Result<LExpr, Error>)
    ensures
        rv_low_expr(r) == s_expr(lexpr_view(e)),
    decreases esize(lexpr_view(e)), 1int,
{
    let loc = e.loc;
    match e.val {
        exprstmt::Expr::Unit => Ok(Located { val: Expr::Unit, loc }),
        exprstmt::Expr::Int(n) => Ok(Located { val: Expr::Int(n), loc }),
        exprstmt::Expr::Float(t) => Ok(Located { val: Expr::Float(FloatConst::Literal(t)), loc }),
        exprstmt::Expr::String(t) => Ok(Located { val: Expr::String(t), loc }),
        exprstmt::Expr::Bool(b) => Ok(Located { val: Expr::Bool(b), loc }),
        exprstmt::Expr::Identifier(t) => Ok(Located { val: Expr::Identifier(t), loc }),
        exprstmt::Expr::Parens(x) => lower_expr(*x),
        exprstmt::Expr::Call(c, args) => {
            let c2 = match lower_expr(*c) {
                Ok(y) => y,
                Err(er) => {
                    return Err(er);
                },
            };
            match lower_exprs(args) {
                Ok(args2) => Ok(Located { val: Expr::Call(Box::new(c2), args2), loc }),
                Err(er) => Err(er),
            }
        },
        exprstmt::Expr::UnaryOperation(op, x) => match lower_expr(*x) {
            Ok(x2) => lower_unary(op, x2, loc),
            Err(er) => Err(er),
        },
        exprstmt::Expr::BinaryOperation(l, op, r) => {
            let l2 = match lower_expr(*l) {
                Ok(y) => y,
                Err(er) => {
                    return Err(er);
                },
            };
            match lower_expr(*r) {
                Ok(r2) => lower_binary(l2, op, r2, loc),
                Err(er) => Err(er),
            }
        },
        exprstmt::Expr::List(xs) => match lower_exprs(xs) {
            Ok(ys) => Ok(Located { val: Expr::List(ys), loc }),
            Err(er) => Err(er),
        },
        exprstmt::Expr::Index(x, i) => {
            let x2 = match lower_expr(*x) {
                Ok(y) => y,
                Err(er) => {
                    return Err(er);
                },
            };
            match lower_expr(*i) {
                Ok(i2) => Ok(Located { val: Expr::Index(Box::new(x2), Box::new(i2)), loc }),
                Err(er) => Err(er),
            }
        },
        exprstmt::Expr::Lambda(ps, body) => match lower_stmts(body) {
            Ok(b2) => Ok(Located { val: Expr::Lambda(ps, b2), loc }),
            Err(er) => Err(er),
        },
        exprstmt::Expr::FieldAccess(x, name) => match lower_expr(*x) {
            Ok(x2) => Ok(Located { val: Expr::FieldAccess(Box::new(x2), name), loc }),
            Err(er) => Err(er),
        },
        exprstmt::Expr::MethodAccess(x, name, args) => {
            let x2 = match lower_expr(*x) {
                Ok(y) => y,
                Err(er) => {
                    return Err(er);
                },
            };
            match lower_exprs(args) {
                Ok(args2) => Ok(Located { val: Expr::MethodAccess(Box::new(x2), name, args2), loc }),
                Err(er) => Err(er),
            }
        },
    }
}

fn lower_exprs(es: Vec<exprstmt::LExpr>) -> (r: Result<Vec<LExpr>, Error>)
    ensures
        rv_low_exprs(r) == s_exprs(lexprs_view(es@)),
    decreases esizes(lexprs_view(es@)), 2int,
{
    let ghost s0 = lexprs_view(es@);
    let mut rest = es;
    let mut out: Vec<LExpr> = Vec::new();
    assert(low_lexprs_view(out@) =~= Seq::<SpecLowLExpr>::empty());
    assert(then_prepend(low_lexprs_view(out@), s_exprs(s0)) =~= s_exprs(s0)) by {
        match s_exprs(s0) {
            Ok(v) => {
                assert(Seq::<SpecLowLExpr>::empty() + v =~= v);
            },
            Err(_) => {},
        }
    }
    while rest.len() > 0
        invariant
            s0 == lexprs_view(es@),
            s_exprs(s0) == then_prepend(low_lexprs_view(out@), s_exprs(lexprs_view(rest@))),
            esizes(lexprs_view(rest@)) <= esizes(s0),
        decreases rest@.len(),
    {
        let ghost rs = rest@;
        let ghost rv = lexprs_view(rs);
        let x = rest.remove(0);
        assert(rest@ =~= rs.subrange(1, rs.len() as int));
        assert(lexprs_view(rest@) =~= rv.subrange(1, rv.len() as int));
        assert(rv[0] == lexpr_view(x));
        assert(esizes(rv) == esize(rv[0]) + esizes(rv.subrange(1, rv.len() as int)));
        let ghost pre = low_lexprs_view(out@);
        match lower_expr(x) {
            Ok(y) => {
                out.push(y);
                assert(low_lexprs_view(out@) =~= pre.push(low_lexpr_view(y)));
                proof {
                    lemma_then_prepend(pre, low_lexpr_view(y), s_exprs(lexprs_view(rest@)));
                }
            },
            Err(er) => {
                return Err(er);
            },
        }
    }
    assert(low_lexprs_view(out@) + Seq::<SpecLowLExpr>::empty() =~= low_lexprs_view(out@));
    assert(lexprs_view(rest@) =~= Seq::<SpecLExpr>::empty());
    Ok(out)
}

fn lower_stmts(ss: Vec<exprstmt::LStmt>) -> (r: Result<Vec<LStmt>, Error>)
    ensures
        rv_low_stmts(r) == s_stmts(lstmts_view(ss@)),
    decreases ssizes(lstmts_view(ss@)), 2int,
{
    let ghost s0 = lstmts_view(ss@);
    let mut rest = ss;
    let mut out: Vec<LStmt> = Vec::new();
    assert(low_lstmts_view(out@) =~= Seq::<SpecLowLStmt>::empty());
    assert(then_prepend(low_lstmts_view(out@), s_stmts(s0)) =~= s_stmts(s0)) by {
        match s_stmts(s0) {
            Ok(v) => {
                assert(Seq::<SpecLowLStmt>::empty() + v =~= v);
            },
            Err(_) => {},
        }
    }
    while rest.len() > 0
        invariant
            s0 == lstmts_view(ss@),
            s_stmts(s0) == then_prepend(low_lstmts_view(out@), s_stmts(lstmts_view(rest@))),
            ssizes(lstmts_view(rest@)) <= ssizes(s0),
        decreases rest@.len(),
    {
        let ghost rs = rest@;
        let ghost rv = lstmts_view(rs);
        let x = rest.remove(0);
        assert(rest@ =~= rs.subrange(1, rs.len() as int));
        assert(lstmts_view(rest@) =~= rv.subrange(1, rv.len() as int));
        assert(rv[0] == lstmt_view(x));
        assert(ssizes(rv) == ssize(rv[0]) + ssizes(rv.subrange(1, rv.len() as int)));
        let ghost pre = low_lstmts_view(out@);
        match lower_stmt(x) {
            Ok(y) => {
                out.push(y);
                assert(low_lstmts_view(out@) =~= pre.push(low_lstmt_view(y)));
                proof {
                    lemma_then_prepend(pre, low_lstmt_view(y), s_stmts(lstmts_view(rest@)));
                }
            },
            Err(er) => {
                return Err(er);
            },
        }
    }
    assert(low_lstmts_view(out@) + Seq::<SpecLowLStmt>::empty() =~= low_lstmts_view(out@));
    assert(lstmts_view(rest@) =~= Seq::<SpecLStmt>::empty());
    Ok(out)
}

fn lower_branches(bs: Vec<(exprstmt::LExpr, Vec<exprstmt::LStmt>)>) -> (r: Result<Vec<(LExpr, Vec<LStmt>)>, Error>)
    ensures
        rv_low_branches(r) == s_branches(branches_view(bs@)),
    decreases bsizes(branches_view(bs@)), 2int,
{
    let ghost s0 = branches_view(bs@);
    let mut rest = bs;
    let mut out: Vec<(LExpr, Vec<LStmt>)> = Vec::new();
    assert(low_branches_view(out@) =~= Seq::<(SpecLowLExpr, Seq<SpecLowLStmt>)>::empty());
    assert(then_prepend(low_branches_view(out@), s_branches(s0)) =~= s_branches(s0)) by {
        match s_branches(s0) {
            Ok(v) => {
                assert(Seq::<(SpecLowLExpr, Seq<SpecLowLStmt>)>::empty() + v =~= v);
            },
            Err(_) => {},
        }
    }
    while rest.len() > 0
        invariant
            s0 == branches_view(bs@),
            s_branches(s0) == then_prepend(low_branches_view(out@), s_branches(branches_view(rest@))),
            bsizes(branches_view(rest@)) <= bsizes(s0),
        decreases rest@.len(),
    {
        let ghost rs = rest@;
        let ghost rv = branches_view(rs);
        let (c, b) = rest.remove(0);
        assert(rest@ =~= rs.subrange(1, rs.len() as int));
        assert(branches_view(rest@) =~= rv.subrange(1, rv.len() as int));
        assert(rv[0] == (lexpr_view(c), lstmts_view(b@)));
        assert(bsizes(rv) == esize(rv[0].0) + ssizes(rv[0].1) + bsizes(rv.subrange(1, rv.len() as int)));
        proof {
            lemma_esize_pos(rv[0].0);
        }
        let ghost pre = low_branches_view(out@);
        let b2 = match lower_stmts(b) {
            Ok(y) => y,
            Err(er) => {
                return Err(er);
            },
        };
        match lower_expr(c) {
            Ok(c2) => {
                let ghost item = (low_lexpr_view(c2), low_lstmts_view(b2@));
                out.push((c2, b2));
                assert(low_branches_view(out@) =~= pre.push(item));
                proof {
                    lemma_then_prepend(pre, item, s_branches(branches_view(rest@)));
                }
            },
            Err(er) => {
                return Err(er);
            },
        }
    }
    assert(low_branches_view(out@) + Seq::<(SpecLowLExpr, Seq<SpecLowLStmt>)>::empty() =~= low_branches_view(out@));
    assert(branches_view(rest@) =~= Seq::<(SpecLExpr, Seq<SpecLStmt>)>::empty());
    Ok(out)
}

/// A function as the binding of a lambda.
fn lower_fun(name: exprstmt::Identifier, ps: Vec<exprstmt::Identifier>, body: Vec<exprstmt::LStmt>, loc: Location) -> (r: Result<LStmt, Error>)
    ensures
        rv_low_stmt(r) == s_fun(name@, idents_view(ps@), lstmts_view(body@), loc),
    decreases ssizes(lstmts_view(body@)), 3int,
{
    match lower_stmts(body) {
        Ok(b2) => {
            let lam = Located { val: Expr::Lambda(ps, b2), loc };
            assert(low_lexpr_view(lam) == Located { val: SpecLowExpr::Lambda(idents_view(ps@), low_lstmts_view(b2@)), loc });
            Ok(Located { val: Stmt::VarDecl(name, lam), loc })
        },
        Err(er) => Err(er),
    }
}

fn lower_stmt(s: exprstmt::LStmt) -> (r: Result<LStmt, Error>)
    ensures
        rv_low_stmt(r) == s_stmt(lstmt_view(s)),
    decreases ssize(lstmt_view(s)), 1int,
{
    let loc = s.loc;
    match s.val {
        exprstmt::Stmt::Expr(x) => match lower_expr(x) {
            Ok(y) => Ok(Located { val: Stmt::Expr(y), loc }),
            Err(er) => Err(er),
        },
        exprstmt::Stmt::VarDecl(id, x) => match lower_expr(x) {
            Ok(y) => Ok(Located { val: Stmt::VarDecl(id, y), loc }),
            Err(er) => Err(er),
        },
        exprstmt::Stmt::Assign(id, x) => match lower_expr(x) {
            Ok(y) => Ok(Located { val: Stmt::Assign(id, y), loc }),
            Err(er) => Err(er),
        },
        exprstmt::Stmt::AssignIndex(x, i, v) => {
            let x2 = match lower_expr(x) {
                Ok(y) => y,
                Err(er) => {
                    return Err(er);
                },
            };
            let i2 = match lower_expr(i) {
                Ok(y) => y,
                Err(er) => {
                    return Err(er);
                },
            };
            match lower_expr(v) {
                Ok(v2) => Ok(Located { val: Stmt::AssignIndex(x2, i2, v2), loc }),
                Err(er) => Err(er),
            }
        },
        exprstmt::Stmt::Block(b) => match lower_stmts(b) {
            Ok(b2) => Ok(Located { val: Stmt::Block(b2), loc }),
            Err(er) => Err(er),
        },
        exprstmt::Stmt::If(bs, els) => {
            let mut bs2 = match lower_branches(bs) {
                Ok(y) => y,
                Err(er) => {
                    return Err(er);
                },
            };
            match els {
                None => Ok(Located { val: Stmt::If(bs2), loc }),
                Some(eb) => match lower_stmts(eb) {
                    Ok(eb2) => {
                        let ghost pre = low_branches_view(bs2@);
                        let ghost item = (Located { val: SpecLowExpr::Bool(true), loc }, low_lstmts_view(eb2@));
                        bs2.push((Located { val: Expr::Bool(true), loc }, eb2));
                        assert(low_branches_view(bs2@) =~= pre.push(item));
                        Ok(Located { val: Stmt::If(bs2), loc })
                    },
                    Err(er) => Err(er),
                },
            }
        },
        exprstmt::Stmt::While(c, b) => {
            let b2 = match lower_stmts(b) {
                Ok(y) => y,
                Err(er) => {
                    return Err(er);
                },
            };
            match lower_expr(c) {
                Ok(c2) => Ok(Located { val: Stmt::While(c2, b2), loc }),
                Err(er) => Err(er),
            }
        },
        exprstmt::Stmt::FunDecl(name, ps, b) => lower_fun(name, ps, b, loc),
        exprstmt::Stmt::OperatorDecl(name, ps, b, _) => {
            let (p1, p2) = ps;
            let mut params: Vec<exprstmt::Identifier> = Vec::new();
            let ghost v1 = p1@;
            let ghost v2 = p2@;
            params.push(p1);
            params.push(p2);
            assert(idents_view(params@) =~= seq![v1, v2]);
            lower_fun(name, params, b, loc)
        },
        exprstmt::Stmt::Return(x) => match lower_expr(x) {
            Ok(y) => Ok(Located { val: Stmt::Return(y), loc }),
            Err(er) => Err(er),
        },
        exprstmt::Stmt::Break => Ok(Located { val: Stmt::Break, loc }),
        exprstmt::Stmt::Continue => Ok(Located { val: Stmt::Continue, loc }),
        exprstmt::Stmt::Struct(name, fs) => Ok(Located { val: Stmt::Struct(name, fs), loc }),
        exprstmt::Stmt::AssignStruct(x, name, v) => {
            let x2 = match lower_expr(x) {
                Ok(y) => y,
                Err(er) => {
                    return Err(er);
                },
            };
            match lower_expr(v) {
                Ok(v2) => Ok(Located { val: Stmt::AssignStruct(x2, name, v2), loc }),
                Err(er) => Err(er),
            }
        },
        exprstmt::Stmt::Impl(name, b) => match lower_stmts(b) {
            Ok(b2) => Ok(Located { val: Stmt::Impl(name, b2), loc }),
            Err(er) => Err(er),
        },
    }
}

/// The lowering of a program.
pub struct Simplifier;

impl Simplifier {
    /// Lowers the statements of a program in order; gives the first error met.
    pub fn simplify(&mut self, ast: Vec<exprstmt::LStmt>) -> (r: Result<Vec<LStmt>, Error>)
        ensures
            rv_low_stmts(r) == s_stmts(lstmts_view(ast@)),
    {
        lower_stmts(ast)
    }
}

/// Lowers a program: operators become calls (integer literals folded), functions become
/// lambdas bound to their names, parentheses go, and an `else` block becomes a last branch
/// whose condition is `true`. Gives the first error met: an integer fold that overflows or
/// divides by zero, or a unary operator other than `-` and `!`.
pub fn simplify(ast: Vec<exprstmt::LStmt>) -> (r: Result<Vec<LStmt>, Error>)
    ensures
        rv_low_stmts(r) == s_stmts(lstmts_view(ast@)),
{
    Simplifier.simplify(ast)
}

} // verus!
