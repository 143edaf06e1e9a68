use crate::environment::{
    entries_view, lookup, assign, position, scope_from_pairs, scope_get, Environment, ScopeView,
};
use crate::error::{err_on, err_on2, error_on, error_on2, Error, ErrorType, SpecError, SpecErrorType};
use crate::exprstmt::{
    branches_view, idents_view, lexpr_view, lexprs_view, lstmt_view, lstmts_view, Expr, Identifier, LExpr,
    LStmt, SpecExpr, SpecIdent, SpecLExpr, SpecLStmt, SpecStmt, Stmt,
};
use crate::frontend::lexer::errors_view;
use crate::frontend::reassoc::{bsizes, esize, esizes, lemma_esize_pos, lemma_ssize_pos, ssize, ssizes};
use crate::located::{Located, Location};
use vstd::prelude::*;

verus! {

// ---------------------------------------------------------------------------
// Checking the names a program uses
// ---------------------------------------------------------------------------
//
// Every name is looked up from the innermost scope outwards and marked used; declaring a name
// twice in one scope, using or assigning one that no scope declares, repeating a parameter or a
// field, and an `impl` for an unknown name are errors. Code after a `return`, `break` or
// `continue`, conditions that are constant, and names never used draw warnings.

/// What the check knows of a name: where it was declared, and whether it was used.
pub type NameInfo = (Location, bool);

/// The state of the check: the scopes, the errors and the warnings so far.
pub struct VState {
    pub env: Seq<ScopeView<NameInfo>>,
    pub errs: Seq<SpecError>,
    pub warns: Seq<SpecError>,
}

pub open spec fn add_err(st: VState, e: SpecError) -> VState {
    VState { errs: st.errs.push(e), ..st }
}

pub open spec fn add_warn(st: VState, w: SpecError) -> VState {
    VState { warns: st.warns.push(w), ..st }
}

/// The state after closing the innermost scope, with a warning for each of its names that was
/// never used, in the order they were declared.
pub open spec fn close_scope(st: VState) -> VState {
    VState {
        env: if st.env.len() > 0 { st.env.drop_last() } else { st.env },
        errs: st.errs,
        warns: st.warns + unused(st.env.last()),
    }
}

/// A warning for each name of a scope that was never used.
pub open spec fn unused(sc: ScopeView<NameInfo>) -> Seq<SpecError>
    decreases sc.len(),
{
    if sc.len() == 0 {
        Seq::empty()
    } else {
        let (name, info) = sc.last();
        let w: Seq<SpecError> = if !info.1 {
            seq![err_on(SpecErrorType::ItemNotUsed(name), info.0)]
        } else {
            Seq::empty()
        };
        unused(sc.drop_last()) + w
    }
}

/// Declares `name` in the innermost scope, or records that it is declared there already.
pub open spec fn declare(st: VState, name: SpecIdent) -> VState {
    match scope_get(st.env.last(), name.val) {
        Some(info) => add_err(st, err_on2(SpecErrorType::AlreadyDeclaredItem, info.0, name.loc)),
        None => VState { env: st.env.update(st.env.len() - 1, st.env.last().push((name.val, (name.loc, false)))), ..st },
    }
}

/// Marks `name` as used, or records that no scope declares it (about `loc`).
pub open spec fn use_name(st: VState, name: Seq<char>, loc: Location) -> VState {
    match lookup(st.env, name) {
        Some(info) => VState { env: assign(st.env, name, (info.0, true)), ..st },
        None => add_err(st, err_on(SpecErrorType::UndeclaredItem, loc)),
    }
}

/// The scope of a function's parameters, and the errors for repeated ones.
pub open spec fn params_scope(ps: Seq<SpecIdent>) -> (ScopeView<NameInfo>, Seq<SpecError>)
    decreases ps.len(),
{
    if ps.len() == 0 {
        (Seq::empty(), Seq::empty())
    } else {
        let (sc, es) = params_scope(ps.drop_last());
        let p = ps.last();
        if position(sc, p.val) >= 0 {
            (sc, es.push(err_on2(SpecErrorType::DuplicateParameter(p.val), sc[position(sc, p.val)].1.0, p.loc)))
        } else {
            (sc.push((p.val, (p.loc, false))), es)
        }
    }
}

/// The fields seen so far, and the errors for repeated ones.
pub open spec fn fields_errors(fs: Seq<SpecIdent>) -> (ScopeView<Location>, Seq<SpecError>)
    decreases fs.len(),
{
    if fs.len() == 0 {
        (Seq::empty(), Seq::empty())
    } else {
        let (seen, es) = fields_errors(fs.drop_last());
        let f = fs.last();
        if position(seen, f.val) >= 0 {
            (seen, es.push(err_on2(SpecErrorType::DuplicateField(f.val), seen[position(seen, f.val)].1, f.loc)))
        } else {
            (seen.push((f.val, f.loc)), es)
        }
    }
}

/// The state with the errors for the repeated fields of a structure.
pub open spec fn with_field_errors(st: VState, fs: Seq<SpecIdent>) -> VState {
    VState { errs: st.errs + fields_errors(fs).1, ..st }
}

/// An expression checked.
pub open spec fn v_expr(st: VState, e: SpecLExpr) -> VState
    decreases esize(e), 1int,
{
    match e.val {
        SpecExpr::Identifier(name) => use_name(st, name, e.loc),
        SpecExpr::Parens(x) => v_expr(st, *x),
        SpecExpr::Call(c, args) => v_exprs(v_expr(st, *c), args),
        SpecExpr::UnaryOperation(_, x) => v_expr(st, *x),
        SpecExpr::BinaryOperation(l, op, r) => v_expr(use_name(v_expr(st, *l), op.val, e.loc), *r),
        SpecExpr::List(xs) => v_exprs(st, xs),
        SpecExpr::Index(x, i) => v_expr(v_expr(st, *x), *i),
        SpecExpr::Lambda(ps, body) => v_fun(st, ps, body),
        SpecExpr::FieldAccess(x, _) => v_expr(st, *x),
        SpecExpr::MethodAccess(x, _, args) => v_exprs(v_expr(st, *x), args),
        _ => st,
    }
}

/// Expressions checked in order.
pub open spec fn v_exprs(st: VState, es: Seq<SpecLExpr>) -> VState
    decreases esizes(es), 2int,
{
    if es.len() == 0 {
        st
    } else {
        proof {
            lemma_esize_pos(es[0]);
        }
        v_exprs(v_expr(st, es[0]), es.subrange(1, es.len() as int))
    }
}

/// A function (or lambda): its parameters in a scope of their own, then its body.
pub open spec fn v_fun(st: VState, ps: Seq<SpecIdent>, body: Seq<SpecLStmt>) -> VState
    decreases ssizes(body), 4int,
{
    let (sc, pe) = params_scope(ps);
    let st1 = VState { env: st.env.push(scope_from_pairs(sc)), errs: st.errs + pe, warns: st.warns };
    close_scope(v_block(st1, body))
}

/// A block, in a scope of its own.
pub open spec fn v_block(st: VState, block: Seq<SpecLStmt>) -> VState
    decreases ssizes(block), 3int,
{
    close_scope(v_items(VState { env: st.env.push(Seq::empty()), ..st }, block))
}

/// The statements `rest` of a block. A declaration is checked after its value and before the
/// body of a function; the value of a `return` is checked, and the statements after a `return`,
/// `break` or `continue` are not checked, but warned about.
pub open spec fn v_items(st: VState, rest: Seq<SpecLStmt>) -> VState
    decreases ssizes(rest), 2int,
{
    if rest.len() == 0 {
        st
    } else {
        let s = rest[0];
        let tail = rest.subrange(1, rest.len() as int);
        proof {
            lemma_ssize_pos(s);
        }
        match s.val {
            SpecStmt::VarDecl(t, x) => v_items(declare(v_expr(st, x), t), tail),
            SpecStmt::FunDecl(t, _, _) => v_items(v_stmt(declare(st, t), s), tail),
            SpecStmt::OperatorDecl(t, _, _, _) => v_items(v_stmt(declare(st, t), s), tail),
            SpecStmt::Assign(t, x) => {
                let st1 = v_expr(st, x);
                let st2 = if lookup(st1.env, t.val) is Some {
                    st1
                } else {
                    add_err(st1, err_on(SpecErrorType::UndeclaredItem, s.loc))
                };
                v_items(st2, tail)
            },
            SpecStmt::Struct(name, _) => v_items(v_stmt(declare(st, name), s), tail),
            SpecStmt::Break | SpecStmt::Continue => ends_block(st, rest),
            SpecStmt::Return(x) => ends_block(v_expr(st, x), rest),
            _ => v_items(v_stmt(st, s), tail),
        }
    }
}

/// The state after a statement that leaves the block (`rest` beginning with it): a warning
/// about the statements after it, if any.
pub open spec fn ends_block(st: VState, rest: Seq<SpecLStmt>) -> VState {
    if rest.len() == 1 {
        st
    } else {
        add_warn(st, err_on2(SpecErrorType::DeadCode, rest[0].loc, Location { start: rest[1].loc.start, end: rest.last().loc.end }))
    }
}

/// The branches of a conditional: a warning for a condition that is a constant, then the
/// condition and the block.
pub open spec fn v_branches(st: VState, bs: Seq<(SpecLExpr, Seq<SpecLStmt>)>) -> VState
    decreases bsizes(bs), 2int,
{
    if bs.len() == 0 {
        st
    } else {
        let (cond, block) = bs[0];
        proof {
            lemma_esize_pos(cond);
        }
        let st1 = match cond.val {
            SpecExpr::Bool(true) => add_warn(st, err_on(SpecErrorType::IfAlwaysExecutes, cond.loc)),
            SpecExpr::Bool(false) => add_warn(st, err_on(SpecErrorType::IfNeverExecutes, cond.loc)),
            _ => st,
        };
        v_branches(v_block(v_expr(st1, cond), block), bs.subrange(1, bs.len() as int))
    }
}

/// A statement checked.
pub open spec fn v_stmt(st: VState, s: SpecLStmt) -> VState
    decreases ssize(s), 1int,
{
    match s.val {
        SpecStmt::Expr(x) => v_expr(st, x),
        SpecStmt::VarDecl(_, x) => v_expr(st, x),
        SpecStmt::Assign(_, x) => v_expr(st, x),
        SpecStmt::AssignIndex(a, b, c) => v_expr(v_expr(v_expr(st, a), b), c),
        SpecStmt::Block(b) => v_block(st, b),
        SpecStmt::If(bs, els) => {
            let st1 = v_branches(st, bs);
            match els {
                Some(b) => v_block(st1, b),
                None => st1,
            }
        },
        SpecStmt::While(c, b) => {
            let st1 = match c.val {
                SpecExpr::Bool(false) => add_warn(st, err_on(SpecErrorType::LoopNeverExecutes, c.loc)),
                _ => st,
            };
            v_block(v_expr(st1, c), b)
        },
        SpecStmt::FunDecl(_, ps, b) => v_fun(st, ps, b),
        SpecStmt::OperatorDecl(_, ps, b, _) => v_fun(st, seq![ps.0, ps.1], b),
        SpecStmt::Return(x) => v_expr(st, x),
        SpecStmt::Struct(_, fs) => with_field_errors(st, fs),
        SpecStmt::AssignStruct(a, _, b) => v_expr(v_expr(st, a), b),
        SpecStmt::Impl(name, b) => {
            let st1 = if lookup(st.env, name.val) is Some {
                st
            } else {
                add_err(st, err_on(SpecErrorType::ImplWithoutStruct(name.val), name.loc))
            };
            v_block(st1, b)
        },
        _ => st,
    }
}

/// The outcome of checking a program, with `builtins` declared in the outermost scope: the
/// warnings and the errors, when there is any.
pub open spec fn spec_varcheck(builtins: Seq<(Seq<char>, NameInfo)>, stmts: Seq<SpecLStmt>) -> Result<(), (Seq<SpecError>, Seq<SpecError>)> {
    let st = v_block(VState { env: seq![scope_from_pairs(builtins)], errs: Seq::empty(), warns: Seq::empty() }, stmts);
    if st.errs.len() > 0 || st.warns.len() > 0 {
        Err((st.warns, st.errs))
    } else {
        Ok(())
    }
}


/// Whether `b` begins with all of `a`.
pub open spec fn extends<A>(a: Seq<A>, b: Seq<A>) -> bool {
    a.len() <= b.len() && forall|k: int| 0 <= k < a.len() ==> #[trigger] b[k] == a[k]
}

// The check closes every scope it opens and never takes back an error: checking any part of a
// program leaves as many scopes as there were, and the errors found before it first.

pub proof fn lemma_use_name_scopes(st: VState, name: Seq<char>, loc: Location)
    ensures
        use_name(st, name, loc).env.len() == st.env.len(),
        extends(st.errs, use_name(st, name, loc).errs),
{
    if let Some(info) = lookup(st.env, name) {
        crate::environment::lemma_assign_len(st.env, name, (info.0, true));
    }
}

/// Checking an expression keeps the number of scopes.
pub proof fn law_check_keeps_scopes(st: VState, e: SpecLExpr)
    ensures
        v_expr(st, e).env.len() == st.env.len(),
        extends(st.errs, v_expr(st, e).errs),
    decreases esize(e), 1int,
{
    match e.val {
        SpecExpr::Identifier(name) => lemma_use_name_scopes(st, name, e.loc),
        SpecExpr::Parens(x) => law_check_keeps_scopes(st, *x),
        SpecExpr::Call(c, args) => {
            law_check_keeps_scopes(st, *c);
            lemma_exprs_scopes(v_expr(st, *c), args);
        },
        SpecExpr::UnaryOperation(_, x) => law_check_keeps_scopes(st, *x),
        SpecExpr::BinaryOperation(l, op, r) => {
            law_check_keeps_scopes(st, *l);
            let st1 = v_expr(st, *l);
            lemma_use_name_scopes(st1, op.val, e.loc);
            law_check_keeps_scopes(use_name(st1, op.val, e.loc), *r);
        },
        SpecExpr::List(xs) => lemma_exprs_scopes(st, xs),
        SpecExpr::Index(x, i) => {
            law_check_keeps_scopes(st, *x);
            law_check_keeps_scopes(v_expr(st, *x), *i);
        },
        SpecExpr::Lambda(ps, body) => lemma_fun_scopes(st, ps, body),
        SpecExpr::FieldAccess(x, _) => law_check_keeps_scopes(st, *x),
        SpecExpr::MethodAccess(x, _, args) => {
            law_check_keeps_scopes(st, *x);
            lemma_exprs_scopes(v_expr(st, *x), args);
        },
        _ => {},
    }
}

pub proof fn lemma_exprs_scopes(st: VState, es: Seq<SpecLExpr>)
    ensures
        v_exprs(st, es).env.len() == st.env.len(),
        extends(st.errs, v_exprs(st, es).errs),
    decreases esizes(es), 2int,
{
    if es.len() > 0 {
        lemma_esize_pos(es[0]);
        law_check_keeps_scopes(st, es[0]);
        lemma_exprs_scopes(v_expr(st, es[0]), es.subrange(1, es.len() as int));
    }
}

pub proof fn lemma_fun_scopes(st: VState, ps: Seq<SpecIdent>, body: Seq<SpecLStmt>)
    ensures
        v_fun(st, ps, body).env.len() == st.env.len(),
        extends(st.errs, v_fun(st, ps, body).errs),
    decreases ssizes(body), 4int,
{
    let (sc, pe) = params_scope(ps);
    let st1 = VState { env: st.env.push(scope_from_pairs(sc)), errs: st.errs + pe, warns: st.warns };
    lemma_block_scopes(st1, body);
}

pub proof fn lemma_block_scopes(st: VState, block: Seq<SpecLStmt>)
    ensures
        v_block(st, block).env.len() == st.env.len(),
        extends(st.errs, v_block(st, block).errs),
    decreases ssizes(block), 3int,
{
    lemma_items_scopes(VState { env: st.env.push(Seq::empty()), ..st }, block);
}

pub proof fn lemma_declare_scopes(st: VState, name: SpecIdent)
    requires
        st.env.len() > 0,
    ensures
        declare(st, name).env.len() == st.env.len(),
        extends(st.errs, declare(st, name).errs),
{
}

pub proof fn lemma_items_scopes(st: VState, rest: Seq<SpecLStmt>)
    requires
        st.env.len() > 0,
    ensures
        v_items(st, rest).env.len() == st.env.len(),
        extends(st.errs, v_items(st, rest).errs),
    decreases ssizes(rest), 2int,
{
    if rest.len() > 0 {
        let s = rest[0];
        let tail = rest.subrange(1, rest.len() as int);
        lemma_ssize_pos(s);
        match s.val {
            SpecStmt::VarDecl(t, x) => {
                law_check_keeps_scopes(st, x);
                lemma_declare_scopes(v_expr(st, x), t);
                lemma_items_scopes(declare(v_expr(st, x), t), tail);
            },
            SpecStmt::FunDecl(t, _, _) => {
                lemma_declare_scopes(st, t);
                lemma_stmt_scopes(declare(st, t), s);
                lemma_items_scopes(v_stmt(declare(st, t), s), tail);
            },
            SpecStmt::OperatorDecl(t, _, _, _) => {
                lemma_declare_scopes(st, t);
                lemma_stmt_scopes(declare(st, t), s);
                lemma_items_scopes(v_stmt(declare(st, t), s), tail);
            },
            SpecStmt::Assign(t, x) => {
                law_check_keeps_scopes(st, x);
                let st1 = v_expr(st, x);
                let st2 = if lookup(st1.env, t.val) is Some {
                    st1
                } else {
                    add_err(st1, err_on(SpecErrorType::UndeclaredItem, s.loc))
                };
                lemma_items_scopes(st2, tail);
            },
            SpecStmt::Struct(name, _) => {
                lemma_declare_scopes(st, name);
                lemma_stmt_scopes(declare(st, name), s);
                lemma_items_scopes(v_stmt(declare(st, name), s), tail);
            },
            SpecStmt::Return(x) => law_check_keeps_scopes(st, x),
            _ => {
                lemma_stmt_scopes(st, s);
                lemma_items_scopes(v_stmt(st, s), tail);
            },
        }
    }
}

pub proof fn lemma_branches_scopes(st: VState, bs: Seq<(SpecLExpr, Seq<SpecLStmt>)>)
    ensures
        v_branches(st, bs).env.len() == st.env.len(),
        extends(st.errs, v_branches(st, bs).errs),
    decreases bsizes(bs), 2int,
{
    if bs.len() > 0 {
        let (cond, block) = bs[0];
        lemma_esize_pos(cond);
        let st1 = match cond.val {
            SpecExpr::Bool(true) => add_warn(st, err_on(SpecErrorType::IfAlwaysExecutes, cond.loc)),
            SpecExpr::Bool(false) => add_warn(st, err_on(SpecErrorType::IfNeverExecutes, cond.loc)),
            _ => st,
        };
        law_check_keeps_scopes(st1, cond);
        lemma_block_scopes(v_expr(st1, cond), block);
        lemma_branches_scopes(v_block(v_expr(st1, cond), block), bs.subrange(1, bs.len() as int));
    }
}

pub proof fn lemma_stmt_scopes(st: VState, s: SpecLStmt)
    ensures
        v_stmt(st, s).env.len() == st.env.len(),
        extends(st.errs, v_stmt(st, s).errs),
    decreases ssize(s), 1int,
{
    match s.val {
        SpecStmt::Expr(x) => law_check_keeps_scopes(st, x),
        SpecStmt::VarDecl(_, x) => law_check_keeps_scopes(st, x),
        SpecStmt::Assign(_, x) => law_check_keeps_scopes(st, x),
        SpecStmt::AssignIndex(a, b, c) => {
            law_check_keeps_scopes(st, a);
            law_check_keeps_scopes(v_expr(st, a), b);
            law_check_keeps_scopes(v_expr(v_expr(st, a), b), c);
        },
        SpecStmt::Block(b) => lemma_block_scopes(st, b),
        SpecStmt::If(bs, els) => {
            lemma_branches_scopes(st, bs);
            if let Some(b) = els {
                lemma_block_scopes(v_branches(st, bs), b);
            }
        },
        SpecStmt::While(c, b) => {
            let st1 = match c.val {
                SpecExpr::Bool(false) => add_warn(st, err_on(SpecErrorType::LoopNeverExecutes, c.loc)),
                _ => st,
            };
            law_check_keeps_scopes(st1, c);
            lemma_block_scopes(v_expr(st1, c), b);
        },
        SpecStmt::FunDecl(_, ps, b) => lemma_fun_scopes(st, ps, b),
        SpecStmt::OperatorDecl(_, ps, b, _) => lemma_fun_scopes(st, seq![ps.0, ps.1], b),
        SpecStmt::Return(x) => law_check_keeps_scopes(st, x),
        SpecStmt::AssignStruct(a, _, b) => {
            law_check_keeps_scopes(st, a);
            law_check_keeps_scopes(v_expr(st, a), b);
        },
        SpecStmt::Impl(name, b) => {
            let st1 = if lookup(st.env, name.val) is Some {
                st
            } else {
                add_err(st, err_on(SpecErrorType::ImplWithoutStruct(name.val), name.loc))
            };
            lemma_block_scopes(st1, b);
        },
        _ => {},
    }
}

/// The statements of a block are checked: when a block begins with a use of a name that no
/// scope declares, the check of the block reports that name as undeclared.
pub proof fn law_block_reports_undeclared_use(st: VState, b: Seq<SpecLStmt>, y: Seq<char>, yloc: Location, sloc: Location)
    requires
        lookup(st.env, y) is None,
        b.len() > 0,
        b[0] == (Located { val: SpecStmt::Expr(Located { val: SpecExpr::Identifier(y), loc: yloc }), loc: sloc }),
    ensures
        v_block(st, b).errs.contains(err_on(SpecErrorType::UndeclaredItem, yloc)),
{
    let st3 = VState { env: st.env.push(Seq::empty()), ..st };
    crate::environment::law_open_close_scope(st.env, y);
    let e = err_on(SpecErrorType::UndeclaredItem, yloc);
    let st4 = v_stmt(st3, b[0]);
    assert(st4 == add_err(st3, e));
    assert(st4.errs[st3.errs.len() as int] == e);
    let tail = b.subrange(1, b.len() as int);
    lemma_ssize_pos(b[0]);
    assert(v_items(st3, b) == v_items(st4, tail));
    lemma_items_scopes(st4, tail);
    let st5 = v_items(st4, tail);
    assert(st5.errs[st3.errs.len() as int] == e);
    assert(v_block(st, b) == close_scope(st5));
    assert(v_block(st, b).errs[st3.errs.len() as int] == e);
}

/// Checking a name or a literal leaves the names that no scope declares undeclared.
proof fn lemma_atom_keeps_undeclared(st: VState, c: SpecLExpr, y: Seq<char>)
    requires
        c.val is Bool || c.val is Int || c.val is String || c.val is Identifier,
        lookup(st.env, y) is None,
    ensures
        lookup(v_expr(st, c).env, y) is None,
{
    if let SpecExpr::Identifier(name) = c.val {
        if let Some(info) = lookup(st.env, name) {
            crate::environment::law_update_keeps_others(st.env, name, y, (info.0, true));
        }
    }
}

/// The body of a loop is checked as a block: when it begins with a use of a name that no scope
/// declares, the check of the loop reports that name as undeclared, whatever name or literal the
/// condition is.
pub proof fn law_loop_body_is_checked(st: VState, c: SpecLExpr, b: Seq<SpecLStmt>, y: Seq<char>, yloc: Location, sloc: Location, wloc: Location)
    requires
        c.val is Bool || c.val is Int || c.val is String || c.val is Identifier,
        lookup(st.env, y) is None,
        b.len() > 0,
        b[0] == (Located { val: SpecStmt::Expr(Located { val: SpecExpr::Identifier(y), loc: yloc }), loc: sloc }),
    ensures
        v_stmt(st, Located { val: SpecStmt::While(c, b), loc: wloc }).errs.contains(
            err_on(SpecErrorType::UndeclaredItem, yloc),
        ),
{
    let st1 = match c.val {
        SpecExpr::Bool(false) => add_warn(st, err_on(SpecErrorType::LoopNeverExecutes, c.loc)),
        _ => st,
    };
    lemma_atom_keeps_undeclared(st1, c, y);
    law_block_reports_undeclared_use(v_expr(st1, c), b, y, yloc, sloc);
}

/// The block of the first branch of a conditional is checked: when it begins with a use of a
/// name that no scope declares, the check of the conditional reports that name as undeclared,
/// whatever name or literal the condition is.
pub proof fn law_branch_body_is_checked(
    st: VState,
    c: SpecLExpr,
    b: Seq<SpecLStmt>,
    more: Seq<(SpecLExpr, Seq<SpecLStmt>)>,
    els: Option<Seq<SpecLStmt>>,
    y: Seq<char>,
    yloc: Location,
    sloc: Location,
    iloc: Location,
)
    requires
        c.val is Bool || c.val is Int || c.val is String || c.val is Identifier,
        lookup(st.env, y) is None,
        b.len() > 0,
        b[0] == (Located { val: SpecStmt::Expr(Located { val: SpecExpr::Identifier(y), loc: yloc }), loc: sloc }),
    ensures
        v_stmt(st, Located { val: SpecStmt::If(seq![(c, b)] + more, els), loc: iloc }).errs.contains(
            err_on(SpecErrorType::UndeclaredItem, yloc),
        ),
{
    let bs = seq![(c, b)] + more;
    assert(bs[0] == (c, b));
    assert(bs.subrange(1, bs.len() as int) =~= more);
    let st1 = match c.val {
        SpecExpr::Bool(true) => add_warn(st, err_on(SpecErrorType::IfAlwaysExecutes, c.loc)),
        SpecExpr::Bool(false) => add_warn(st, err_on(SpecErrorType::IfNeverExecutes, c.loc)),
        _ => st,
    };
    lemma_esize_pos(c);
    lemma_atom_keeps_undeclared(st1, c, y);
    let st2 = v_block(v_expr(st1, c), b);
    law_block_reports_undeclared_use(v_expr(st1, c), b, y, yloc, sloc);
    let k = choose|k: int| 0 <= k < st2.errs.len() && st2.errs[k] == err_on(SpecErrorType::UndeclaredItem, yloc);
    lemma_branches_scopes(st2, more);
    assert(v_branches(st, bs) == v_branches(st2, more));
    let st3 = v_branches(st2, more);
    assert(st3.errs[k] == err_on(SpecErrorType::UndeclaredItem, yloc));
    if let Some(eb) = els {
        lemma_block_scopes(st3, eb);
        assert(v_block(st3, eb).errs[k] == err_on(SpecErrorType::UndeclaredItem, yloc));
    }
}

/// The body of a function is checked as a block: when it begins with a use of a name that is
/// neither declared in a scope nor a parameter, the check of the function reports it as
/// undeclared.
pub proof fn law_function_body_is_checked(st: VState, name: SpecIdent, ps: Seq<SpecIdent>, b: Seq<SpecLStmt>, y: Seq<char>, yloc: Location, sloc: Location, floc: Location)
    requires
        lookup(st.env.push(scope_from_pairs(params_scope(ps).0)), y) is None,
        b.len() > 0,
        b[0] == (Located { val: SpecStmt::Expr(Located { val: SpecExpr::Identifier(y), loc: yloc }), loc: sloc }),
    ensures
        v_stmt(st, Located { val: SpecStmt::FunDecl(name, ps, b), loc: floc }).errs.contains(
            err_on(SpecErrorType::UndeclaredItem, yloc),
        ),
{
    let (sc, pe) = params_scope(ps);
    let st1 = VState { env: st.env.push(scope_from_pairs(sc)), errs: st.errs + pe, warns: st.warns };
    law_block_reports_undeclared_use(st1, b, y, yloc, sloc);
    let st2 = v_block(st1, b);
    let k = choose|k: int| 0 <= k < st2.errs.len() && st2.errs[k] == err_on(SpecErrorType::UndeclaredItem, yloc);
    assert(close_scope(st2).errs[k] == err_on(SpecErrorType::UndeclaredItem, yloc));
}

/// Whether an expression holds no lambda.
pub open spec fn lambda_free(e: SpecExpr) -> bool
    decreases e,
{
    match e {
        SpecExpr::Parens(x) => lambda_free(x.val),
        SpecExpr::Call(c, args) => lambda_free(c.val) && lambdas_free(args),
        SpecExpr::UnaryOperation(_, x) => lambda_free(x.val),
        SpecExpr::BinaryOperation(l, _, r) => lambda_free(l.val) && lambda_free(r.val),
        SpecExpr::List(xs) => lambdas_free(xs),
        SpecExpr::Index(x, i) => lambda_free(x.val) && lambda_free(i.val),
        SpecExpr::Lambda(..) => false,
        SpecExpr::FieldAccess(x, _) => lambda_free(x.val),
        SpecExpr::MethodAccess(x, _, args) => lambda_free(x.val) && lambdas_free(args),
        _ => true,
    }
}

pub open spec fn lambdas_free(es: Seq<SpecLExpr>) -> bool
    decreases es,
{
    es.len() > 0 ==> lambda_free(es[0].val) && lambdas_free(es.subrange(1, es.len() as int))
}

/// Whether the name `y` is used at `loc` somewhere in an expression.
pub open spec fn uses_at(e: SpecLExpr, y: Seq<char>, loc: Location) -> bool
    decreases e,
{
    match e.val {
        SpecExpr::Identifier(name) => name == y && e.loc == loc,
        SpecExpr::Parens(x) => uses_at(*x, y, loc),
        SpecExpr::Call(c, args) => uses_at(*c, y, loc) || any_uses_at(args, y, loc),
        SpecExpr::UnaryOperation(_, x) => uses_at(*x, y, loc),
        SpecExpr::BinaryOperation(l, _, r) => uses_at(*l, y, loc) || uses_at(*r, y, loc),
        SpecExpr::List(xs) => any_uses_at(xs, y, loc),
        SpecExpr::Index(x, i) => uses_at(*x, y, loc) || uses_at(*i, y, loc),
        SpecExpr::FieldAccess(x, _) => uses_at(*x, y, loc),
        SpecExpr::MethodAccess(x, _, args) => uses_at(*x, y, loc) || any_uses_at(args, y, loc),
        _ => false,
    }
}

pub open spec fn any_uses_at(es: Seq<SpecLExpr>, y: Seq<char>, loc: Location) -> bool
    decreases es,
{
    es.len() > 0 && (uses_at(es[0], y, loc) || any_uses_at(es.subrange(1, es.len() as int), y, loc))
}

proof fn lemma_use_name_keeps_undeclared(st: VState, name: Seq<char>, loc: Location, y: Seq<char>)
    requires
        lookup(st.env, y) is None,
    ensures
        lookup(use_name(st, name, loc).env, y) is None,
{
    if let Some(info) = lookup(st.env, name) {
        crate::environment::law_update_keeps_others(st.env, name, y, (info.0, true));
    }
}

proof fn lemma_expr_keeps_undeclared(st: VState, e: SpecLExpr, y: Seq<char>)
    requires
        lambda_free(e.val),
        lookup(st.env, y) is None,
    ensures
        lookup(v_expr(st, e).env, y) is None,
    decreases esize(e), 1int,
{
    match e.val {
        SpecExpr::Identifier(name) => lemma_use_name_keeps_undeclared(st, name, e.loc, y),
        SpecExpr::Parens(x) => lemma_expr_keeps_undeclared(st, *x, y),
        SpecExpr::Call(c, args) => {
            lemma_expr_keeps_undeclared(st, *c, y);
            lemma_exprs_keep_undeclared(v_expr(st, *c), args, y);
        },
        SpecExpr::UnaryOperation(_, x) => lemma_expr_keeps_undeclared(st, *x, y),
        SpecExpr::BinaryOperation(l, op, r) => {
            lemma_expr_keeps_undeclared(st, *l, y);
            lemma_use_name_keeps_undeclared(v_expr(st, *l), op.val, e.loc, y);
            lemma_expr_keeps_undeclared(use_name(v_expr(st, *l), op.val, e.loc), *r, y);
        },
        SpecExpr::List(xs) => lemma_exprs_keep_undeclared(st, xs, y),
        SpecExpr::Index(x, i) => {
            lemma_expr_keeps_undeclared(st, *x, y);
            lemma_expr_keeps_undeclared(v_expr(st, *x), *i, y);
        },
        SpecExpr::FieldAccess(x, _) => lemma_expr_keeps_undeclared(st, *x, y),
        SpecExpr::MethodAccess(x, _, args) => {
            lemma_expr_keeps_undeclared(st, *x, y);
            lemma_exprs_keep_undeclared(v_expr(st, *x), args, y);
        },
        _ => {},
    }
}

proof fn lemma_exprs_keep_undeclared(st: VState, es: Seq<SpecLExpr>, y: Seq<char>)
    requires
        lambdas_free(es),
        lookup(st.env, y) is None,
    ensures
        lookup(v_exprs(st, es).env, y) is None,
    decreases esizes(es), 2int,
{
    if es.len() > 0 {
        lemma_esize_pos(es[0]);
        lemma_expr_keeps_undeclared(st, es[0], y);
        lemma_exprs_keep_undeclared(v_expr(st, es[0]), es.subrange(1, es.len() as int), y);
    }
}

/// Every use of a name in an expression is checked: when an expression without lambdas uses,
/// anywhere in it, a name that no scope declares, its check reports that use as undeclared.
pub proof fn law_expression_uses_are_checked(st: VState, e: SpecLExpr, y: Seq<char>, loc: Location)
    requires
        lambda_free(e.val),
        lookup(st.env, y) is None,
        uses_at(e, y, loc),
    ensures
        v_expr(st, e).errs.contains(err_on(SpecErrorType::UndeclaredItem, loc)),
    decreases esize(e), 1int,
{
    let er = err_on(SpecErrorType::UndeclaredItem, loc);
    match e.val {
        SpecExpr::Identifier(name) => {
            assert(v_expr(st, e).errs[st.errs.len() as int] == er);
        },
        SpecExpr::Parens(x) => law_expression_uses_are_checked(st, *x, y, loc),
        SpecExpr::Call(c, args) => {
            if uses_at(*c, y, loc) {
                law_expression_uses_are_checked(st, *c, y, loc);
                let k = choose|k: int| 0 <= k < v_expr(st, *c).errs.len() && v_expr(st, *c).errs[k] == er;
                lemma_exprs_scopes(v_expr(st, *c), args);
                assert(v_expr(st, e).errs[k] == er);
            } else {
                lemma_expr_keeps_undeclared(st, *c, y);
                lemma_exprs_uses_are_checked(v_expr(st, *c), args, y, loc);
            }
        },
        SpecExpr::UnaryOperation(_, x) => law_expression_uses_are_checked(st, *x, y, loc),
        SpecExpr::BinaryOperation(l, op, r) => {
            let st1 = use_name(v_expr(st, *l), op.val, e.loc);
            if uses_at(*l, y, loc) {
                law_expression_uses_are_checked(st, *l, y, loc);
                let k = choose|k: int| 0 <= k < v_expr(st, *l).errs.len() && v_expr(st, *l).errs[k] == er;
                lemma_use_name_scopes(v_expr(st, *l), op.val, e.loc);
                law_check_keeps_scopes(st1, *r);
                assert(v_expr(st, e).errs[k] == er);
            } else {
                lemma_expr_keeps_undeclared(st, *l, y);
                lemma_use_name_keeps_undeclared(v_expr(st, *l), op.val, e.loc, y);
                law_expression_uses_are_checked(st1, *r, y, loc);
            }
        },
        SpecExpr::List(xs) => lemma_exprs_uses_are_checked(st, xs, y, loc),
        SpecExpr::Index(x, i) => {
            if uses_at(*x, y, loc) {
                law_expression_uses_are_checked(st, *x, y, loc);
                let k = choose|k: int| 0 <= k < v_expr(st, *x).errs.len() && v_expr(st, *x).errs[k] == er;
                law_check_keeps_scopes(v_expr(st, *x), *i);
                assert(v_expr(st, e).errs[k] == er);
            } else {
                lemma_expr_keeps_undeclared(st, *x, y);
                law_expression_uses_are_checked(v_expr(st, *x), *i, y, loc);
            }
        },
        SpecExpr::FieldAccess(x, _) => law_expression_uses_are_checked(st, *x, y, loc),
        SpecExpr::MethodAccess(x, _, args) => {
            if uses_at(*x, y, loc) {
                law_expression_uses_are_checked(st, *x, y, loc);
                let k = choose|k: int| 0 <= k < v_expr(st, *x).errs.len() && v_expr(st, *x).errs[k] == er;
                lemma_exprs_scopes(v_expr(st, *x), args);
                assert(v_expr(st, e).errs[k] == er);
            } else {
                lemma_expr_keeps_undeclared(st, *x, y);
                lemma_exprs_uses_are_checked(v_expr(st, *x), args, y, loc);
            }
        },
        _ => {},
    }
}

proof fn lemma_exprs_uses_are_checked(st: VState, es: Seq<SpecLExpr>, y: Seq<char>, loc: Location)
    requires
        lambdas_free(es),
        lookup(st.env, y) is None,
        any_uses_at(es, y, loc),
    ensures
        v_exprs(st, es).errs.contains(err_on(SpecErrorType::UndeclaredItem, loc)),
    decreases esizes(es), 2int,
{
    let er = err_on(SpecErrorType::UndeclaredItem, loc);
    lemma_esize_pos(es[0]);
    let rest = es.subrange(1, es.len() as int);
    if uses_at(es[0], y, loc) {
        law_expression_uses_are_checked(st, es[0], y, loc);
        let k = choose|k: int| 0 <= k < v_expr(st, es[0]).errs.len() && v_expr(st, es[0]).errs[k] == er;
        lemma_exprs_scopes(v_expr(st, es[0]), rest);
        assert(v_exprs(st, es).errs[k] == er);
    } else {
        lemma_expr_keeps_undeclared(st, es[0], y);
        lemma_exprs_uses_are_checked(v_expr(st, es[0]), rest, y, loc);
    }
}

/// The expression of an expression statement, a declaration, an assignment, a `return` and the
/// condition of a loop are checked: a use in it, without lambdas, of a name that no scope
/// declares is reported.
pub proof fn law_statement_uses_are_checked(st: VState, s: SpecLStmt, e: SpecLExpr, y: Seq<char>, loc: Location)
    requires
        s.val == SpecStmt::Expr(e) || s.val is VarDecl && s.val->VarDecl_1 == e || s.val is Assign && s.val->Assign_1 == e
            || s.val == SpecStmt::Return(e) || s.val is While && s.val->While_0 == e,
        lambda_free(e.val),
        lookup(st.env, y) is None,
        uses_at(e, y, loc),
    ensures
        v_stmt(st, s).errs.contains(err_on(SpecErrorType::UndeclaredItem, loc)),
{
    let er = err_on(SpecErrorType::UndeclaredItem, loc);
    if let SpecStmt::While(c, b) = s.val {
        let st1 = match c.val {
            SpecExpr::Bool(false) => add_warn(st, err_on(SpecErrorType::LoopNeverExecutes, c.loc)),
            _ => st,
        };
        law_expression_uses_are_checked(st1, c, y, loc);
        let k = choose|k: int| 0 <= k < v_expr(st1, c).errs.len() && v_expr(st1, c).errs[k] == er;
        lemma_block_scopes(v_expr(st1, c), b);
        assert(v_stmt(st, s).errs[k] == er);
    } else {
        law_expression_uses_are_checked(st, e, y, loc);
    }
}

// ---------------------------------------------------------------------------
// Implementation
// ---------------------------------------------------------------------------

struct VarCheck {
    env: Environment<NameInfo>,
    errs: Vec<Error>,
    warns: Vec<Error>,
}

impl VarCheck {
    spec fn state(&self) -> VState {
        VState { env: self.env@, errs: errors_view(self.errs@), warns: errors_view(self.warns@) }
    }

    fn push_err(&mut self, e: Error)
        ensures
            final(self).state() == add_err(old(self).state(), e@),
    {
        let ghost es = errors_view(self.errs@);
        self.errs.push(e);
        assert(errors_view(self.errs@) =~= es.push(e@));
    }

    fn push_warn(&mut self, w: Error)
        ensures
            final(self).state() == add_warn(old(self).state(), w@),
    {
        let ghost ws = errors_view(self.warns@);
        self.warns.push(w);
        assert(errors_view(self.warns@) =~= ws.push(w@));
    }

    /// Closes the innermost scope, warning about its names that were never used.
    fn close_scope(&mut self)
        requires
            old(self).env@.len() > 0,
        ensures
            final(self).state() == close_scope(old(self).state()),
            final(self).env@.len() == old(self).env@.len() - 1,
    {
        let ghost sc = self.env@.last();
        let ghost w0 = errors_view(self.warns@);
        let n = self.env.innermost().len();
        let mut i: usize = 0;
        assert(sc.take(0) =~= Seq::<(Seq<char>, NameInfo)>::empty());
        assert(w0 + unused(sc.take(0)) =~= w0);
        while i < n
            invariant
                sc == self.env@.last(),
                self.env@ == old(self).env@,
                self.env@.len() > 0,
                self.errs@ == old(self).errs@,
                n == sc.len(),
                i <= n,
                errors_view(self.warns@) == w0 + unused(sc.take(i as int)),
            decreases n - i,
        {
            assert(sc.take(i + 1).drop_last() =~= sc.take(i as int));
            let entry = &self.env.innermost()[i];
            let used = (entry.1).1;
            if !used {
                let w = error_on(ErrorType::ItemNotUsed(entry.0.clone()), (entry.1).0);
                let ghost ws = errors_view(self.warns@);
                self.warns.push(w);
                assert(errors_view(self.warns@) =~= ws.push(w@));
            }
            assert(w0 + unused(sc.take(i + 1)) =~= w0 + unused(sc.take(i as int)) + unused(sc.take(i + 1)).subrange(
                unused(sc.take(i as int)).len() as int,
                unused(sc.take(i + 1)).len() as int,
            ));
            i = i + 1;
        }
        assert(sc.take(n as int) =~= sc);
        self.env.remove_scope();
    }

    /// Declares `name` in the innermost scope, or records that it is declared there already.
    fn declare(&mut self, name: &Identifier)
        requires
            old(self).env@.len() > 0,
        ensures
            final(self).state() == declare(old(self).state(), name@),
            final(self).env@.len() == old(self).env@.len(),
    {
        match self.env.get_innermost(&name.val) {
            Some(info) => {
                self.push_err(error_on2(ErrorType::AlreadyDeclaredItem, info.0, name.loc));
            },
            None => {
                proof {
                    crate::environment::lemma_position(self.env@.last(), name.val@);
                }
                let _ = self.env.insert(&name.val, (name.loc, false));
            },
        }
    }

    /// Marks `name` as used, or records that no scope declares it.
    fn use_name(&mut self, name: &String, loc: Location)
        ensures
            final(self).state() == use_name(old(self).state(), name@, loc),
            final(self).env@.len() == old(self).env@.len(),
    {
        match self.env.get(name) {
            Some(info) => {
                let _ = self.env.update(name, (info.0, true));
                proof {
                    crate::environment::lemma_assign_len(old(self).env@, name@, (info.0, true));
                }
            },
            None => {
                self.push_err(error_on(ErrorType::UndeclaredItem, loc));
            },
        }
    }

    fn visit_expr(&mut self, e: &LExpr)
        ensures
            final(self).state() == v_expr(old(self).state(), lexpr_view(*e)),
            final(self).env@.len() == old(self).env@.len(),
        decreases esize(lexpr_view(*e)), 1int,
    {
        match &e.val {
            Expr::Identifier(name) => self.use_name(name, e.loc),
            Expr::Parens(x) => self.visit_expr(x),
            Expr::Call(c, args) => {
                self.visit_expr(c);
                self.visit_exprs(args);
            },
            Expr::UnaryOperation(_, x) => self.visit_expr(x),
            Expr::BinaryOperation(l, op, r) => {
                self.visit_expr(l);
                self.use_name(&op.val, e.loc);
                self.visit_expr(r);
            },
            Expr::List(xs) => self.visit_exprs(xs),
            Expr::Index(x, i) => {
                self.visit_expr(x);
                self.visit_expr(i);
            },
            Expr::Lambda(ps, body) => self.visit_fun(ps, body),
            Expr::FieldAccess(x, _) => self.visit_expr(x),
            Expr::MethodAccess(x, _, args) => {
                self.visit_expr(x);
                self.visit_exprs(args);
            },
            _ => {},
        }
    }

    fn visit_exprs(&mut self, es: &Vec<LExpr>)
        ensures
            final(self).state() == v_exprs(old(self).state(), lexprs_view(es@)),
            final(self).env@.len() == old(self).env@.len(),
        decreases esizes(lexprs_view(es@)), 2int,
    {
        let ghost s0 = lexprs_view(es@);
        let mut i: usize = 0;
        assert(s0.subrange(0, s0.len() as int) =~= s0);
        while i < es.len()
            invariant
                s0 == lexprs_view(es@),
                i <= es@.len(),
                v_exprs(old(self).state(), s0) == v_exprs(self.state(), s0.subrange(i as int, s0.len() as int)),
                esizes(s0.subrange(i as int, s0.len() as int)) <= esizes(s0),
                self.env@.len() == old(self).env@.len(),
            decreases es@.len() - i,
        {
            let ghost rest = s0.subrange(i as int, s0.len() as int);
            assert(rest.subrange(1, rest.len() as int) =~= s0.subrange(i + 1, s0.len() as int));
            assert(rest[0] == lexpr_view(es@[i as int]));
            self.visit_expr(&es[i]);
            i = i + 1;
        }
    }

    /// A function or lambda: its parameters in a scope of their own, then its body.
    fn visit_fun(&mut self, ps: &Vec<Identifier>, body: &Vec<LStmt>)
        ensures
            final(self).state() == v_fun(old(self).state(), idents_view(ps@), lstmts_view(body@)),
            final(self).env@.len() == old(self).env@.len(),
        decreases ssizes(lstmts_view(body@)), 4int,
    {
        let ghost pv = idents_view(ps@);
        let ghost e0 = errors_view(self.errs@);
        let mut params: Vec<(String, NameInfo)> = Vec::new();
        let mut i: usize = 0;
        assert(pv.take(0) =~= Seq::<SpecIdent>::empty());
        assert(entries_view(params@) =~= Seq::<(Seq<char>, NameInfo)>::empty());
        assert(e0 + Seq::<SpecError>::empty() =~= e0);
        while i < ps.len()
            invariant
                pv == idents_view(ps@),
                i <= ps@.len(),
                self.env@ == old(self).env@,
                errors_view(self.warns@) == errors_view(old(self).warns@),
                e0 == errors_view(old(self).errs@),
                entries_view(params@) == params_scope(pv.take(i as int)).0,
                errors_view(self.errs@) == e0 + params_scope(pv.take(i as int)).1,
            decreases ps@.len() - i,
        {
            assert(pv.take(i + 1).drop_last() =~= pv.take(i as int));
            assert(pv.take(i + 1).last() == ps@[i as int]@);
            let p = &ps[i];
            let ghost sc = entries_view(params@);
            proof {
                crate::environment::lemma_position(sc, p.val@);
            }
            match crate::environment::find_binding(&params, &p.val) {
                Some(k) => {
                    let ghost es = errors_view(self.errs@);
                    self.push_err(error_on2(ErrorType::DuplicateParameter(p.val.clone()), (params[k].1).0, p.loc));
                    assert(e0 + params_scope(pv.take(i + 1)).1 =~= (e0 + params_scope(pv.take(i as int)).1).push(
                        err_on2(SpecErrorType::DuplicateParameter(p.val@), sc[k as int].1.0, p.loc),
                    ));
                },
                None => {
                    let ghost key = p.val@;
                    params.push((p.val.clone(), (p.loc, false)));
                    assert(entries_view(params@) =~= sc.push((key, (p.loc, false))));
                },
            }
            i = i + 1;
        }
        assert(pv.take(ps@.len() as int) =~= pv);
        self.env.add_scope_vars(params);
        self.check_block(body);
        self.close_scope();
    }

    /// A block, in a scope of its own.
    fn check_block(&mut self, block: &Vec<LStmt>)
        ensures
            final(self).state() == v_block(old(self).state(), lstmts_view(block@)),
            final(self).env@.len() == old(self).env@.len(),
        decreases ssizes(lstmts_view(block@)), 3int,
    {
        let ghost s0 = lstmts_view(block@);
        self.env.add_scope();
        assert(self.state() == (VState { env: old(self).state().env.push(Seq::empty()), ..old(self).state() }));
        let ghost st0 = self.state();
        let mut i: usize = 0;
        assert(s0.subrange(0, s0.len() as int) =~= s0);
        while i < block.len()
            invariant_except_break
                v_items(st0, s0) == v_items(self.state(), s0.subrange(i as int, s0.len() as int)),
            invariant
                s0 == lstmts_view(block@),
                i <= block@.len(),
                ssizes(s0.subrange(i as int, s0.len() as int)) <= ssizes(s0),
                self.env@.len() == old(self).env@.len() + 1,
            ensures
                v_items(st0, s0) == self.state(),
            decreases block@.len() - i,
        {
            let ghost rest = s0.subrange(i as int, s0.len() as int);
            assert(rest.subrange(1, rest.len() as int) =~= s0.subrange(i + 1, s0.len() as int));
            let s = &block[i];
            assert(rest[0] == lstmt_view(*s));
            assert(ssizes(rest) == ssize(rest[0]) + ssizes(rest.subrange(1, rest.len() as int)));
            match &s.val {
                Stmt::VarDecl(t, x) => {
                    self.visit_expr(x);
                    self.declare(t);
                },
                Stmt::FunDecl(t, _, _) => {
                    self.declare(t);
                    self.visit_stmt(s);
                },
                Stmt::OperatorDecl(t, _, _, _) => {
                    self.declare(t);
                    self.visit_stmt(s);
                },
                Stmt::Assign(t, x) => {
                    self.visit_expr(x);
                    if !self.env.contains(&t.val) {
                        self.push_err(error_on(ErrorType::UndeclaredItem, s.loc));
                    }
                },
                Stmt::Struct(name, _) => {
                    self.declare(name);
                    self.visit_stmt(s);
                },
                Stmt::Break | Stmt::Continue | Stmt::Return(_) => {
                    if let Stmt::Return(x) = &s.val {
                        self.visit_expr(x);
                    }
                    if i < block.len() - 1 {
                        let start = block[i + 1].loc.start;
                        let end = block[block.len() - 1].loc.end;
                        assert(rest[1] == lstmt_view(block@[i + 1]));
                        assert(rest.last() == lstmt_view(block@[block@.len() - 1]));
                        self.push_warn(error_on2(ErrorType::DeadCode, s.loc, Location { start, end }));
                    }
                    break;
                },
                _ => {
                    self.visit_stmt(s);
                },
            }
            i = i + 1;
        }
        self.close_scope();
    }

    fn visit_branches(&mut self, bs: &Vec<(LExpr, Vec<LStmt>)>)
        ensures
            final(self).state() == v_branches(old(self).state(), branches_view(bs@)),
            final(self).env@.len() == old(self).env@.len(),
        decreases bsizes(branches_view(bs@)), 2int,
    {
        let ghost s0 = branches_view(bs@);
        let mut i: usize = 0;
        assert(s0.subrange(0, s0.len() as int) =~= s0);
        while i < bs.len()
            invariant
                s0 == branches_view(bs@),
                i <= bs@.len(),
                v_branches(old(self).state(), s0) == v_branches(self.state(), s0.subrange(i as int, s0.len() as int)),
                bsizes(s0.subrange(i as int, s0.len() as int)) <= bsizes(s0),
                self.env@.len() == old(self).env@.len(),
            decreases bs@.len() - i,
        {
            let ghost rest = s0.subrange(i as int, s0.len() as int);
            assert(rest.subrange(1, rest.len() as int) =~= s0.subrange(i + 1, s0.len() as int));
            let (cond, block) = &bs[i];
            assert(rest[0] == (lexpr_view(*cond), lstmts_view(block@)));
            proof {
                lemma_esize_pos(lexpr_view(*cond));
            }
            match &cond.val {
                Expr::Bool(true) => self.push_warn(error_on(ErrorType::IfAlwaysExecutes, cond.loc)),
                Expr::Bool(false) => self.push_warn(error_on(ErrorType::IfNeverExecutes, cond.loc)),
                _ => {},
            }
            self.visit_expr(cond);
            self.check_block(block);
            i = i + 1;
        }
    }

    fn visit_stmt(&mut self, s: &LStmt)
        ensures
            final(self).state() == v_stmt(old(self).state(), lstmt_view(*s)),
            final(self).env@.len() == old(self).env@.len(),
        decreases ssize(lstmt_view(*s)), 1int,
    {
        match &s.val {
            Stmt::Expr(x) => self.visit_expr(x),
            Stmt::VarDecl(_, x) => self.visit_expr(x),
            Stmt::Assign(_, x) => self.visit_expr(x),
            Stmt::AssignIndex(a, b, c) => {
                self.visit_expr(a);
                self.visit_expr(b);
                self.visit_expr(c);
            },
            Stmt::Block(b) => self.check_block(b),
            Stmt::If(bs, els) => {
                self.visit_branches(bs);
                match els {
                    Some(b) => self.check_block(b),
                    None => {},
                }
            },
            Stmt::While(c, b) => {
                if matches!(c.val, Expr::Bool(false)) {
                    self.push_warn(error_on(ErrorType::LoopNeverExecutes, c.loc));
                }
                self.visit_expr(c);
                self.check_block(b);
            },
            Stmt::FunDecl(_, ps, b) => self.visit_fun(ps, b),
            Stmt::OperatorDecl(_, ps, b, _) => {
                let mut params: Vec<Identifier> = Vec::new();
                params.push(crate::frontend::parser::clone_ident(&ps.0));
                params.push(crate::frontend::parser::clone_ident(&ps.1));
                assert(idents_view(params@) =~= seq![ps.0@, ps.1@]);
                self.visit_fun(&params, b);
            },
            Stmt::Return(x) => self.visit_expr(x),
            Stmt::Struct(_, fs) => self.check_fields(fs),
            Stmt::AssignStruct(a, _, b) => {
                self.visit_expr(a);
                self.visit_expr(b);
            },
            Stmt::Impl(name, b) => {
                if !self.env.contains(&name.val) {
                    self.push_err(error_on(ErrorType::ImplWithoutStruct(name.val.clone()), name.loc));
                }
                self.check_block(b);
            },
            _ => {},
        }
    }

    /// Records an error for each field of a structure declared again.
    fn check_fields(&mut self, fs: &Vec<Identifier>)
        ensures
            final(self).state() == with_field_errors(old(self).state(), idents_view(fs@)),
            final(self).env@.len() == old(self).env@.len(),
    {
        let ghost fv = idents_view(fs@);
        let ghost e0 = errors_view(self.errs@);
        let mut seen: Vec<(String, Location)> = Vec::new();
        let mut i: usize = 0;
        assert(fv.take(0) =~= Seq::<SpecIdent>::empty());
        assert(entries_view(seen@) =~= Seq::<(Seq<char>, Location)>::empty());
        assert(e0 + Seq::<SpecError>::empty() =~= e0);
        while i < fs.len()
            invariant
                fv == idents_view(fs@),
                i <= fs@.len(),
                self.env@ == old(self).env@,
                errors_view(self.warns@) == errors_view(old(self).warns@),
                e0 == errors_view(old(self).errs@),
                entries_view(seen@) == fields_errors(fv.take(i as int)).0,
                errors_view(self.errs@) == e0 + fields_errors(fv.take(i as int)).1,
            decreases fs@.len() - i,
        {
            assert(fv.take(i + 1).drop_last() =~= fv.take(i as int));
            assert(fv.take(i + 1).last() == fs@[i as int]@);
            let f = &fs[i];
            let ghost sc = entries_view(seen@);
            proof {
                crate::environment::lemma_position(sc, f.val@);
            }
            match crate::environment::find_binding(&seen, &f.val) {
                Some(k) => {
                    self.push_err(error_on2(ErrorType::DuplicateField(f.val.clone()), seen[k].1, f.loc));
                    assert(e0 + fields_errors(fv.take(i + 1)).1 =~= (e0 + fields_errors(fv.take(i as int)).1).push(
                        err_on2(SpecErrorType::DuplicateField(f.val@), sc[k as int].1, f.loc),
                    ));
                },
                None => {
                    let ghost key = f.val@;
                    seen.push((f.val.clone(), f.loc));
                    assert(entries_view(seen@) =~= sc.push((key, f.loc)));
                },
            }
            i = i + 1;
        }
        assert(fv.take(fs@.len() as int) =~= fv);
    }
}

/// Checks the names a program uses, with `builtins` declared in the outermost scope (a later
/// pair for a name replacing an earlier one). Gives the warnings and the errors when there is
/// any.
pub fn varcheck(builtins: Vec<(String, NameInfo)>, stmts: &Vec<LStmt>) -> (r: Result<(), (Vec<Error>, Vec<Error>)>)
    ensures
        match r {
            Ok(()) => spec_varcheck(entries_view(builtins@), lstmts_view(stmts@)) is Ok,
            Err((warns, errs)) => spec_varcheck(entries_view(builtins@), lstmts_view(stmts@))
                == Err::<(), (Seq<SpecError>, Seq<SpecError>)>((errors_view(warns@), errors_view(errs@))),
        },
{
    let mut vc = VarCheck { env: Environment::new(builtins), errs: Vec::new(), warns: Vec::new() };
    assert(errors_view(vc.errs@) =~= Seq::<SpecError>::empty());
    assert(errors_view(vc.warns@) =~= Seq::<SpecError>::empty());
    vc.check_block(stmts);
    if vc.errs.len() > 0 || vc.warns.len() > 0 {
        Err((vc.warns, vc.errs))
    } else {
        Ok(())
    }
}

} // verus!
