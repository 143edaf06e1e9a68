use super::lexer::{errors_view, tokens_view};
use super::token::{SpecToken, SpecTokenType, Token, TokenType};
use crate::associativity::{Associativity, Precedence};
use crate::error::{error_on, Error, ErrorType, SpecError, SpecErrorType};
use crate::exprstmt::{
    branches_view, idents_view, lexpr_view, lexprs_view, lstmt_view, lstmts_view, Expr, Identifier, LExpr, LStmt,
    SpecExpr, SpecIdent, SpecLExpr, SpecLStmt, SpecStmt, Stmt, Symbol,
};
use crate::located::{Located, Location};
use vstd::prelude::*;

verus! {

// ---------------------------------------------------------------------------
// The grammar, as a recursive-descent parser over the tokens
// ---------------------------------------------------------------------------
//
// Each parsing function looks at the tokens `t` from position `i`, with the errors `errs`
// recorded so far, and gives its result, the position parsing went on to and the errors recorded
// then. An error is given at the position where it was found; the statement loops record it,
// skip to the next statement and go on.
//
// The tokens end with an end-of-file token and parsing never moves past it, so the positions
// stay below `t.len()`. The definitions still say what happens beyond, to be total, and the
// positions they go on from are raised (`lift`) to at least where the grammar is known to have
// moved; neither case happens, as the parsing functions prove.

/// The outcome of a parsing function.
pub struct PRes<V> {
    pub res: Result<V, SpecError>,
    pub idx: int,
    pub errs: Seq<SpecError>,
}

pub open spec fn ok<V>(v: V, idx: int, errs: Seq<SpecError>) -> PRes<V> {
    PRes { res: Ok(v), idx, errs }
}

pub open spec fn fail<V>(e: SpecError, idx: int, errs: Seq<SpecError>) -> PRes<V> {
    PRes { res: Err(e), idx, errs }
}

pub open spec fn bottom<V>(idx: int, errs: Seq<SpecError>) -> PRes<V> {
    PRes { res: Err(arbitrary()), idx, errs }
}

/// The tokens left from position `i`.
pub open spec fn rem(t: Seq<SpecToken>, i: int) -> int {
    if 0 <= i < t.len() {
        t.len() - i
    } else {
        0
    }
}

pub open spec fn lift(x: int, lo: int) -> int {
    if x < lo {
        lo
    } else {
        x
    }
}

/// An error about one token.
pub open spec fn tok_error(msg: SpecErrorType, tok: SpecToken) -> SpecError {
    SpecError { msg, lines: seq![tok.loc] }
}

pub open spec fn span(start: usize, end: usize) -> Location {
    Location { start, end }
}

pub open spec fn msg_semicolon() -> Seq<char> {
    "Expected a semicolon \";\""@
}

pub open spec fn msg_block_start() -> Seq<char> {
    "Expected { at the beginning of the block"@
}

pub open spec fn msg_block_end() -> Seq<char> {
    "Expected } at the end of the block"@
}

pub open spec fn msg_equals() -> Seq<char> {
    "Expected an equals symbol"@
}

pub open spec fn msg_bracket() -> Seq<char> {
    "Expected closing bracket."@
}

pub open spec fn msg_paren() -> Seq<char> {
    "Expected a closing parenthesis"@
}

/// Takes a token of kind `k`, or fails with `ExpectedToken(msg)` about the current one.
pub open spec fn expect(t: Seq<SpecToken>, i: int, k: SpecTokenType, msg: Seq<char>) -> (Result<SpecToken, SpecError>, int) {
    if t[i].val == k {
        (Ok(t[i]), i + 1)
    } else {
        (Err(tok_error(SpecErrorType::ExpectedToken(msg), t[i])), i)
    }
}

/// Takes an identifier.
pub open spec fn p_ident(t: Seq<SpecToken>, i: int) -> (Result<SpecIdent, SpecError>, int) {
    match t[i].val {
        SpecTokenType::Identifier(name) => (Ok(Located { val: name, loc: t[i].loc }), i + 1),
        _ => (Err(tok_error(SpecErrorType::ExpectedIdentifier, t[i])), i),
    }
}

/// Skips to just after the next `;` or `}`, or to the end-of-file token.
pub open spec fn sync(t: Seq<SpecToken>, i: int) -> int
    decreases rem(t, i),
{
    if i < 0 || i >= t.len() || t[i].val is Eof {
        i
    } else if t[i].val is Semicolon || t[i].val is RBrace {
        i + 1
    } else {
        sync(t, i + 1)
    }
}

/// The closing token of a delimited list.
pub open spec fn sep_close<X>(t: Seq<SpecToken>, j: int, end_k: SpecTokenType, s: usize, items: Seq<X>) -> (Result<(Seq<X>, Location), SpecError>, int) {
    if t[j].val != end_k {
        (Err(tok_error(SpecErrorType::ExpectedClosingToken(end_k), t[j])), j)
    } else {
        (Ok((items, span(s, t[j].loc.end))), j + 1)
    }
}

/// A list of identifiers between `start_k` and `end_k`, separated by commas, with an optional
/// trailing comma.
pub open spec fn sep_idents(t: Seq<SpecToken>, i: int, start_k: SpecTokenType, end_k: SpecTokenType) -> (Result<(Seq<SpecIdent>, Location), SpecError>, int) {
    if t[i].val != start_k {
        (Err(tok_error(SpecErrorType::ExpectedOpeningToken(start_k), t[i])), i)
    } else if t[i + 1].val == end_k {
        (Ok((Seq::empty(), span(t[i].loc.start, t[i + 1].loc.end))), i + 2)
    } else {
        sep_idents_loop(t, i + 1, end_k, t[i].loc.start, Seq::empty())
    }
}

pub open spec fn sep_idents_loop(t: Seq<SpecToken>, j: int, end_k: SpecTokenType, s: usize, items: Seq<SpecIdent>) -> (Result<(Seq<SpecIdent>, Location), SpecError>, int)
    decreases rem(t, j),
{
    if j < 0 || j >= t.len() {
        (Err(arbitrary()), j)
    } else {
        match p_ident(t, j) {
            (Err(e), j2) => (Err(e), j2),
            (Ok(id), j2) => {
                let items2 = items.push(id);
                if !(t[j2].val is Comma) {
                    sep_close(t, j2, end_k, s, items2)
                } else if t[j2 + 1].val == end_k {
                    sep_close(t, j2 + 1, end_k, s, items2)
                } else {
                    sep_idents_loop(t, j2 + 1, end_k, s, items2)
                }
            },
        }
    }
}

/// A list of expressions between `start_k` and `end_k`, separated by commas, with an optional
/// trailing comma.
pub open spec fn p_sep_exprs(t: Seq<SpecToken>, i: int, errs: Seq<SpecError>, start_k: SpecTokenType, end_k: SpecTokenType) -> PRes<(Seq<SpecLExpr>, Location)>
    decreases rem(t, i), 11int,
{
    if i < 0 || i >= t.len() {
        bottom(i, errs)
    } else if t[i].val != start_k {
        fail(tok_error(SpecErrorType::ExpectedOpeningToken(start_k), t[i]), i, errs)
    } else if i + 1 < t.len() && t[i + 1].val == end_k {
        ok((Seq::empty(), span(t[i].loc.start, t[i + 1].loc.end)), i + 2, errs)
    } else {
        p_sep_exprs_loop(t, i + 1, errs, end_k, t[i].loc.start, Seq::empty())
    }
}

pub open spec fn p_sep_exprs_loop(t: Seq<SpecToken>, j: int, errs: Seq<SpecError>, end_k: SpecTokenType, s: usize, items: Seq<SpecLExpr>) -> PRes<(Seq<SpecLExpr>, Location)>
    decreases rem(t, j), 18int,
{
    if j < 0 || j >= t.len() {
        bottom(j, errs)
    } else {
        let r = p_expression(t, j, errs);
        match r.res {
            Err(e) => fail(e, r.idx, r.errs),
            Ok(x) => {
                let j2 = lift(r.idx, j + 1);
                let items2 = items.push(x);
                if !(t[j2].val is Comma) {
                    let (c, j3) = sep_close(t, j2, end_k, s, items2);
                    PRes { res: c, idx: j3, errs: r.errs }
                } else if t[j2 + 1].val == end_k {
                    let (c, j3) = sep_close(t, j2 + 1, end_k, s, items2);
                    PRes { res: c, idx: j3, errs: r.errs }
                } else {
                    p_sep_exprs_loop(t, j2 + 1, r.errs, end_k, s, items2)
                }
            },
        }
    }
}

/// An expression: operators are taken as right-associative with equal precedence; they are
/// regrouped later.
pub open spec fn p_expression(t: Seq<SpecToken>, i: int, errs: Seq<SpecError>) -> PRes<SpecLExpr>
    decreases rem(t, i), 17int,
{
    if i < 0 || i >= t.len() {
        bottom(i, errs)
    } else {
        let l = p_unary(t, i, errs);
        match l.res {
            Err(e) => fail(e, l.idx, l.errs),
            Ok(left) => {
                let j = lift(l.idx, i + 1);
                match t[j].val {
                    SpecTokenType::Symbol(name) => {
                        let r = p_expression(t, j + 1, l.errs);
                        match r.res {
                            Err(e) => fail(e, r.idx, r.errs),
                            Ok(right) => ok(
                                Located {
                                    val: SpecExpr::BinaryOperation(
                                        Box::new(left),
                                        Located { val: name, loc: t[j].loc },
                                        Box::new(right),
                                    ),
                                    loc: span(left.loc.start, right.loc.end),
                                },
                                r.idx,
                                r.errs,
                            ),
                        }
                    },
                    _ => ok(left, j, l.errs),
                }
            },
        }
    }
}

pub open spec fn is_minus_or_not(s: Seq<char>) -> bool {
    s == seq!['-'] || s == seq!['!']
}

/// A unary operation (`-` or `!`), a lambda without parameters (`||`), or a suffixed expression.
pub open spec fn p_unary(t: Seq<SpecToken>, i: int, errs: Seq<SpecError>) -> PRes<SpecLExpr>
    decreases rem(t, i), 16int,
{
    if i < 0 || i >= t.len() {
        bottom(i, errs)
    } else {
        match t[i].val {
            SpecTokenType::Symbol(sym) => if sym == seq!['|', '|'] {
                p_lambda(t, i, errs, false)
            } else if !is_minus_or_not(sym) {
                fail(tok_error(SpecErrorType::UnknownUnaryOperator, t[i]), i, errs)
            } else {
                let r = p_unary(t, i + 1, errs);
                match r.res {
                    Err(e) => fail(e, r.idx, r.errs),
                    Ok(x) => ok(
                        Located {
                            val: SpecExpr::UnaryOperation(Located { val: sym, loc: t[i].loc }, Box::new(x)),
                            loc: span(t[i].loc.start, x.loc.end),
                        },
                        r.idx,
                        r.errs,
                    ),
                }
            },
            _ => p_suffix(t, i, errs),
        }
    }
}

/// A primary expression followed by calls, indexing and field or method accesses.
pub open spec fn p_suffix(t: Seq<SpecToken>, i: int, errs: Seq<SpecError>) -> PRes<SpecLExpr>
    decreases rem(t, i), 15int,
{
    if i < 0 || i >= t.len() {
        bottom(i, errs)
    } else {
        let p = p_primary(t, i, errs);
        match p.res {
            Err(e) => fail(e, p.idx, p.errs),
            Ok(x) => p_suffix_loop(t, lift(p.idx, i + 1), p.errs, x, x.loc.start),
        }
    }
}

pub open spec fn p_suffix_loop(t: Seq<SpecToken>, j: int, errs: Seq<SpecError>, x: SpecLExpr, start: usize) -> PRes<SpecLExpr>
    decreases rem(t, j), 12int,
{
    if j < 0 || j >= t.len() {
        bottom(j, errs)
    } else {
        match t[j].val {
            SpecTokenType::LParen => {
                let a = p_sep_exprs(t, j, errs, SpecTokenType::LParen, SpecTokenType::RParen);
                match a.res {
                    Err(e) => fail(e, a.idx, a.errs),
                    Ok((args, l)) => p_suffix_loop(
                        t,
                        lift(a.idx, j + 1),
                        a.errs,
                        Located { val: SpecExpr::Call(Box::new(x), args), loc: span(start, l.end) },
                        start,
                    ),
                }
            },
            SpecTokenType::LBracket => {
                let k = p_expression(t, j + 1, errs);
                match k.res {
                    Err(e) => fail(e, k.idx, k.errs),
                    Ok(index) => {
                        let j2 = lift(k.idx, j + 2);
                        match expect(t, j2, SpecTokenType::RBracket, msg_bracket()) {
                            (Err(e), j3) => fail(e, j3, k.errs),
                            (Ok(close), j3) => p_suffix_loop(
                                t,
                                j3,
                                k.errs,
                                Located {
                                    val: SpecExpr::Index(Box::new(x), Box::new(index)),
                                    loc: span(start, close.loc.end),
                                },
                                start,
                            ),
                        }
                    },
                }
            },
            SpecTokenType::Dot => match p_ident(t, j + 1) {
                (Err(e), j2) => fail(e, j2, errs),
                (Ok(name), j2) => if t[j2].val is LParen {
                    let a = p_sep_exprs(t, j2, errs, SpecTokenType::LParen, SpecTokenType::RParen);
                    match a.res {
                        Err(e) => fail(e, a.idx, a.errs),
                        Ok((args, l)) => p_suffix_loop(
                            t,
                            lift(a.idx, j2 + 1),
                            a.errs,
                            Located { val: SpecExpr::MethodAccess(Box::new(x), name, args), loc: span(start, l.end) },
                            start,
                        ),
                    }
                } else {
                    p_suffix_loop(
                        t,
                        j2,
                        errs,
                        Located { val: SpecExpr::FieldAccess(Box::new(x), name), loc: span(start, name.loc.end) },
                        start,
                    )
                },
            },
            _ => ok(x, j, errs),
        }
    }
}

/// A lambda: `|params| body` when `has_params`, else `|| body` (the `||` being one symbol);
/// the body is a block or a single expression, which is returned.
pub open spec fn p_lambda(t: Seq<SpecToken>, i: int, errs: Seq<SpecError>, has_params: bool) -> PRes<SpecLExpr>
    decreases rem(t, i), 10int,
{
    if i < 0 || i >= t.len() {
        bottom(i, errs)
    } else {
        let start = t[i].loc.start;
        let (ps, j) = if has_params {
            match sep_idents(t, i, SpecTokenType::Pipe, SpecTokenType::Pipe) {
                (Err(e), j) => (Err(e), j),
                (Ok((ps, _)), j) => (Ok(ps), lift(j, i + 1)),
            }
        } else {
            (Ok(Seq::empty()), i + 1)
        };
        match ps {
            Err(e) => fail(e, j, errs),
            Ok(params) => if t[j].val is LBrace {
                let b = p_block(t, j, errs);
                match b.res {
                    Err(e) => fail(e, b.idx, b.errs),
                    Ok(block) => ok(
                        Located { val: SpecExpr::Lambda(params, block.val), loc: span(start, block.loc.end) },
                        b.idx,
                        b.errs,
                    ),
                }
            } else {
                let r = p_expression(t, j, errs);
                match r.res {
                    Err(e) => fail(e, r.idx, r.errs),
                    Ok(x) => ok(
                        Located {
                            val: SpecExpr::Lambda(params, seq![Located { val: SpecStmt::Return(x), loc: x.loc }]),
                            loc: span(start, x.loc.end),
                        },
                        r.idx,
                        r.errs,
                    ),
                }
            },
        }
    }
}

/// A literal, a name, a parenthesized expression, `()`, an operator in parentheses (as a name),
/// a list, or a lambda with parameters.
pub open spec fn p_primary(t: Seq<SpecToken>, i: int, errs: Seq<SpecError>) -> PRes<SpecLExpr>
    decreases rem(t, i), 13int,
{
    if i < 0 || i >= t.len() {
        bottom(i, errs)
    } else {
        let tok = t[i];
        match tok.val {
            SpecTokenType::String(s) => ok(Located { val: SpecExpr::String(s), loc: tok.loc }, i + 1, errs),
            SpecTokenType::Int(n) => ok(Located { val: SpecExpr::Int(n), loc: tok.loc }, i + 1, errs),
            SpecTokenType::Float(f) => ok(Located { val: SpecExpr::Float(f), loc: tok.loc }, i + 1, errs),
            SpecTokenType::Identifier(n) => ok(Located { val: SpecExpr::Identifier(n), loc: tok.loc }, i + 1, errs),
            SpecTokenType::True => ok(Located { val: SpecExpr::Bool(true), loc: tok.loc }, i + 1, errs),
            SpecTokenType::False => ok(Located { val: SpecExpr::Bool(false), loc: tok.loc }, i + 1, errs),
            SpecTokenType::LParen => {
                let next = t[i + 1];
                let inner: PRes<SpecExpr> = match next.val {
                    SpecTokenType::RParen => ok(SpecExpr::Unit, i + 1, errs),
                    SpecTokenType::Symbol(sym) => if i + 2 < t.len() && t[i + 2].val is RParen {
                        ok(SpecExpr::Identifier(sym), i + 2, errs)
                    } else {
                        let r = p_expression(t, i + 1, errs);
                        match r.res {
                            Err(e) => fail(e, r.idx, r.errs),
                            Ok(x) => ok(SpecExpr::Parens(Box::new(x)), lift(r.idx, i + 2), r.errs),
                        }
                    },
                    _ => {
                        let r = p_expression(t, i + 1, errs);
                        match r.res {
                            Err(e) => fail(e, r.idx, r.errs),
                            Ok(x) => ok(SpecExpr::Parens(Box::new(x)), lift(r.idx, i + 2), r.errs),
                        }
                    },
                };
                match inner.res {
                    Err(e) => fail(e, inner.idx, inner.errs),
                    Ok(v) => match expect(t, inner.idx, SpecTokenType::RParen, msg_paren()) {
                        (Err(e), j) => fail(e, j, inner.errs),
                        (Ok(close), j) => ok(Located { val: v, loc: span(tok.loc.start, close.loc.end) }, j, inner.errs),
                    },
                }
            },
            SpecTokenType::LBracket => {
                let l = p_sep_exprs(t, i, errs, SpecTokenType::LBracket, SpecTokenType::RBracket);
                match l.res {
                    Err(e) => fail(e, l.idx, l.errs),
                    Ok((items, loc)) => ok(Located { val: SpecExpr::List(items), loc }, l.idx, l.errs),
                }
            },
            SpecTokenType::Eof => fail(tok_error(SpecErrorType::UnexpectedEof, tok), i, errs),
            SpecTokenType::Pipe => p_lambda(t, i, errs, true),
            _ => fail(tok_error(SpecErrorType::UnknownElement(tok.val), tok), i, errs),
        }
    }
}

/// A statement.
pub open spec fn p_statement(t: Seq<SpecToken>, i: int, errs: Seq<SpecError>) -> PRes<SpecLStmt>
    decreases rem(t, i), 20int,
{
    if i < 0 || i >= t.len() {
        bottom(i, errs)
    } else {
        let tok = t[i];
        match tok.val {
            SpecTokenType::Let => p_var_decl(t, i, errs),
            SpecTokenType::If => p_if_else(t, i, errs),
            SpecTokenType::While => p_while(t, i, errs),
            SpecTokenType::Fun => p_fun(t, i, errs, false),
            SpecTokenType::Infixl | SpecTokenType::Infixr => p_operator(t, i, errs),
            SpecTokenType::Struct => p_struct(t, i, errs),
            SpecTokenType::Impl => p_impl(t, i, errs),
            SpecTokenType::Continue | SpecTokenType::Break => p_jump(t, i, errs),
            SpecTokenType::Return => p_return(t, i, errs),
            SpecTokenType::LBrace => {
                let b = p_block(t, i, errs);
                match b.res {
                    Err(e) => fail(e, b.idx, b.errs),
                    Ok(block) => ok(Located { val: SpecStmt::Block(block.val), loc: block.loc }, b.idx, b.errs),
                }
            },
            _ => p_assignment(t, i, errs),
        }
    }
}

/// `continue;` or `break;`
pub open spec fn p_jump(t: Seq<SpecToken>, i: int, errs: Seq<SpecError>) -> PRes<SpecLStmt> {
    let tok = t[i];
    let st = if tok.val is Continue { SpecStmt::Continue } else { SpecStmt::Break };
    match expect(t, i + 1, SpecTokenType::Semicolon, msg_semicolon()) {
        (Err(e), j) => fail(e, j, errs),
        (Ok(_), j) => ok(Located { val: st, loc: tok.loc }, j, errs),
    }
}

/// `return;` or `return expr;`
pub open spec fn p_return(t: Seq<SpecToken>, i: int, errs: Seq<SpecError>) -> PRes<SpecLStmt>
    decreases rem(t, i), 19int,
{
    if i < 0 || i >= t.len() {
        bottom(i, errs)
    } else {
        let tok = t[i];
        let v: PRes<SpecLExpr> = if t[i + 1].val is Semicolon {
            ok(Located { val: SpecExpr::Unit, loc: tok.loc }, i + 1, errs)
        } else {
            p_expression(t, i + 1, errs)
        };
        match v.res {
            Err(e) => fail(e, v.idx, v.errs),
            Ok(x) => match expect(t, v.idx, SpecTokenType::Semicolon, msg_semicolon()) {
                (Err(e), j) => fail(e, j, v.errs),
                (Ok(_), j) => ok(
                    Located { val: SpecStmt::Return(x), loc: span(tok.loc.start, x.loc.end) },
                    j,
                    v.errs,
                ),
            },
        }
    }
}

/// A block: statements between braces. An error in a statement is recorded and parsing goes on
/// after the next `;` or `}`.
pub open spec fn p_block(t: Seq<SpecToken>, i: int, errs: Seq<SpecError>) -> PRes<Located<Seq<SpecLStmt>>>
    decreases rem(t, i), 19int,
{
    if i < 0 || i >= t.len() {
        bottom(i, errs)
    } else {
        match expect(t, i, SpecTokenType::LBrace, msg_block_start()) {
            (Err(e), j) => fail(e, j, errs),
            (Ok(open), j) => {
                let body = p_block_items(t, j, errs, Seq::empty());
                let (stmts, k) = match body.res {
                    Ok(v) => v,
                    Err(_) => arbitrary(),
                };
                match expect(t, k, SpecTokenType::RBrace, msg_block_end()) {
                    (Err(e), k2) => fail(e, k2, body.errs),
                    (Ok(close), k2) => ok(Located { val: stmts, loc: span(open.loc.start, close.loc.end) }, k2, body.errs),
                }
            },
        }
    }
}

/// The statements of a block, up to its closing brace (or the end of the tokens).
pub open spec fn p_block_items(t: Seq<SpecToken>, j: int, errs: Seq<SpecError>, acc: Seq<SpecLStmt>) -> PRes<(Seq<SpecLStmt>, int)>
    decreases rem(t, j), 21int,
{
    if j < 0 || j >= t.len() || t[j].val is Eof || t[j].val is RBrace {
        ok((acc, j), j, errs)
    } else {
        let r = p_statement(t, j, errs);
        match r.res {
            Ok(s) => p_block_items(t, lift(r.idx, j + 1), r.errs, acc.push(s)),
            Err(e) => p_block_items(t, lift(sync(t, lift(r.idx, j)), j + 1), r.errs.push(e), acc),
        }
    }
}

/// `let name = expr;`
pub open spec fn p_var_decl(t: Seq<SpecToken>, i: int, errs: Seq<SpecError>) -> PRes<SpecLStmt>
    decreases rem(t, i), 19int,
{
    if i < 0 || i >= t.len() {
        bottom(i, errs)
    } else {
        match p_ident(t, i + 1) {
            (Err(e), j) => fail(e, j, errs),
            (Ok(name), j) => match expect(t, j, SpecTokenType::Equals, msg_equals()) {
                (Err(e), j2) => fail(e, j2, errs),
                (Ok(_), j2) => {
                    let r = p_expression(t, j2, errs);
                    match r.res {
                        Err(e) => fail(e, r.idx, r.errs),
                        Ok(x) => match expect(t, r.idx, SpecTokenType::Semicolon, msg_semicolon()) {
                            (Err(e), j3) => fail(e, j3, r.errs),
                            (Ok(_), j3) => ok(
                                Located { val: SpecStmt::VarDecl(name, x), loc: span(t[i].loc.start, x.loc.end) },
                                j3,
                                r.errs,
                            ),
                        },
                    }
                },
            },
        }
    }
}

/// `if cond { .. } else if cond { .. } else { .. }`
pub open spec fn p_if_else(t: Seq<SpecToken>, i: int, errs: Seq<SpecError>) -> PRes<SpecLStmt>
    decreases rem(t, i), 19int,
{
    if i < 0 || i >= t.len() {
        bottom(i, errs)
    } else {
        let c = p_expression(t, i + 1, errs);
        match c.res {
            Err(e) => fail(e, c.idx, c.errs),
            Ok(cond) => {
                let b = p_block(t, lift(c.idx, i + 2), c.errs);
                match b.res {
                    Err(e) => fail(e, b.idx, b.errs),
                    Ok(block) => p_else_chain(
                        t,
                        lift(b.idx, i + 3),
                        b.errs,
                        seq![(cond, block.val)],
                        t[i].loc.start,
                        block.loc.end,
                    ),
                }
            },
        }
    }
}

/// The `else` part of a conditional, the branches so far being `blocks`.
pub open spec fn p_else_chain(t: Seq<SpecToken>, j: int, errs: Seq<SpecError>, blocks: Seq<(SpecLExpr, Seq<SpecLStmt>)>, start: usize, end: usize) -> PRes<SpecLStmt>
    decreases rem(t, j), 19int,
{
    if j < 0 || j >= t.len() {
        bottom(j, errs)
    } else if !(t[j].val is Else) {
        ok(Located { val: SpecStmt::If(blocks, None), loc: span(start, end) }, j, errs)
    } else if t[j + 1].val is If {
        let c = p_expression(t, j + 2, errs);
        match c.res {
            Err(e) => fail(e, c.idx, c.errs),
            Ok(cond) => {
                let b = p_block(t, lift(c.idx, j + 3), c.errs);
                match b.res {
                    Err(e) => fail(e, b.idx, b.errs),
                    Ok(block) => p_else_chain(t, lift(b.idx, j + 4), b.errs, blocks.push((cond, block.val)), start, block.loc.end),
                }
            },
        }
    } else {
        let b = p_block(t, j + 1, errs);
        match b.res {
            Err(e) => fail(e, b.idx, b.errs),
            Ok(block) => ok(
                Located { val: SpecStmt::If(blocks, Some(block.val)), loc: span(start, block.loc.end) },
                b.idx,
                b.errs,
            ),
        }
    }
}

/// `while cond { .. }`
pub open spec fn p_while(t: Seq<SpecToken>, i: int, errs: Seq<SpecError>) -> PRes<SpecLStmt>
    decreases rem(t, i), 19int,
{
    if i < 0 || i >= t.len() {
        bottom(i, errs)
    } else {
        let c = p_expression(t, i + 1, errs);
        match c.res {
            Err(e) => fail(e, c.idx, c.errs),
            Ok(cond) => {
                let b = p_block(t, lift(c.idx, i + 2), c.errs);
                match b.res {
                    Err(e) => fail(e, b.idx, b.errs),
                    Ok(block) => ok(
                        Located { val: SpecStmt::While(cond, block.val), loc: span(t[i].loc.start, block.loc.end) },
                        b.idx,
                        b.errs,
                    ),
                }
            },
        }
    }
}

/// The error for a function header that would begin past the end-of-file token: an operator
/// declaration `infixl n` or `infixr n` that ends the input. It is the only error given with no
/// location.
pub open spec fn header_at_end() -> SpecError {
    SpecError { msg: SpecErrorType::InvalidFunctionName, lines: Seq::empty() }
}

/// `fun name(params) { .. }`, or an operator `fun sym(a, b) { .. }` (of precedence 0, grouping to
/// the left); with `force_operator`, a name is refused. The keyword itself is skipped unread.
pub open spec fn p_fun(t: Seq<SpecToken>, i: int, errs: Seq<SpecError>, force_operator: bool) -> PRes<SpecLStmt>
    decreases rem(t, i), 19int,
{
    if i < 0 || i >= t.len() {
        bottom(i, errs)
    } else if t[i].val is Eof {
        fail(header_at_end(), i, errs)
    } else {
        let tok = t[i + 1];
        let head: Result<(bool, Seq<char>), SpecError> = match tok.val {
            SpecTokenType::Identifier(name) => if force_operator {
                Err(tok_error(SpecErrorType::InvalidOperatorname, tok))
            } else {
                Ok((false, name))
            },
            SpecTokenType::Symbol(name) => Ok((true, name)),
            _ => Err(tok_error(SpecErrorType::InvalidFunctionName, tok)),
        };
        match head {
            Err(e) => fail(e, i + 1, errs),
            Ok((op, name)) => match sep_idents(t, i + 2, SpecTokenType::LParen, SpecTokenType::RParen) {
                (Err(e), j) => fail(e, j, errs),
                (Ok((params, _)), j) => {
                    let b = p_block(t, lift(j, i + 3), errs);
                    match b.res {
                        Err(e) => fail(e, b.idx, b.errs),
                        Ok(block) => if !op {
                            ok(
                                Located {
                                    val: SpecStmt::FunDecl(Located { val: name, loc: tok.loc }, params, block.val),
                                    loc: span(t[i].loc.start, block.loc.end),
                                },
                                b.idx,
                                b.errs,
                            )
                        } else if params.len() != 2 {
                            fail(
                                tok_error(SpecErrorType::IncorrectOperatorParameterCount(params.len() as usize), tok),
                                b.idx,
                                b.errs,
                            )
                        } else {
                            ok(
                                Located {
                                    val: SpecStmt::OperatorDecl(
                                        Located { val: name, loc: tok.loc },
                                        (params[0], params[1]),
                                        block.val,
                                        Precedence { prec: 0, assoc: Associativity::Left },
                                    ),
                                    loc: span(t[i].loc.start, block.loc.end),
                                },
                                b.idx,
                                b.errs,
                            )
                        },
                    }
                },
            },
        }
    }
}

/// `infixl n fun sym(a, b) { .. }` or `infixr n ...`: an operator with precedence `n` (0 to 10).
pub open spec fn p_operator(t: Seq<SpecToken>, i: int, errs: Seq<SpecError>) -> PRes<SpecLStmt>
    decreases rem(t, i), 19int,
{
    if i < 0 || i >= t.len() {
        bottom(i, errs)
    } else {
        let assoc = if t[i].val is Infixr { Associativity::Right } else { Associativity::Left };
        let p = t[i + 1];
        match p.val {
            SpecTokenType::Int(n) => if n < 0 || n > 10 {
                fail(tok_error(SpecErrorType::PrecedenceOutOfRange(n), p), i + 1, errs)
            } else {
                let f = p_fun(t, i + 2, errs, true);
                match f.res {
                    Err(e) => fail(e, f.idx, f.errs),
                    Ok(decl) => match decl.val {
                        SpecStmt::OperatorDecl(name, params, block, _) => ok(
                            Located {
                                val: SpecStmt::OperatorDecl(name, params, block, Precedence { prec: n as u8, assoc }),
                                loc: span(t[i].loc.start, decl.loc.end),
                            },
                            f.idx,
                            f.errs,
                        ),
                        _ => bottom(f.idx, f.errs),
                    },
                }
            },
            _ => fail(tok_error(SpecErrorType::InvalidPrecedence, p), i + 1, errs),
        }
    }
}

/// The assignment of `v` to `target`: a name, an index or a field.
pub open spec fn assignment(target: SpecLExpr, v: SpecLExpr) -> Result<SpecLStmt, SpecError> {
    let loc = span(target.loc.start, v.loc.end);
    match target.val {
        SpecExpr::Identifier(name) => Ok(Located { val: SpecStmt::Assign(Located { val: name, loc: target.loc }, v), loc }),
        SpecExpr::Index(ls, idx) => Ok(Located { val: SpecStmt::AssignIndex(*ls, *idx, v), loc }),
        SpecExpr::FieldAccess(x, name) => Ok(Located { val: SpecStmt::AssignStruct(*x, name, v), loc }),
        _ => Err(SpecError { msg: SpecErrorType::InvalidAssignmentTarget, lines: seq![target.loc] }),
    }
}

/// An expression statement `expr;`, or an assignment `target = expr;` to a name, an index or a
/// field.
pub open spec fn p_assignment(t: Seq<SpecToken>, i: int, errs: Seq<SpecError>) -> PRes<SpecLStmt>
    decreases rem(t, i), 19int,
{
    if i < 0 || i >= t.len() {
        bottom(i, errs)
    } else {
        let l = p_expression(t, i, errs);
        match l.res {
            Err(e) => fail(e, l.idx, l.errs),
            Ok(target) => {
                let j = lift(l.idx, i + 1);
                if !(t[j].val is Equals) {
                    match expect(t, j, SpecTokenType::Semicolon, msg_semicolon()) {
                        (Err(e), j2) => fail(e, j2, l.errs),
                        (Ok(_), j2) => ok(Located { val: SpecStmt::Expr(target), loc: target.loc }, j2, l.errs),
                    }
                } else {
                    let r = p_expression(t, j + 1, l.errs);
                    match r.res {
                        Err(e) => fail(e, r.idx, r.errs),
                        Ok(v) => match expect(t, r.idx, SpecTokenType::Semicolon, msg_semicolon()) {
                            (Err(e), j2) => fail(e, j2, r.errs),
                            (Ok(_), j2) => match assignment(target, v) {
                                Ok(st) => ok(st, j2, r.errs),
                                Err(e) => fail(e, j2, r.errs),
                            },
                        },
                    }
                }
            },
        }
    }
}

/// `struct Name { field, ... }`
pub open spec fn p_struct(t: Seq<SpecToken>, i: int, errs: Seq<SpecError>) -> PRes<SpecLStmt> {
    match p_ident(t, i + 1) {
        (Err(e), j) => fail(e, j, errs),
        (Ok(name), j) => match sep_idents(t, j, SpecTokenType::LBrace, SpecTokenType::RBrace) {
            (Err(e), j2) => fail(e, j2, errs),
            (Ok((fields, l)), j2) => ok(
                Located { val: SpecStmt::Struct(name, fields), loc: span(t[i].loc.start, l.end) },
                j2,
                errs,
            ),
        },
    }
}

/// The position of the first statement of a block that is no function declaration, if any.
pub open spec fn first_non_fun(stmts: Seq<SpecLStmt>) -> int
    decreases stmts.len(),
{
    if stmts.len() == 0 {
        -1
    } else if !(stmts[0].val is FunDecl) {
        0
    } else {
        let r = first_non_fun(stmts.drop_first());
        if r < 0 {
            r
        } else {
            r + 1
        }
    }
}

/// `impl Name { fun ... }`: a block of function declarations only.
pub open spec fn p_impl(t: Seq<SpecToken>, i: int, errs: Seq<SpecError>) -> PRes<SpecLStmt>
    decreases rem(t, i), 19int,
{
    if i < 0 || i >= t.len() {
        bottom(i, errs)
    } else {
        match p_ident(t, i + 1) {
            (Err(e), j) => fail(e, j, errs),
            (Ok(name), j) => {
                let b = p_block(t, j, errs);
                match b.res {
                    Err(e) => fail(e, b.idx, b.errs),
                    Ok(block) => {
                        let k = first_non_fun(block.val);
                        if k >= 0 {
                            fail(
                                SpecError { msg: SpecErrorType::NonFunStmtInImpl, lines: seq![block.val[k].loc] },
                                b.idx,
                                b.errs,
                            )
                        } else {
                            ok(
                                Located { val: SpecStmt::Impl(name, block.val), loc: span(t[i].loc.start, block.loc.end) },
                                b.idx,
                                b.errs,
                            )
                        }
                    },
                }
            },
        }
    }
}

/// The statements of a program up to its end-of-file token, with the errors recorded.
pub open spec fn p_program(t: Seq<SpecToken>, j: int, errs: Seq<SpecError>, acc: Seq<SpecLStmt>) -> (Seq<SpecLStmt>, Seq<SpecError>)
    decreases rem(t, j),
{
    if j < 0 || j >= t.len() || t[j].val is Eof {
        (acc, errs)
    } else {
        let r = p_statement(t, j, errs);
        match r.res {
            Ok(s) => p_program(t, lift(r.idx, j + 1), r.errs, acc.push(s)),
            Err(e) => p_program(t, lift(sync(t, lift(r.idx, j)), j + 1), r.errs.push(e), acc),
        }
    }
}

/// The result of parsing a sequence of tokens: its statements, or every error found.
pub open spec fn spec_parse(t: Seq<SpecToken>) -> Result<Seq<SpecLStmt>, Seq<SpecError>> {
    if t.len() == 0 || (t.len() == 1 && t[0].val is Eof) {
        Ok(Seq::empty())
    } else {
        let (stmts, errs) = p_program(t, 0, Seq::empty(), Seq::empty());
        if errs.len() > 0 {
            Err(errs)
        } else {
            Ok(stmts)
        }
    }
}

/// Tokens as the lexer gives them: they end with the end-of-file token.
pub open spec fn tokens_well_formed(t: Seq<SpecToken>) -> bool {
    t.len() > 0 && t.last().val is Eof
}


// ---------------------------------------------------------------------------
// Implementation
// ---------------------------------------------------------------------------

pub proof fn lemma_not_last(t: Seq<SpecToken>, i: int)
    requires
        tokens_well_formed(t),
        0 <= i < t.len(),
        !(t[i].val is Eof),
    ensures
        i + 1 < t.len(),
{
}

/// The kinds of token that `expect` and the delimited lists check for.
pub open spec fn is_checked_kind(k: SpecTokenType) -> bool {
    ||| k is Semicolon
    ||| k is Equals
    ||| k is LBrace
    ||| k is RBrace
    ||| k is LBracket
    ||| k is RBracket
    ||| k is LParen
    ||| k is RParen
    ||| k is Pipe
}

/// Whether a token is of the (payload-free) kind `k`.
fn token_is(t: &TokenType, k: &TokenType) -> (r: bool)
    requires
        is_checked_kind(k@),
    ensures
        r == (t@ == k@),
{
    match k {
        TokenType::Semicolon => matches!(t, TokenType::Semicolon),
        TokenType::Equals => matches!(t, TokenType::Equals),
        TokenType::LBrace => matches!(t, TokenType::LBrace),
        TokenType::RBrace => matches!(t, TokenType::RBrace),
        TokenType::LBracket => matches!(t, TokenType::LBracket),
        TokenType::RBracket => matches!(t, TokenType::RBracket),
        TokenType::LParen => matches!(t, TokenType::LParen),
        TokenType::RParen => matches!(t, TokenType::RParen),
        _ => matches!(t, TokenType::Pipe),
    }
}

/// A copy of a (payload-free) token kind.
fn copy_kind(k: &TokenType) -> (r: TokenType)
    requires
        is_checked_kind(k@),
    ensures
        r@ == k@,
{
    match k {
        TokenType::Semicolon => TokenType::Semicolon,
        TokenType::Equals => TokenType::Equals,
        TokenType::LBrace => TokenType::LBrace,
        TokenType::RBrace => TokenType::RBrace,
        TokenType::LBracket => TokenType::LBracket,
        TokenType::RBracket => TokenType::RBracket,
        TokenType::LParen => TokenType::LParen,
        TokenType::RParen => TokenType::RParen,
        _ => TokenType::Pipe,
    }
}

/// A copy of a token kind.
pub fn clone_token_type(t: &TokenType) -> (r: TokenType)
    ensures
        r@ == t@,
{
    match t {
        TokenType::Int(n) => TokenType::Int(*n),
        TokenType::Float(s) => TokenType::Float(s.clone()),
        TokenType::Identifier(s) => TokenType::Identifier(s.clone()),
        TokenType::True => TokenType::True,
        TokenType::False => TokenType::False,
        TokenType::Let => TokenType::Let,
        TokenType::Fun => TokenType::Fun,
        TokenType::Return => TokenType::Return,
        TokenType::If => TokenType::If,
        TokenType::Else => TokenType::Else,
        TokenType::While => TokenType::While,
        TokenType::Break => TokenType::Break,
        TokenType::Continue => TokenType::Continue,
        TokenType::Infixl => TokenType::Infixl,
        TokenType::Infixr => TokenType::Infixr,
        TokenType::Struct => TokenType::Struct,
        TokenType::String(s) => TokenType::String(s.clone()),
        TokenType::Impl => TokenType::Impl,
        TokenType::Eof => TokenType::Eof,
        TokenType::Symbol(s) => TokenType::Symbol(s.clone()),
        TokenType::LParen => TokenType::LParen,
        TokenType::RParen => TokenType::RParen,
        TokenType::LBracket => TokenType::LBracket,
        TokenType::RBracket => TokenType::RBracket,
        TokenType::LBrace => TokenType::LBrace,
        TokenType::RBrace => TokenType::RBrace,
        TokenType::Equals => TokenType::Equals,
        TokenType::QuestionMark => TokenType::QuestionMark,
        TokenType::Semicolon => TokenType::Semicolon,
        TokenType::Dot => TokenType::Dot,
        TokenType::Comma => TokenType::Comma,
        TokenType::Pipe => TokenType::Pipe,
    }
}

/// A copy of a token.
pub fn clone_token(t: &Token) -> (r: Token)
    ensures
        r@ == t@,
{
    Located { val: clone_token_type(&t.val), loc: t.loc }
}


pub open spec fn rv_token(r: Result<Token, Error>) -> Result<SpecToken, SpecError> {
    match r {
        Ok(x) => Ok(x@),
        Err(e) => Err(e@),
    }
}

pub open spec fn rv_ident(r: Result<Identifier, Error>) -> Result<SpecIdent, SpecError> {
    match r {
        Ok(x) => Ok(x@),
        Err(e) => Err(e@),
    }
}

pub open spec fn rv_expr(r: Result<LExpr, Error>) -> Result<SpecLExpr, SpecError> {
    match r {
        Ok(x) => Ok(lexpr_view(x)),
        Err(e) => Err(e@),
    }
}

pub open spec fn rv_stmt(r: Result<LStmt, Error>) -> Result<SpecLStmt, SpecError> {
    match r {
        Ok(x) => Ok(lstmt_view(x)),
        Err(e) => Err(e@),
    }
}

pub open spec fn rv_block(r: Result<Located<Vec<LStmt>>, Error>) -> Result<Located<Seq<SpecLStmt>>, SpecError> {
    match r {
        Ok(x) => Ok(Located { val: lstmts_view(x.val@), loc: x.loc }),
        Err(e) => Err(e@),
    }
}

pub open spec fn rv_exprs(r: Result<(Vec<LExpr>, Location), Error>) -> Result<(Seq<SpecLExpr>, Location), SpecError> {
    match r {
        Ok(x) => Ok((lexprs_view(x.0@), x.1)),
        Err(e) => Err(e@),
    }
}

pub open spec fn rv_idents(r: Result<(Vec<Identifier>, Location), Error>) -> Result<(Seq<SpecIdent>, Location), SpecError> {
    match r {
        Ok(x) => Ok((idents_view(x.0@), x.1)),
        Err(e) => Err(e@),
    }
}

/// The state of parsing a sequence of tokens.
pub struct Parser {
    tokens: Vec<Token>,
    idx: usize,
    errs: Vec<Error>,
}

impl Parser {
    pub closed spec fn toks(&self) -> Seq<SpecToken> {
        tokens_view(self.tokens@)
    }

    pub closed spec fn position(&self) -> int {
        self.idx as int
    }

    pub closed spec fn errors(&self) -> Seq<SpecError> {
        errors_view(self.errs@)
    }

    /// The tokens end with the end-of-file token and the position is on one of them.
    pub closed spec fn wf(&self) -> bool {
        tokens_well_formed(self.toks()) && self.idx < self.tokens@.len()
    }

    /// Parsing moved forward (strictly, when `strict`), and is still on a token.
    spec fn moved(&self, old: &Parser, strict: bool) -> bool {
        &&& self.tokens@ == old.tokens@
        &&& old.idx <= self.idx < self.tokens@.len()
        &&& strict ==> self.idx > old.idx
    }

    /// The outcome of a parsing function is what its specification `sp` says.
    spec fn gave<V>(&self, sp: PRes<V>, r: Result<V, SpecError>) -> bool {
        &&& self.idx == sp.idx
        &&& self.errors() == sp.errs
        &&& r == sp.res
    }

    /// A parser at the first of `tokens`, which must hold more than an end-of-file token.
    pub fn new(tokens: Vec<Token>) -> (p: Self)
        requires
            !(tokens@.len() == 0 || (tokens@.len() == 1 && tokens@[0].val is Eof)),
        ensures
            p.toks() == tokens_view(tokens@),
            p.position() == 0,
            p.errors() == Seq::<SpecError>::empty(),
    {
        let p = Parser { tokens, idx: 0, errs: Vec::new() };
        assert(p.errors() =~= Seq::<SpecError>::empty());
        p
    }

    fn is_at_end(&self) -> (r: bool)
        ensures
            r == (self.idx >= self.tokens@.len()),
    {
        self.idx >= self.tokens.len()
    }

    fn get_current(&self) -> (r: &Token)
        requires
            self.idx < self.tokens@.len(),
        ensures
            *r == self.tokens@[self.idx as int],
    {
        &self.tokens[self.idx]
    }

    fn peek(&self, n: usize) -> (r: Option<&Token>)
        ensures
            match r {
                Some(t) => self.idx + n < self.tokens@.len() && *t == self.tokens@[self.idx + n],
                None => self.idx + n >= self.tokens@.len(),
            },
    {
        if self.idx >= self.tokens.len() || n >= self.tokens.len() - self.idx {
            None
        } else {
            Some(&self.tokens[self.idx + n])
        }
    }

    /// Moves past the current token, which is not the end-of-file token.
    fn advance(&mut self)
        requires
            old(self).wf(),
            !(old(self).toks()[old(self).idx as int].val is Eof),
        ensures
            final(self).wf(),
            final(self).idx == old(self).idx + 1,
            final(self).tokens@ == old(self).tokens@,
            final(self).errs@ == old(self).errs@,
    {
        proof {
            lemma_not_last(self.toks(), self.idx as int);
        }
        assert(self.tokens.len() == self.tokens@.len());
        self.idx = self.idx + 1;
    }

    /// Whether the current token is of the (payload-free) kind `k`.
    fn is_typ(&self, k: &TokenType) -> (r: bool)
        requires
            self.wf(),
            is_checked_kind(k@),
        ensures
            r == (self.toks()[self.idx as int].val == k@),
    {
        token_is(&self.tokens[self.idx].val, k)
    }

    fn is_stmt_end(&self) -> (r: bool)
        requires
            self.wf(),
        ensures
            r == (self.toks()[self.idx as int].val is Semicolon || self.toks()[self.idx as int].val is RBrace),
    {
        match self.tokens[self.idx].val {
            TokenType::Semicolon | TokenType::RBrace => true,
            _ => false,
        }
    }

    fn is_eof(&self) -> (r: bool)
        requires
            self.wf(),
        ensures
            r == (self.toks()[self.idx as int].val is Eof),
    {
        matches!(self.tokens[self.idx].val, TokenType::Eof)
    }

    /// Takes a token of the kind `k`, or fails with `ExpectedToken(msg)` about the current token.
    fn expect(&mut self, k: &TokenType, msg: &str) -> (r: Result<Token, Error>)
        requires
            old(self).wf(),
            is_checked_kind(k@),
        ensures
            final(self).wf(),
            final(self).moved(old(self), r is Ok),
            final(self).errs@ == old(self).errs@,
            ({
                let (res, j) = expect(old(self).toks(), old(self).idx as int, k@, msg@);
                final(self).idx == j && rv_token(r) == res
            }),
    {
        let tok = clone_token(self.get_current());
        if self.is_typ(k) {
            self.advance();
            Ok(tok)
        } else {
            Err(error_on(ErrorType::ExpectedToken(super::chars::string_from(msg)), tok.loc))
        }
    }

    /// Skips to just after the next `;` or `}`, or to the end-of-file token.
    fn synchronize(&mut self)
        requires
            old(self).wf(),
        ensures
            final(self).wf(),
            final(self).moved(old(self), !(old(self).toks()[old(self).idx as int].val is Eof)),
            final(self).errs@ == old(self).errs@,
            final(self).idx == sync(old(self).toks(), old(self).idx as int),
    {
        let ghost t = self.toks();
        let ghost start = self.idx as int;
        while !self.is_at_end() && !self.is_eof()
            invariant
                self.wf(),
                t == self.toks(),
                self.tokens@ == old(self).tokens@,
                self.errs@ == old(self).errs@,
                start == old(self).idx,
                start <= self.idx,
                sync(t, start) == sync(t, self.idx as int),
                self.idx > start || !(t[start].val is Eof) || t[self.idx as int].val is Eof,
            decreases self.tokens@.len() - self.idx,
        {
            let c = self.is_stmt_end();
            self.advance();
            if c {
                return;
            }
        }
    }

    /// Takes an identifier.
    fn parse_ident(&mut self) -> (r: Result<Identifier, Error>)
        requires
            old(self).wf(),
        ensures
            final(self).wf(),
            final(self).moved(old(self), r is Ok),
            final(self).errs@ == old(self).errs@,
            ({
                let (res, j) = p_ident(old(self).toks(), old(self).idx as int);
                final(self).idx == j && rv_ident(r) == res
            }),
    {
        let cur = self.get_current();
        match &cur.val {
            TokenType::Identifier(name) => {
                let id = Located { val: name.clone(), loc: cur.loc };
                self.advance();
                Ok(id)
            },
            _ => Err(error_on(ErrorType::ExpectedIdentifier, cur.loc)),
        }
    }
}

impl Parser {
    /// Takes the closing token `end_tok` of a delimited list begun at `start`; gives the list's span.
    fn sep_close(&mut self, end_tok: &TokenType, start: usize) -> (r: Result<Location, Error>)
        requires
            old(self).wf(),
            is_checked_kind(end_tok@),
        ensures
            final(self).wf(),
            final(self).moved(old(self), r is Ok),
            final(self).errs@ == old(self).errs@,
            ({
                let (res, j) = sep_close(old(self).toks(), old(self).idx as int, end_tok@, start, Seq::<int>::empty());
                &&& final(self).idx == j
                &&& match r {
                    Ok(l) => res matches Ok((_, l2)) && l == l2,
                    Err(e) => res == Err::<(Seq<int>, Location), SpecError>(e@),
                }
            }),
    {
        let cur = self.get_current();
        if !token_is(&cur.val, end_tok) {
            return Err(error_on(ErrorType::ExpectedClosingToken(copy_kind(end_tok)), cur.loc));
        }
        let end = cur.loc.end;
        self.advance();
        Ok(Location { start, end })
    }

    /// A list of identifiers between `start_tok` and `end_tok`, separated by commas, with an
    /// optional trailing comma.
    fn sep_idents(&mut self, start_tok: &TokenType, end_tok: &TokenType) -> (r: Result<(Vec<Identifier>, Location), Error>)
        requires
            old(self).wf(),
            is_checked_kind(start_tok@),
            is_checked_kind(end_tok@),
        ensures
            final(self).wf(),
            final(self).moved(old(self), r is Ok),
            final(self).errs@ == old(self).errs@,
            ({
                let (res, j) = sep_idents(old(self).toks(), old(self).idx as int, start_tok@, end_tok@);
                final(self).idx == j && rv_idents(r) == res
            }),
    {
        let ghost t = self.toks();
        let ghost i0 = self.idx as int;
        if !self.is_typ(start_tok) {
            return Err(error_on(ErrorType::ExpectedOpeningToken(copy_kind(start_tok)), self.get_current().loc));
        }
        let start = self.get_current().loc.start;
        self.advance();
        if self.is_typ(end_tok) {
            let end = self.get_current().loc.end;
            self.advance();
            let items: Vec<Identifier> = Vec::new();
            assert(idents_view(items@) =~= Seq::<SpecIdent>::empty());
            return Ok((items, Location { start, end }));
        }
        let mut items: Vec<Identifier> = Vec::new();
        assert(idents_view(items@) =~= Seq::<SpecIdent>::empty());
        loop
            invariant
                self.wf(),
                t == self.toks(),
                self.tokens@ == old(self).tokens@,
                self.errs@ == old(self).errs@,
                i0 == old(self).idx,
                self.idx > i0,
                is_checked_kind(end_tok@),
                sep_idents(t, i0, start_tok@, end_tok@) == sep_idents_loop(t, self.idx as int, end_tok@, start, idents_view(items@)),
            decreases self.tokens@.len() - self.idx,
        {
            let ghost j = self.idx as int;
            let id = match self.parse_ident() {
                Ok(id) => id,
                Err(e) => {
                    return Err(e);
                },
            };
            let ghost pre = idents_view(items@);
            items.push(id);
            assert(idents_view(items@) =~= pre.push(id@));
            let comma = matches!(self.get_current().val, TokenType::Comma);
            if !comma {
                return match self.sep_close(end_tok, start) {
                    Ok(l) => Ok((items, l)),
                    Err(e) => Err(e),
                };
            }
            self.advance();
            if self.is_typ(end_tok) {
                return match self.sep_close(end_tok, start) {
                    Ok(l) => Ok((items, l)),
                    Err(e) => Err(e),
                };
            }
        }
    }
}

/// A copy of a name.
pub fn clone_ident(id: &Identifier) -> (r: Identifier)
    ensures
        r@ == id@,
{
    Located { val: id.val.clone(), loc: id.loc }
}

impl Parser {
    /// A list of expressions between `start_tok` and `end_tok`, separated by commas, with an
    /// optional trailing comma.
    fn sep_exprs(&mut self, start_tok: &TokenType, end_tok: &TokenType) -> (r: Result<(Vec<LExpr>, Location), Error>)
        requires
            old(self).wf(),
            is_checked_kind(start_tok@),
            is_checked_kind(end_tok@),
        ensures
            final(self).wf(),
            final(self).moved(old(self), r is Ok),
            final(self).gave(p_sep_exprs(old(self).toks(), old(self).idx as int, old(self).errors(), start_tok@, end_tok@), rv_exprs(r)),
        decreases rem(old(self).toks(), old(self).idx as int), 12int,
    {
        let ghost t = self.toks();
        let ghost i0 = self.idx as int;
        if !self.is_typ(start_tok) {
            return Err(error_on(ErrorType::ExpectedOpeningToken(copy_kind(start_tok)), self.get_current().loc));
        }
        let start = self.get_current().loc.start;
        self.advance();
        if self.is_typ(end_tok) {
            let end = self.get_current().loc.end;
            self.advance();
            let items: Vec<LExpr> = Vec::new();
            assert(lexprs_view(items@) =~= Seq::<SpecLExpr>::empty());
            return Ok((items, Location { start, end }));
        }
        let mut items: Vec<LExpr> = Vec::new();
        assert(lexprs_view(items@) =~= Seq::<SpecLExpr>::empty());
        loop
            invariant
                self.wf(),
                t == self.toks(),
                self.tokens@ == old(self).tokens@,
                i0 == old(self).idx,
                self.idx > i0,
                is_checked_kind(end_tok@),
                p_sep_exprs(t, i0, old(self).errors(), start_tok@, end_tok@) == p_sep_exprs_loop(
                    t,
                    self.idx as int,
                    self.errors(),
                    end_tok@,
                    start,
                    lexprs_view(items@),
                ),
            decreases self.tokens@.len() - self.idx,
        {
            let x = match self.parse_expression() {
                Ok(x) => x,
                Err(e) => {
                    return Err(e);
                },
            };
            let ghost pre = lexprs_view(items@);
            items.push(x);
            assert(lexprs_view(items@) =~= pre.push(lexpr_view(x)));
            let comma = matches!(self.get_current().val, TokenType::Comma);
            if !comma {
                return match self.sep_close(end_tok, start) {
                    Ok(l) => Ok((items, l)),
                    Err(e) => Err(e),
                };
            }
            self.advance();
            if self.is_typ(end_tok) {
                return match self.sep_close(end_tok, start) {
                    Ok(l) => Ok((items, l)),
                    Err(e) => Err(e),
                };
            }
        }
    }

    /// An expression; binary operators are all taken as right-associative with equal
    /// precedence, to be regrouped later.
    fn parse_expression(&mut self) -> (r: Result<LExpr, Error>)
        requires
            old(self).wf(),
        ensures
            final(self).wf(),
            final(self).moved(old(self), r is Ok),
            final(self).gave(p_expression(old(self).toks(), old(self).idx as int, old(self).errors()), rv_expr(r)),
        decreases rem(old(self).toks(), old(self).idx as int), 18int,
    {
        self.parse_binary()
    }

    fn parse_binary(&mut self) -> (r: Result<LExpr, Error>)
        requires
            old(self).wf(),
        ensures
            final(self).wf(),
            final(self).moved(old(self), r is Ok),
            final(self).gave(p_expression(old(self).toks(), old(self).idx as int, old(self).errors()), rv_expr(r)),
        decreases rem(old(self).toks(), old(self).idx as int), 17int,
    {
        let left = match self.parse_unary() {
            Ok(x) => x,
            Err(e) => {
                return Err(e);
            },
        };
        // a symbol after an operand makes a binary operation
        let cur = self.get_current();
        match &cur.val {
            TokenType::Symbol(sym_name) => {
                let op = Located { val: sym_name.clone(), loc: cur.loc };
                self.advance();
                let right = match self.parse_binary() {
                    Ok(x) => x,
                    Err(e) => {
                        return Err(e);
                    },
                };
                let loc = Location { start: left.loc.start, end: right.loc.end };
                Ok(Located { val: Expr::BinaryOperation(Box::new(left), op, Box::new(right)), loc })
            },
            _ => Ok(left),
        }
    }

    /// Whether the current token is the symbol `-` or `!`.
    fn is_minus_or_not(sym: &String) -> (r: bool)
        ensures
            r == is_minus_or_not(sym@),
    {
        let cs = super::chars::chars_of(sym.as_str());
        let r = cs.len() == 1 && (cs[0] == '-' || cs[0] == '!');
        proof {
            if cs@.len() == 1 {
                if cs@[0] == '-' {
                    assert(cs@ =~= seq!['-']);
                }
                if cs@[0] == '!' {
                    assert(cs@ =~= seq!['!']);
                }
            }
        }
        r
    }

    fn is_double_pipe(sym: &String) -> (r: bool)
        ensures
            r == (sym@ == seq!['|', '|']),
    {
        let cs = super::chars::chars_of(sym.as_str());
        let r = cs.len() == 2 && cs[0] == '|' && cs[1] == '|';
        proof {
            if r {
                assert(cs@ =~= seq!['|', '|']);
            }
        }
        r
    }

    /// A unary operation (`-` or `!`), a lambda without parameters (`||`), or a suffixed
    /// expression.
    fn parse_unary(&mut self) -> (r: Result<LExpr, Error>)
        requires
            old(self).wf(),
        ensures
            final(self).wf(),
            final(self).moved(old(self), r is Ok),
            final(self).gave(p_unary(old(self).toks(), old(self).idx as int, old(self).errors()), rv_expr(r)),
        decreases rem(old(self).toks(), old(self).idx as int), 16int,
    {
        let cur = self.get_current();
        let (sym, loc) = match &cur.val {
            TokenType::Symbol(sym) => (sym.clone(), cur.loc),
            _ => {
                return self.parse_suffix();
            },
        };
        if Self::is_double_pipe(&sym) {
            return self.parse_lambda(false);
        } else if !Self::is_minus_or_not(&sym) {
            return Err(error_on(ErrorType::UnknownUnaryOperator, loc));
        }
        self.advance();
        let x = match self.parse_unary() {
            Ok(x) => x,
            Err(e) => {
                return Err(e);
            },
        };
        let end = x.loc.end;
        Ok(Located { val: Expr::UnaryOperation(Located { val: sym, loc }, Box::new(x)), loc: Location { start: loc.start, end } })
    }

    /// A primary expression followed by calls `(args)`, indexing `[idx]` and field accesses
    /// `.name` or method calls `.name(args)`.
    fn parse_suffix(&mut self) -> (r: Result<LExpr, Error>)
        requires
            old(self).wf(),
        ensures
            final(self).wf(),
            final(self).moved(old(self), r is Ok),
            final(self).gave(p_suffix(old(self).toks(), old(self).idx as int, old(self).errors()), rv_expr(r)),
        decreases rem(old(self).toks(), old(self).idx as int), 15int,
    {
        let ghost t = self.toks();
        let ghost i0 = self.idx as int;
        let mut expr = match self.parse_primary() {
            Ok(x) => x,
            Err(e) => {
                return Err(e);
            },
        };
        let start = expr.loc.start;
        self.parse_suffix_loop(expr, start)
    }

    /// The calls, indexing and accesses that follow `x`, an expression that began at `start`.
    fn parse_suffix_loop(&mut self, x: LExpr, start: usize) -> (r: Result<LExpr, Error>)
        requires
            old(self).wf(),
        ensures
            final(self).wf(),
            final(self).moved(old(self), false),
            final(self).gave(p_suffix_loop(old(self).toks(), old(self).idx as int, old(self).errors(), lexpr_view(x), start), rv_expr(r)),
        decreases rem(old(self).toks(), old(self).idx as int), 13int,
    {
        if self.is_typ(&TokenType::LParen) {
            let (args, l) = match self.sep_exprs(&TokenType::LParen, &TokenType::RParen) {
                Ok(a) => a,
                Err(e) => {
                    return Err(e);
                },
            };
            let y = Located { val: Expr::Call(Box::new(x), args), loc: Location { start, end: l.end } };
            self.parse_suffix_loop(y, start)
        } else if self.is_typ(&TokenType::LBracket) {
            self.advance();
            let idx = match self.parse_expression() {
                Ok(i) => i,
                Err(e) => {
                    return Err(e);
                },
            };
            let close = match self.expect(&TokenType::RBracket, "Expected closing bracket.") {
                Ok(c) => c,
                Err(e) => {
                    return Err(e);
                },
            };
            let y = Located {
                val: Expr::Index(Box::new(x), Box::new(idx)),
                loc: Location { start, end: close.loc.end },
            };
            self.parse_suffix_loop(y, start)
        } else if matches!(self.get_current().val, TokenType::Dot) {
            self.advance();
            let name = match self.parse_ident() {
                Ok(n) => n,
                Err(e) => {
                    return Err(e);
                },
            };
            if self.is_typ(&TokenType::LParen) {
                // a method call
                let (args, l) = match self.sep_exprs(&TokenType::LParen, &TokenType::RParen) {
                    Ok(a) => a,
                    Err(e) => {
                        return Err(e);
                    },
                };
                let y = Located { val: Expr::MethodAccess(Box::new(x), name, args), loc: Location { start, end: l.end } };
                self.parse_suffix_loop(y, start)
            } else {
                let end = name.loc.end;
                let y = Located { val: Expr::FieldAccess(Box::new(x), name), loc: Location { start, end } };
                self.parse_suffix_loop(y, start)
            }
        } else {
            Ok(x)
        }
    }

    /// A lambda: `|params| body` when `has_params`, else `|| body`; the body is a block, or a
    /// single expression, which is returned.
    fn parse_lambda(&mut self, has_params: bool) -> (r: Result<LExpr, Error>)
        requires
            old(self).wf(),
            !has_params ==> !(old(self).toks()[old(self).idx as int].val is Eof),
        ensures
            final(self).wf(),
            final(self).moved(old(self), r is Ok),
            final(self).gave(p_lambda(old(self).toks(), old(self).idx as int, old(self).errors(), has_params), rv_expr(r)),
        decreases rem(old(self).toks(), old(self).idx as int), 10int,
    {
        let start = self.get_current().loc.start;
        let params: Vec<Identifier> = if has_params {
            match self.sep_idents(&TokenType::Pipe, &TokenType::Pipe) {
                Ok((ps, _)) => ps,
                Err(e) => {
                    return Err(e);
                },
            }
        } else {
            // move past the `||`
            self.advance();
            Vec::new()
        };
        proof {
            if !has_params {
                assert(idents_view(params@) =~= Seq::<SpecIdent>::empty());
            }
        }
        if self.is_typ(&TokenType::LBrace) {
            let block = match self.parse_block() {
                Ok(b) => b,
                Err(e) => {
                    return Err(e);
                },
            };
            Ok(Located { val: Expr::Lambda(params, block.val), loc: Location { start, end: block.loc.end } })
        } else {
            let x = match self.parse_expression() {
                Ok(x) => x,
                Err(e) => {
                    return Err(e);
                },
            };
            // the same as `{ return x; }`
            let loc = x.loc;
            let mut body: Vec<LStmt> = Vec::new();
            body.push(Located { val: Stmt::Return(x), loc });
            proof {
                assert(lstmts_view(body@) =~= seq![Located { val: SpecStmt::Return(lexpr_view(x)), loc }]);
            }
            Ok(Located { val: Expr::Lambda(params, body), loc: Location { start, end: loc.end } })
        }
    }

    /// The operator symbol at the current position when the token after it closes a parenthesis.
    fn symbol_before_paren(&self) -> (r: Option<String>)
        requires
            self.wf(),
        ensures
            match r {
                Some(sym) => self.toks()[self.idx as int].val == SpecTokenType::Symbol(sym@)
                    && self.idx + 2 < self.toks().len() + 1 && self.idx + 1 < self.toks().len()
                    && self.toks()[self.idx + 1].val is RParen,
                None => !(self.toks()[self.idx as int].val is Symbol && self.idx + 1 < self.toks().len()
                    && self.toks()[self.idx + 1].val is RParen),
            },
    {
        match &self.get_current().val {
            TokenType::Symbol(sym) => match self.peek(1) {
                Some(next) => if matches!(next.val, TokenType::RParen) {
                    Some(sym.clone())
                } else {
                    None
                },
                None => None,
            },
            _ => None,
        }
    }

    /// A literal, a name, a parenthesized expression, `()`, an operator in parentheses (taken
    /// as a name), a list, or a lambda with parameters.
    fn parse_primary(&mut self) -> (r: Result<LExpr, Error>)
        requires
            old(self).wf(),
        ensures
            final(self).wf(),
            final(self).moved(old(self), r is Ok),
            final(self).gave(p_primary(old(self).toks(), old(self).idx as int, old(self).errors()), rv_expr(r)),
        decreases rem(old(self).toks(), old(self).idx as int), 14int,
    {
        let tok = clone_token(self.get_current());
        let loc = tok.loc;
        match tok.val {
            TokenType::String(s) => {
                self.advance();
                Ok(Located { val: Expr::String(s), loc })
            },
            TokenType::Int(n) => {
                self.advance();
                Ok(Located { val: Expr::Int(n), loc })
            },
            TokenType::Float(n) => {
                self.advance();
                Ok(Located { val: Expr::Float(n), loc })
            },
            TokenType::Identifier(ident) => {
                self.advance();
                Ok(Located { val: Expr::Identifier(ident), loc })
            },
            TokenType::True => {
                self.advance();
                Ok(Located { val: Expr::Bool(true), loc })
            },
            TokenType::False => {
                self.advance();
                Ok(Located { val: Expr::Bool(false), loc })
            },
            TokenType::LParen => {
                self.advance();
                let val: Expr = if self.is_typ(&TokenType::RParen) {
                    Expr::Unit
                } else {
                    match self.symbol_before_paren() {
                        Some(sym) => {
                            // an operator used as a name: `(+)`
                            self.advance();
                            Expr::Identifier(sym)
                        },
                        None => match self.parse_expression() {
                            Ok(x) => Expr::Parens(Box::new(x)),
                            Err(e) => {
                                return Err(e);
                            },
                        },
                    }
                };
                let close = match self.expect(&TokenType::RParen, "Expected a closing parenthesis") {
                    Ok(c) => c,
                    Err(e) => {
                        return Err(e);
                    },
                };
                Ok(Located { val, loc: Location { start: loc.start, end: close.loc.end } })
            },
            TokenType::LBracket => match self.sep_exprs(&TokenType::LBracket, &TokenType::RBracket) {
                Ok((items, l)) => Ok(Located { val: Expr::List(items), loc: l }),
                Err(e) => Err(e),
            },
            TokenType::Eof => Err(error_on(ErrorType::UnexpectedEof, loc)),
            TokenType::Pipe => self.parse_lambda(true),
            other => Err(error_on(ErrorType::UnknownElement(other), loc)),
        }
    }
}

/// The first statement of `s` that is no function declaration is at `k`, or there is none when
/// `k` is the length.
proof fn lemma_first_non_fun(s: Seq<SpecLStmt>, k: int)
    requires
        0 <= k <= s.len(),
        forall|m: int| 0 <= m < k ==> (#[trigger] s[m]).val is FunDecl,
        k < s.len() ==> !(s[k].val is FunDecl),
    ensures
        first_non_fun(s) == (if k == s.len() { -1 } else { k }),
    decreases k,
{
    if s.len() > 0 && k > 0 {
        let r = s.drop_first();
        assert forall|m: int| 0 <= m < k - 1 implies (#[trigger] r[m]).val is FunDecl by {
            assert(r[m] == s[m + 1]);
        }
        lemma_first_non_fun(r, k - 1);
    }
}

/// The assignment of `v` to `target`, which must be a name, an index or a field.
fn assign_to(target: LExpr, v: LExpr) -> (r: Result<LStmt, Error>)
    ensures
        rv_stmt(r) == assignment(lexpr_view(target), lexpr_view(v)),
{
    let tloc = target.loc;
    let loc = Location { start: tloc.start, end: v.loc.end };
    match target.val {
        Expr::Identifier(name) => Ok(Located { val: Stmt::Assign(Located { val: name, loc: tloc }, v), loc }),
        Expr::Index(ls, idx) => Ok(Located { val: Stmt::AssignIndex(*ls, *idx, v), loc }),
        Expr::FieldAccess(x, name) => Ok(Located { val: Stmt::AssignStruct(*x, name, v), loc }),
        _ => Err(error_on(ErrorType::InvalidAssignmentTarget, tloc)),
    }
}

/// The position of the first statement of `stmts` that is no function declaration, if any.
fn find_non_fun(stmts: &Vec<LStmt>) -> (r: Option<usize>)
    ensures
        match r {
            Some(k) => k < stmts@.len() && first_non_fun(lstmts_view(stmts@)) == k,
            None => first_non_fun(lstmts_view(stmts@)) == -1,
        },
{
    let ghost body = lstmts_view(stmts@);
    let mut k: usize = 0;
    while k < stmts.len()
        invariant
            k <= stmts@.len(),
            body == lstmts_view(stmts@),
            forall|m: int| 0 <= m < k ==> (#[trigger] body[m]).val is FunDecl,
        decreases stmts@.len() - k,
    {
        if !matches!(stmts[k].val, Stmt::FunDecl(..)) {
            proof {
                lemma_first_non_fun(body, k as int);
            }
            return Some(k);
        }
        k = k + 1;
    }
    proof {
        lemma_first_non_fun(body, k as int);
    }
    None
}

impl Parser {
    /// A block `{ statements }`. A statement that fails is recorded in the errors, and parsing
    /// goes on after the next `;` or `}`.
    fn parse_block(&mut self) -> (r: Result<Located<Vec<LStmt>>, Error>)
        requires
            old(self).wf(),
        ensures
            final(self).wf(),
            final(self).moved(old(self), r is Ok),
            final(self).gave(p_block(old(self).toks(), old(self).idx as int, old(self).errors()), rv_block(r)),
        decreases rem(old(self).toks(), old(self).idx as int), 19int,
    {
        let ghost t = self.toks();
        let ghost i0 = self.idx as int;
        let ghost e0 = self.errors();
        let open = match self.expect(&TokenType::LBrace, "Expected { at the beginning of the block") {
            Ok(o) => o,
            Err(e) => {
                return Err(e);
            },
        };
        let start = open.loc.start;
        let mut ls: Vec<LStmt> = Vec::new();
        assert(lstmts_view(ls@) =~= Seq::<SpecLStmt>::empty());
        while !self.is_eof() && !self.is_typ(&TokenType::RBrace)
            invariant
                self.wf(),
                t == self.toks(),
                self.tokens@ == old(self).tokens@,
                i0 == old(self).idx,
                self.idx > i0,
                p_block_items(t, i0 + 1, e0, Seq::empty()) == p_block_items(
                    t,
                    self.idx as int,
                    self.errors(),
                    lstmts_view(ls@),
                ),
            decreases self.tokens@.len() - self.idx,
        {
            let ghost j = self.idx as int;
            let ghost pre = lstmts_view(ls@);
            match self.parse_statement() {
                Ok(st) => {
                    ls.push(st);
                    assert(lstmts_view(ls@) =~= pre.push(lstmt_view(st)));
                },
                Err(e) => {
                    let ghost es = self.errors();
                    self.errs.push(e);
                    assert(self.errors() =~= es.push(e@));
                    self.synchronize();
                },
            }
        }
        let close = match self.expect(&TokenType::RBrace, "Expected } at the end of the block") {
            Ok(c) => c,
            Err(e) => {
                return Err(e);
            },
        };
        let end = close.loc.end;
        Ok(Located { val: ls, loc: Location { start, end } })
    }

    /// A statement.
    fn parse_statement(&mut self) -> (r: Result<LStmt, Error>)
        requires
            old(self).wf(),
        ensures
            final(self).wf(),
            final(self).moved(old(self), r is Ok),
            final(self).gave(p_statement(old(self).toks(), old(self).idx as int, old(self).errors()), rv_stmt(r)),
        decreases rem(old(self).toks(), old(self).idx as int), 20int,
    {
        match self.get_current().val {
            TokenType::Let => self.parse_var_decl(),
            TokenType::If => self.parse_if_else(),
            TokenType::While => self.parse_while(),
            TokenType::Fun => self.parse_fun(false),
            TokenType::Infixl | TokenType::Infixr => self.parse_operator(),
            TokenType::Struct => self.parse_struct(),
            TokenType::Impl => self.parse_impl(),
            TokenType::Continue | TokenType::Break => self.parse_jump(),
            TokenType::Return => self.parse_return(),
            TokenType::LBrace => match self.parse_block() {
                Ok(bl) => Ok(Located { val: Stmt::Block(bl.val), loc: bl.loc }),
                Err(e) => Err(e),
            },
            _ => self.parse_assignment(),
        }
    }

    /// `continue;` or `break;`
    fn parse_jump(&mut self) -> (r: Result<LStmt, Error>)
        requires
            old(self).wf(),
            old(self).toks()[old(self).idx as int].val is Continue || old(self).toks()[old(self).idx as int].val is Break,
        ensures
            final(self).wf(),
            final(self).moved(old(self), r is Ok),
            final(self).gave(p_jump(old(self).toks(), old(self).idx as int, old(self).errors()), rv_stmt(r)),
    {
        let cur = self.get_current();
        let loc = cur.loc;
        let val = if matches!(cur.val, TokenType::Continue) {
            Stmt::Continue
        } else {
            Stmt::Break
        };
        self.advance();
        match self.expect(&TokenType::Semicolon, "Expected a semicolon \";\"") {
            Ok(_) => Ok(Located { val, loc }),
            Err(e) => Err(e),
        }
    }

    /// `return;` or `return expr;`
    fn parse_return(&mut self) -> (r: Result<LStmt, Error>)
        requires
            old(self).wf(),
            old(self).toks()[old(self).idx as int].val is Return,
        ensures
            final(self).wf(),
            final(self).moved(old(self), r is Ok),
            final(self).gave(p_return(old(self).toks(), old(self).idx as int, old(self).errors()), rv_stmt(r)),
        decreases rem(old(self).toks(), old(self).idx as int), 19int,
    {
        let ghost t = self.toks();
        let ghost i = self.idx as int;
        let loc = self.get_current().loc;
        self.advance();
        let val: LExpr = if self.is_typ(&TokenType::Semicolon) {
            // the returned unit stands where the statement does
            Located { val: Expr::Unit, loc }
        } else {
            match self.parse_expression() {
                Ok(x) => x,
                Err(e) => {
                    return Err(e);
                },
            }
        };
        assert(lexpr_view(val) == (if t[i + 1].val is Semicolon {
            Located { val: SpecExpr::Unit, loc: t[i].loc }
        } else {
            p_expression(t, i + 1, old(self).errors()).res->Ok_0
        }));
        match self.expect(&TokenType::Semicolon, "Expected a semicolon \";\"") {
            Ok(_) => {
                let end = val.loc.end;
                Ok(Located { val: Stmt::Return(val), loc: Location { start: loc.start, end } })
            },
            Err(e) => Err(e),
        }
    }

    /// `let name = expr;`
    fn parse_var_decl(&mut self) -> (r: Result<LStmt, Error>)
        requires
            old(self).wf(),
            old(self).toks()[old(self).idx as int].val is Let,
        ensures
            final(self).wf(),
            final(self).moved(old(self), r is Ok),
            final(self).gave(p_var_decl(old(self).toks(), old(self).idx as int, old(self).errors()), rv_stmt(r)),
        decreases rem(old(self).toks(), old(self).idx as int), 19int,
    {
        let start = self.get_current().loc.start;
        self.advance();
        let name = match self.parse_ident() {
            Ok(n) => n,
            Err(e) => {
                return Err(e);
            },
        };
        match self.expect(&TokenType::Equals, "Expected an equals symbol") {
            Ok(_) => {},
            Err(e) => {
                return Err(e);
            },
        }
        let x = match self.parse_expression() {
            Ok(x) => x,
            Err(e) => {
                return Err(e);
            },
        };
        match self.expect(&TokenType::Semicolon, "Expected a semicolon \";\"") {
            Ok(_) => {},
            Err(e) => {
                return Err(e);
            },
        }
        let end = x.loc.end;
        Ok(Located { val: Stmt::VarDecl(name, x), loc: Location { start, end } })
    }

    /// `if cond { .. } else if cond { .. } else { .. }`
    fn parse_if_else(&mut self) -> (r: Result<LStmt, Error>)
        requires
            old(self).wf(),
            old(self).toks()[old(self).idx as int].val is If,
        ensures
            final(self).wf(),
            final(self).moved(old(self), r is Ok),
            final(self).gave(p_if_else(old(self).toks(), old(self).idx as int, old(self).errors()), rv_stmt(r)),
        decreases rem(old(self).toks(), old(self).idx as int), 19int,
    {
        let start = self.get_current().loc.start;
        self.advance();
        let cond = match self.parse_expression() {
            Ok(x) => x,
            Err(e) => {
                return Err(e);
            },
        };
        let block = match self.parse_block() {
            Ok(b) => b,
            Err(e) => {
                return Err(e);
            },
        };
        let end = block.loc.end;
        let mut blocks: Vec<(LExpr, Vec<LStmt>)> = Vec::new();
        let ghost first = (lexpr_view(cond), lstmts_view(block.val@));
        blocks.push((cond, block.val));
        assert(branches_view(blocks@) =~= seq![first]);
        self.parse_else_chain(blocks, start, end)
    }

    /// The `else if` and `else` branches that follow `blocks`, of a conditional that began at
    /// `start` and so far ends at `end`.
    fn parse_else_chain(&mut self, blocks: Vec<(LExpr, Vec<LStmt>)>, start: usize, end: usize) -> (r: Result<LStmt, Error>)
        requires
            old(self).wf(),
        ensures
            final(self).wf(),
            final(self).moved(old(self), false),
            final(self).gave(
                p_else_chain(old(self).toks(), old(self).idx as int, old(self).errors(), branches_view(blocks@), start, end),
                rv_stmt(r),
            ),
        decreases rem(old(self).toks(), old(self).idx as int), 19int,
    {
        if !matches!(self.get_current().val, TokenType::Else) {
            return Ok(Located { val: Stmt::If(blocks, None), loc: Location { start, end } });
        }
        self.advance();
        if matches!(self.get_current().val, TokenType::If) {
            self.advance();
            let c = match self.parse_expression() {
                Ok(x) => x,
                Err(e) => {
                    return Err(e);
                },
            };
            let b = match self.parse_block() {
                Ok(b) => b,
                Err(e) => {
                    return Err(e);
                },
            };
            let next_end = b.loc.end;
            let mut blocks = blocks;
            let ghost pre = branches_view(blocks@);
            let ghost next = (lexpr_view(c), lstmts_view(b.val@));
            blocks.push((c, b.val));
            assert(branches_view(blocks@) =~= pre.push(next));
            self.parse_else_chain(blocks, start, next_end)
        } else {
            let b = match self.parse_block() {
                Ok(b) => b,
                Err(e) => {
                    return Err(e);
                },
            };
            let last = b.loc.end;
            Ok(Located { val: Stmt::If(blocks, Some(b.val)), loc: Location { start, end: last } })
        }
    }

    /// `while cond { .. }`
    fn parse_while(&mut self) -> (r: Result<LStmt, Error>)
        requires
            old(self).wf(),
            old(self).toks()[old(self).idx as int].val is While,
        ensures
            final(self).wf(),
            final(self).moved(old(self), r is Ok),
            final(self).gave(p_while(old(self).toks(), old(self).idx as int, old(self).errors()), rv_stmt(r)),
        decreases rem(old(self).toks(), old(self).idx as int), 19int,
    {
        let start = self.get_current().loc.start;
        self.advance();
        let cond = match self.parse_expression() {
            Ok(x) => x,
            Err(e) => {
                return Err(e);
            },
        };
        let block = match self.parse_block() {
            Ok(b) => b,
            Err(e) => {
                return Err(e);
            },
        };
        let end = block.loc.end;
        Ok(Located { val: Stmt::While(cond, block.val), loc: Location { start, end } })
    }

    /// `fun name(params) { .. }` or `fun sym(a, b) { .. }`; the keyword is skipped unread.
    fn parse_fun(&mut self, force_operator: bool) -> (r: Result<LStmt, Error>)
        requires
            old(self).wf(),
        ensures
            final(self).wf(),
            final(self).moved(old(self), r is Ok),
            final(self).gave(p_fun(old(self).toks(), old(self).idx as int, old(self).errors(), force_operator), rv_stmt(r)),
        decreases rem(old(self).toks(), old(self).idx as int), 19int,
    {
        if self.is_eof() {
            let e = Error { msg: ErrorType::InvalidFunctionName, lines: Vec::new() };
            assert(e@.lines =~= Seq::<Location>::empty());
            return Err(e);
        }
        let start = self.get_current().loc.start;
        self.advance();
        let tok = self.get_current();
        let loc = tok.loc;
        let (op, name): (bool, String) = match &tok.val {
            TokenType::Identifier(name) => {
                if force_operator {
                    return Err(error_on(ErrorType::InvalidOperatorname, loc));
                }
                (false, name.clone())
            },
            TokenType::Symbol(name) => (true, name.clone()),
            _ => {
                return Err(error_on(ErrorType::InvalidFunctionName, loc));
            },
        };
        self.advance();
        let params = match self.sep_idents(&TokenType::LParen, &TokenType::RParen) {
            Ok((ps, _)) => ps,
            Err(e) => {
                return Err(e);
            },
        };
        let block = match self.parse_block() {
            Ok(b) => b,
            Err(e) => {
                return Err(e);
            },
        };
        let end = block.loc.end;
        if !op {
            Ok(Located {
                val: Stmt::FunDecl(Located { val: name, loc }, params, block.val),
                loc: Location { start, end },
            })
        } else if params.len() != 2 {
            Err(error_on(ErrorType::IncorrectOperatorParameterCount(params.len()), loc))
        } else {
            let first = clone_ident(&params[0]);
            let second = clone_ident(&params[1]);
            Ok(Located {
                val: Stmt::OperatorDecl(
                    Located { val: name, loc },
                    (first, second),
                    block.val,
                    Precedence { prec: 0, assoc: Associativity::Left },
                ),
                loc: Location { start, end },
            })
        }
    }

    /// `infixl n fun sym(a, b) { .. }` or `infixr n ...`, with `n` from 0 to 10.
    fn parse_operator(&mut self) -> (r: Result<LStmt, Error>)
        requires
            old(self).wf(),
            old(self).toks()[old(self).idx as int].val is Infixl || old(self).toks()[old(self).idx as int].val is Infixr,
        ensures
            final(self).wf(),
            final(self).moved(old(self), r is Ok),
            final(self).gave(p_operator(old(self).toks(), old(self).idx as int, old(self).errors()), rv_stmt(r)),
        decreases rem(old(self).toks(), old(self).idx as int), 19int,
    {
        let kw = self.get_current();
        let start = kw.loc.start;
        let assoc = if matches!(kw.val, TokenType::Infixr) {
            Associativity::Right
        } else {
            Associativity::Left
        };
        self.advance();
        let p = self.get_current();
        let ploc = p.loc;
        let n: i32 = match p.val {
            TokenType::Int(n) => n,
            _ => {
                return Err(error_on(ErrorType::InvalidPrecedence, ploc));
            },
        };
        if n < 0 || n > 10 {
            return Err(error_on(ErrorType::PrecedenceOutOfRange(n), ploc));
        }
        self.advance();
        let decl = match self.parse_fun(true) {
            Ok(d) => d,
            Err(e) => {
                return Err(e);
            },
        };
        let end = decl.loc.end;
        match decl.val {
            Stmt::OperatorDecl(name, params, block, _) => Ok(Located {
                val: Stmt::OperatorDecl(name, params, block, Precedence { prec: n as u8, assoc }),
                loc: Location { start, end },
            }),
            _ => {
                proof {
                    assert(false);
                }
                Err(error_on(ErrorType::InvalidOperatorname, ploc))
            },
        }
    }

    /// The assignment of `v` to `target`: a name, an index or a field.
pub open spec fn assignment(target: SpecLExpr, v: SpecLExpr) -> Result<SpecLStmt, SpecError> {
    let loc = span(target.loc.start, v.loc.end);
    match target.val {
        SpecExpr::Identifier(name) => Ok(Located { val: SpecStmt::Assign(Located { val: name, loc: target.loc }, v), loc }),
        SpecExpr::Index(ls, idx) => Ok(Located { val: SpecStmt::AssignIndex(*ls, *idx, v), loc }),
        SpecExpr::FieldAccess(x, name) => Ok(Located { val: SpecStmt::AssignStruct(*x, name, v), loc }),
        _ => Err(SpecError { msg: SpecErrorType::InvalidAssignmentTarget, lines: seq![target.loc] }),
    }
}

/// An expression statement `expr;`, or an assignment `target = expr;`.
    fn parse_assignment(&mut self) -> (r: Result<LStmt, Error>)
        requires
            old(self).wf(),
        ensures
            final(self).wf(),
            final(self).moved(old(self), r is Ok),
            final(self).gave(p_assignment(old(self).toks(), old(self).idx as int, old(self).errors()), rv_stmt(r)),
        decreases rem(old(self).toks(), old(self).idx as int), 19int,
    {
        let target = match self.parse_expression() {
            Ok(x) => x,
            Err(e) => {
                return Err(e);
            },
        };
        if !self.is_typ(&TokenType::Equals) {
            match self.expect(&TokenType::Semicolon, "Expected a semicolon \";\"") {
                Ok(_) => {},
                Err(e) => {
                    return Err(e);
                },
            }
            let loc = target.loc;
            return Ok(Located { val: Stmt::Expr(target), loc });
        }
        self.advance();
        let v = match self.parse_expression() {
            Ok(x) => x,
            Err(e) => {
                return Err(e);
            },
        };
        match self.expect(&TokenType::Semicolon, "Expected a semicolon \";\"") {
            Ok(_) => {},
            Err(e) => {
                return Err(e);
            },
        }
        assign_to(target, v)
    }

    /// `struct Name { field, ... }`
    fn parse_struct(&mut self) -> (r: Result<LStmt, Error>)
        requires
            old(self).wf(),
            old(self).toks()[old(self).idx as int].val is Struct,
        ensures
            final(self).wf(),
            final(self).moved(old(self), r is Ok),
            final(self).gave(p_struct(old(self).toks(), old(self).idx as int, old(self).errors()), rv_stmt(r)),
    {
        let start = self.get_current().loc.start;
        self.advance();
        let name = match self.parse_ident() {
            Ok(n) => n,
            Err(e) => {
                return Err(e);
            },
        };
        let (fields, l) = match self.sep_idents(&TokenType::LBrace, &TokenType::RBrace) {
            Ok(f) => f,
            Err(e) => {
                return Err(e);
            },
        };
        Ok(Located { val: Stmt::Struct(name, fields), loc: Location { start, end: l.end } })
    }

    /// `impl Name { fun ... }`
    fn parse_impl(&mut self) -> (r: Result<LStmt, Error>)
        requires
            old(self).wf(),
            old(self).toks()[old(self).idx as int].val is Impl,
        ensures
            final(self).wf(),
            final(self).moved(old(self), r is Ok),
            final(self).gave(p_impl(old(self).toks(), old(self).idx as int, old(self).errors()), rv_stmt(r)),
        decreases rem(old(self).toks(), old(self).idx as int), 19int,
    {
        let start = self.get_current().loc.start;
        self.advance();
        let name = match self.parse_ident() {
            Ok(n) => n,
            Err(e) => {
                return Err(e);
            },
        };
        let block = match self.parse_block() {
            Ok(b) => b,
            Err(e) => {
                return Err(e);
            },
        };
        match find_non_fun(&block.val) {
            Some(k) => {
                return Err(error_on(ErrorType::NonFunStmtInImpl, block.val[k].loc));
            },
            None => {},
        }
        let end = block.loc.end;
        Ok(Located { val: Stmt::Impl(name, block.val), loc: Location { start, end } })
    }

    /// Parses every statement up to the end-of-file token; gives them, or every error found.
    pub fn parse(&mut self) -> (r: Result<Vec<LStmt>, Vec<Error>>)
        requires
            tokens_well_formed(old(self).toks()),
            old(self).position() == 0,
            old(self).errors() == Seq::<SpecError>::empty(),
        ensures
            match r {
                Ok(v) => p_program(old(self).toks(), 0, Seq::empty(), Seq::empty()) == (lstmts_view(v@), Seq::<SpecError>::empty()),
                Err(es) => {
                    let (_, errs) = p_program(old(self).toks(), 0, Seq::empty(), Seq::empty());
                    errs.len() > 0 && errs == errors_view(es@)
                },
            },
    {
        let ghost t = self.toks();
        let mut ls: Vec<LStmt> = Vec::new();
        assert(lstmts_view(ls@) =~= Seq::<SpecLStmt>::empty());
        while !self.is_eof()
            invariant
                self.wf(),
                t == self.toks(),
                p_program(t, 0, Seq::empty(), Seq::empty()) == p_program(
                    t,
                    self.idx as int,
                    self.errors(),
                    lstmts_view(ls@),
                ),
            decreases self.tokens@.len() - self.idx,
        {
            let ghost j = self.idx as int;
            let ghost pre = lstmts_view(ls@);
            match self.parse_statement() {
                Ok(st) => {
                    ls.push(st);
                    assert(lstmts_view(ls@) =~= pre.push(lstmt_view(st)));
                },
                Err(e) => {
                    let ghost es = self.errors();
                    self.errs.push(e);
                    assert(self.errors() =~= es.push(e@));
                    self.synchronize();
                },
            }
        }
        if self.errs.len() > 0 {
            let mut errs: Vec<Error> = Vec::new();
            std::mem::swap(&mut errs, &mut self.errs);
            Err(errs)
        } else {
            Ok(ls)
        }
    }
}

/// Parses tokens as the lexer gives them (ending with the end-of-file token) into statements,
/// or gives every error found.
pub fn parse(tokens: Vec<Token>) -> (r: Result<Vec<LStmt>, Vec<Error>>)
    requires
        tokens@.len() == 0 || tokens_well_formed(tokens_view(tokens@)),
    ensures
        match r {
            Ok(v) => spec_parse(tokens_view(tokens@)) == Ok::<Seq<SpecLStmt>, Seq<SpecError>>(lstmts_view(v@)),
            Err(es) => spec_parse(tokens_view(tokens@)) == Err::<Seq<SpecLStmt>, Seq<SpecError>>(errors_view(es@)),
        },
{
    let ghost t = tokens_view(tokens@);
    if tokens.len() == 0 || (tokens.len() == 1 && matches!(tokens[0].val, TokenType::Eof)) {
        let v: Vec<LStmt> = Vec::new();
        assert(lstmts_view(v@) =~= Seq::<SpecLStmt>::empty());
        return Ok(v);
    }
    let mut p = Parser::new(tokens);
    p.parse()
}


/// A statement starting `infixl n` declares an operator of precedence `n` grouping to the left,
/// one starting `infixr n` an operator of precedence `n` grouping to the right.
pub proof fn law_operator_declaration_precedence(t: Seq<SpecToken>, i: int, errs: Seq<SpecError>)
    requires
        0 <= i < t.len(),
        t[i].val is Infixl || t[i].val is Infixr,
    ensures
        p_statement(t, i, errs).res matches Ok(s) ==> ({
            &&& s.val is OperatorDecl
            &&& t[i + 1].val == SpecTokenType::Int(s.val->OperatorDecl_3.prec as i32)
            &&& 0 <= s.val->OperatorDecl_3.prec <= 10
            &&& (t[i].val is Infixl ==> s.val->OperatorDecl_3.assoc == Associativity::Left)
            &&& (t[i].val is Infixr ==> s.val->OperatorDecl_3.assoc == Associativity::Right)
        }),
{
    assert(p_statement(t, i, errs) == p_operator(t, i, errs));
}


/// A literal or a name reads as itself: a token that is a number, a string, a truth value or a
/// name gives that expression, at the token's place, and parsing goes on after it.
pub proof fn law_literal_tokens_read_as_themselves(t: Seq<SpecToken>, i: int, errs: Seq<SpecError>)
    requires
        0 <= i < t.len(),
    ensures
        t[i].val matches SpecTokenType::Int(n) ==> p_primary(t, i, errs) == ok(Located { val: SpecExpr::Int(n), loc: t[i].loc }, i + 1, errs),
        t[i].val matches SpecTokenType::Float(f) ==> p_primary(t, i, errs) == ok(Located { val: SpecExpr::Float(f), loc: t[i].loc }, i + 1, errs),
        t[i].val matches SpecTokenType::String(x) ==> p_primary(t, i, errs) == ok(Located { val: SpecExpr::String(x), loc: t[i].loc }, i + 1, errs),
        t[i].val matches SpecTokenType::Identifier(x) ==> p_primary(t, i, errs) == ok(Located { val: SpecExpr::Identifier(x), loc: t[i].loc }, i + 1, errs),
        t[i].val is True ==> p_primary(t, i, errs) == ok(Located { val: SpecExpr::Bool(true), loc: t[i].loc }, i + 1, errs),
        t[i].val is False ==> p_primary(t, i, errs) == ok(Located { val: SpecExpr::Bool(false), loc: t[i].loc }, i + 1, errs),
{
}

} // verus!
