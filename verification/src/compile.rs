use crate::backend::lowexprstmt::{low_lstmts_view, LStmt, SpecLowLStmt};
use crate::backend::simplify::{rv_low_stmts, s_stmts, simplify};
use crate::builtins::{builtin_name_list, builtin_names, native_operator_table, native_operators};
use crate::environment::{entries_view, scope_from_pairs};
use crate::error::{Error, SpecError};
use crate::frontend::lexer::{errors_view, lex, spec_lex, tokens_view};
use crate::frontend::parser::{parse, spec_parse};
use crate::frontend::reassoc::{r_stmts, reassociate, rv_stmts};
use crate::located::Location;
use crate::middle::varcheck::{spec_varcheck, varcheck, NameInfo};
use vstd::prelude::*;

verus! {

// ---------------------------------------------------------------------------
// From source code to the lowered program
// ---------------------------------------------------------------------------

/// The built-in names as the name check declares them: at no place, and not used.
pub open spec fn builtin_scope() -> Seq<(Seq<char>, NameInfo)> {
    builtin_name_list().map_values(|n: Seq<char>| (n, (Location { start: 0, end: 0 }, false)))
}

/// Compiling `code`: the warnings of the name check, and the lowered program or the errors
/// of the first stage that failed (lexing, parsing, regrouping, the name check, lowering).
pub open spec fn spec_compile(code: Seq<char>) -> (Seq<SpecError>, Result<Seq<SpecLowLStmt>, Seq<SpecError>>) {
    match spec_lex(code) {
        Err(es) => (Seq::empty(), Err(es)),
        Ok(ts) => match spec_parse(ts) {
            Err(es) => (Seq::empty(), Err(es)),
            Ok(ast) => match r_stmts(scope_from_pairs(native_operator_table()), ast).res {
                Err(e) => (Seq::empty(), Err(seq![e])),
                Ok(ast2) => {
                    let (warns, errs) = match spec_varcheck(builtin_scope(), ast2) {
                        Ok(()) => (Seq::empty(), Seq::empty()),
                        Err((w, e)) => (w, e),
                    };
                    if errs.len() > 0 {
                        (warns, Err(errs))
                    } else {
                        match s_stmts(ast2) {
                            Err(e) => (warns, Err(seq![e])),
                            Ok(low) => (warns, Ok(low)),
                        }
                    }
                },
            },
        },
    }
}

/// The built-in names, each declared at no place and not used.
fn builtin_scope_exec() -> (r: Vec<(String, NameInfo)>)
    ensures
        entries_view(r@) == builtin_scope(),
{
    let names = builtin_names();
    let ghost nv = names@.map_values(|s: String| s@);
    let mut r: Vec<(String, NameInfo)> = Vec::new();
    let mut i: usize = 0;
    while i < names.len()
        invariant
            i <= names@.len(),
            nv == names@.map_values(|s: String| s@),
            nv == builtin_name_list(),
            entries_view(r@) == builtin_scope().take(i as int),
        decreases names@.len() - i,
    {
        let ghost pre = entries_view(r@);
        r.push((names[i].clone(), (Location { start: 0, end: 0 }, false)));
        assert(entries_view(r@) =~= builtin_scope().take(i + 1)) by {
            assert(builtin_scope().take(i + 1) =~= pre.push((nv[i as int], (Location { start: 0, end: 0 }, false))));
        }
        i = i + 1;
    }
    assert(builtin_scope().take(names@.len() as int) =~= builtin_scope());
    r
}

/// Compiles `code`: gives the warnings of the name check, and the lowered program or the
/// errors of the first stage that failed.
pub fn compile(code: &str) -> (r: (Vec<Error>, Result<Vec<LStmt>, Vec<Error>>))
    ensures
        errors_view(r.0@) == spec_compile(code@).0,
        match r.1 {
            Ok(p) => spec_compile(code@).1 == Ok::<Seq<SpecLowLStmt>, Seq<SpecError>>(low_lstmts_view(p@)),
            Err(es) => spec_compile(code@).1 == Err::<Seq<SpecLowLStmt>, Seq<SpecError>>(errors_view(es@)),
        },
{
    let none: Vec<Error> = Vec::new();
    assert(errors_view(none@) =~= Seq::<SpecError>::empty());
    let tokens = match lex(code) {
        Ok(t) => t,
        Err(es) => {
            return (none, Err(es));
        },
    };
    let ast = match parse(tokens) {
        Ok(a) => a,
        Err(es) => {
            return (none, Err(es));
        },
    };
    let ast2 = match reassociate(native_operators(), ast) {
        Ok(a) => a,
        Err(e) => {
            let mut es: Vec<Error> = Vec::new();
            es.push(e);
            assert(errors_view(es@) =~= seq![e@]);
            return (none, Err(es));
        },
    };
    let (warns, errs) = match varcheck(builtin_scope_exec(), &ast2) {
        Ok(()) => {
            let w: Vec<Error> = Vec::new();
            let e: Vec<Error> = Vec::new();
            assert(errors_view(w@) =~= Seq::<SpecError>::empty());
            assert(errors_view(e@) =~= Seq::<SpecError>::empty());
            (w, e)
        },
        Err(we) => we,
    };
    if errs.len() > 0 {
        return (warns, Err(errs));
    }
    match simplify(ast2) {
        Ok(p) => (warns, Ok(p)),
        Err(e) => {
            let mut es: Vec<Error> = Vec::new();
            es.push(e);
            assert(errors_view(es@) =~= seq![e@]);
            (warns, Err(es))
        },
    }
}

} // verus!
