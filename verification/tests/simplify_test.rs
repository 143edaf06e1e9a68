use lib::backend::lowexprstmt::{Expr, FloatConst, LExpr, LStmt, Stmt};
use lib::backend::simplify::{int_arith, simplify};
use lib::builtins::native_operators;
use lib::error::{Error, ErrorType};
use lib::frontend::lexer::lex;
use lib::frontend::parser::parse;
use lib::frontend::reassoc::reassociate;
use lib::located::Location;

fn lower(code: &str) -> Result<Vec<LStmt>, Error> {
    simplify(reassociate(native_operators(), parse(lex(code).unwrap()).unwrap()).unwrap())
}

fn first_expr(code: &str) -> Expr {
    match lower(code).unwrap().remove(0).val {
        Stmt::Expr(e) => e.val,
        other => panic!("not an expression: {:?}", other),
    }
}

fn at(start: usize, end: usize) -> Location {
    Location { start, end }
}

#[test]
fn simplify_folds_integers() {
    assert_eq!(first_expr("1 + 2;"), Expr::Int(3));
    assert_eq!(first_expr("2 * 3 + 1;"), Expr::Int(7));
    assert_eq!(first_expr("7 - 10;"), Expr::Int(-3));
    assert_eq!(first_expr("7 / 2;"), Expr::Int(3));
    assert_eq!(first_expr("7 % 3;"), Expr::Int(1));
    assert_eq!(first_expr("(0 - 7) / 2;"), Expr::Int(-3));
    assert_eq!(first_expr("(0 - 7) % 3;"), Expr::Int(-1));
}

#[test]
fn simplify_folds_unary() {
    assert_eq!(first_expr("-(4);"), Expr::Int(-4));
    assert_eq!(first_expr("!true;"), Expr::Bool(false));
    assert_eq!(first_expr("- -1;"), Expr::Int(1));
}

#[test]
fn simplify_calls_for_other_operators() {
    let e = first_expr("x + 1;");
    match e {
        Expr::Call(callee, args) => {
            assert_eq!(callee.val, Expr::Identifier("+".to_string()));
            assert_eq!(callee.loc, at(2, 2));
            assert_eq!(args.len(), 2);
            assert_eq!(args[0].val, Expr::Identifier("x".to_string()));
            assert_eq!(args[1].val, Expr::Int(1));
        },
        other => panic!("not a call: {:?}", other),
    }
    // comparisons are not folded
    match first_expr("1 == 1;") {
        Expr::Call(callee, _) => assert_eq!(callee.val, Expr::Identifier("==".to_string())),
        other => panic!("not a call: {:?}", other),
    }
}

#[test]
fn simplify_unary_calls() {
    match first_expr("-x;") {
        Expr::Call(callee, args) => {
            assert_eq!(callee.val, Expr::Identifier("$$neg".to_string()));
            assert_eq!(args[0].val, Expr::Identifier("x".to_string()));
        },
        other => panic!("not a call: {:?}", other),
    }
    match first_expr("!1;") {
        Expr::Call(callee, _) => assert_eq!(callee.val, Expr::Identifier("$$not".to_string())),
        other => panic!("not a call: {:?}", other),
    }
}

fn lit(t: &str) -> FloatConst {
    FloatConst::Literal(t.to_string())
}

#[test]
fn simplify_folds_float_literals() {
    assert_eq!(
        first_expr("1.5 + 2.25;"),
        Expr::Float(FloatConst::Arith('+', Box::new(lit("1.5")), Box::new(lit("2.25"))))
    );
    assert_eq!(
        first_expr("1.0 + 2.0 * 3.5;"),
        Expr::Float(FloatConst::Arith(
            '+',
            Box::new(lit("1.0")),
            Box::new(FloatConst::Arith('*', Box::new(lit("2.0")), Box::new(lit("3.5"))))
        ))
    );
    assert_eq!(
        first_expr("-(1.0 % 2.0);"),
        Expr::Float(FloatConst::Neg(Box::new(FloatConst::Arith('%', Box::new(lit("1.0")), Box::new(lit("2.0"))))))
    );
}

#[test]
fn simplify_leaves_other_float_operations_to_run() {
    match first_expr("1.5 < 2.25;") {
        Expr::Call(callee, args) => {
            assert_eq!(callee.val, Expr::Identifier("<".to_string()));
            assert_eq!(args[0].val, Expr::Float(lit("1.5")));
            assert_eq!(args[1].val, Expr::Float(lit("2.25")));
        },
        other => panic!("not a call: {:?}", other),
    }
    match first_expr("1 + 2.0;") {
        Expr::Call(callee, _) => assert_eq!(callee.val, Expr::Identifier("+".to_string())),
        other => panic!("not a call: {:?}", other),
    }
    match first_expr("(1.0 + 2.0) * x;") {
        Expr::Call(_, args) => {
            assert_eq!(args[0].val, Expr::Float(FloatConst::Arith('+', Box::new(lit("1.0")), Box::new(lit("2.0")))))
        },
        other => panic!("not a call: {:?}", other),
    }
}

#[test]
fn simplify_negates_float_literals() {
    assert_eq!(first_expr("-1.5;"), Expr::Float(FloatConst::Neg(Box::new(lit("1.5")))));
    assert_eq!(
        first_expr("- -0.25;"),
        Expr::Float(FloatConst::Neg(Box::new(FloatConst::Neg(Box::new(lit("0.25"))))))
    );
}

#[test]
fn simplify_fold_faults() {
    assert_eq!(
        lower("2147483647 + 1;"),
        Err(Error { msg: ErrorType::OtherError("attempt to add with overflow".to_string()), lines: vec![at(0, 13)] })
    );
    assert_eq!(
        lower("1 / 0;"),
        Err(Error { msg: ErrorType::OtherError("attempt to divide by zero".to_string()), lines: vec![at(0, 4)] })
    );
    assert_eq!(
        lower("1 % 0;"),
        Err(Error {
            msg: ErrorType::OtherError("attempt to calculate the remainder with a divisor of zero".to_string()),
            lines: vec![at(0, 4)]
        })
    );
    assert_eq!(
        lower("100000 * 100000;"),
        Err(Error { msg: ErrorType::OtherError("attempt to multiply with overflow".to_string()), lines: vec![at(0, 14)] })
    );
}

#[test]
fn simplify_function_becomes_lambda() {
    let out = lower("fun f(a) { return a; }").unwrap();
    match &out[0].val {
        Stmt::VarDecl(name, LExpr { val: Expr::Lambda(params, body), loc }) => {
            assert_eq!(name.val, "f");
            assert_eq!(params.len(), 1);
            assert_eq!(params[0].val, "a");
            assert_eq!(body.len(), 1);
            assert_eq!(*loc, out[0].loc);
        },
        other => panic!("not a binding: {:?}", other),
    }
}

#[test]
fn simplify_else_becomes_true_branch() {
    let out = lower("if x { 1; } else { 2; }").unwrap();
    match &out[0].val {
        Stmt::If(branches) => {
            assert_eq!(branches.len(), 2);
            assert_eq!(branches[0].0.val, Expr::Identifier("x".to_string()));
            assert_eq!(branches[1].0.val, Expr::Bool(true));
            assert_eq!(branches[1].0.loc, out[0].loc);
        },
        other => panic!("not a conditional: {:?}", other),
    }
}

#[test]
fn simplify_keeps_statement_count() {
    let out = lower("let a = 1; a = 2; while a { break; } struct S { x } { 1; }").unwrap();
    assert_eq!(out.len(), 5);
}

#[test]
fn integer_arithmetic_of_the_operators() {
    assert_eq!(int_arith('+', 2, 3), Ok(5));
    assert_eq!(int_arith('-', 2, 3), Ok(-1));
    assert_eq!(int_arith('*', -4, 3), Ok(-12));
    assert_eq!(int_arith('/', -7, 2), Ok(-3));
    assert_eq!(int_arith('%', -7, 2), Ok(-1));
    assert_eq!(int_arith('+', i32::MAX, 1), Err("attempt to add with overflow".to_string()));
    assert_eq!(int_arith('/', 1, 0), Err("attempt to divide by zero".to_string()));
    assert_eq!(int_arith('%', 1, 0), Err("attempt to calculate the remainder with a divisor of zero".to_string()));
    assert_eq!(int_arith('/', i32::MIN, -1), Err("attempt to divide with overflow".to_string()));
}
