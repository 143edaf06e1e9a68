use lib::builtins::native_operators;
use lib::error::{Error, ErrorType};
use lib::associativity::{Associativity, Precedence};
use lib::exprstmt::{Expr, LExpr, LStmt, Stmt};
use lib::frontend::lexer::lex;
use lib::frontend::parser::parse;
use lib::frontend::reassoc::reassociate;
use lib::located::Location;

fn regroup(code: &str) -> Result<Vec<LStmt>, Error> {
    reassociate(native_operators(), parse(lex(code).unwrap()).unwrap())
}

/// The expression of an expression statement, written with explicit parentheses.
fn shape(e: &LExpr) -> String {
    match &e.val {
        Expr::Int(n) => n.to_string(),
        Expr::Identifier(x) => x.clone(),
        Expr::BinaryOperation(l, op, r) => format!("({} {} {})", shape(l), op.val, shape(r)),
        Expr::Parens(x) => format!("[{}]", shape(x)),
        Expr::UnaryOperation(op, x) => format!("{}{}", op.val, shape(x)),
        other => format!("{:?}", other),
    }
}

fn first_shape(code: &str) -> String {
    match &regroup(code).unwrap()[0].val {
        Stmt::Expr(e) => shape(e),
        other => panic!("not an expression: {:?}", other),
    }
}

#[test]
fn reassoc_left_associative_chain() {
    assert_eq!(first_shape("1 - 2 - 3;"), "((1 - 2) - 3)");
    assert_eq!(first_shape("1 + 2 - 3 + 4;"), "(((1 + 2) - 3) + 4)");
}

#[test]
fn reassoc_precedence() {
    assert_eq!(first_shape("1 + 2 * 3;"), "(1 + (2 * 3))");
    assert_eq!(first_shape("1 * 2 + 3;"), "((1 * 2) + 3)");
    assert_eq!(first_shape("1 == 2 + 3 * 4;"), "(1 == (2 + (3 * 4)))");
    assert_eq!(first_shape("1 * 2 + 3 == 4;"), "(((1 * 2) + 3) == 4)");
}

#[test]
fn reassoc_inside_parentheses_and_unary() {
    assert_eq!(first_shape("-(1 - 2 - 3);"), "-[((1 - 2) - 3)]");
    assert_eq!(first_shape("(1 - 2) - 3;"), "([(1 - 2)] - 3)");
}

#[test]
fn reassoc_keeps_operator_order_and_operands() {
    let s = first_shape("a * b + c - d / e % f;");
    let flat: String = s.chars().filter(|c| *c != '(' && *c != ')').collect();
    assert_eq!(flat, "a * b + c - d / e % f");
}

#[test]
fn reassoc_right_associative_declared() {
    let code = "infixr 3 fun ^^(a, b) { return a; } 1 ^^ 2 ^^ 3;";
    let out = regroup(code).unwrap();
    match &out[1].val {
        Stmt::Expr(e) => assert_eq!(shape(e), "(1 ^^ (2 ^^ 3))"),
        other => panic!("not an expression: {:?}", other),
    }
    match &out[0].val {
        Stmt::OperatorDecl(name, _, _, p) => {
            assert_eq!(name.val, "^^");
            assert_eq!(*p, Precedence { prec: 3, assoc: Associativity::Right });
        },
        other => panic!("not an operator: {:?}", other),
    }
}

#[test]
fn reassoc_operator_not_found() {
    assert_eq!(
        regroup("1 @ 2 @ 3;"),
        Err(Error { msg: ErrorType::OperatorNotFound("@".to_string()), lines: vec![Location { start: 6, end: 6 }] })
    );
    assert_eq!(
        regroup("1 @ 2;"),
        Err(Error { msg: ErrorType::OperatorNotFound("@".to_string()), lines: vec![Location { start: 2, end: 2 }] })
    );
}

#[test]
fn reassoc_incompatible_precedence() {
    let code = "infixr 5 fun +++(a, b) { return a; } 1 + 2 +++ 3;";
    assert_eq!(
        regroup(code),
        Err(Error {
            msg: ErrorType::IncompatiblePrecedence(
                "+".to_string(),
                Precedence { prec: 5, assoc: Associativity::Left },
                "+++".to_string(),
                Precedence { prec: 5, assoc: Associativity::Right },
            ),
            lines: vec![Location { start: 39, end: 39 }, Location { start: 43, end: 45 }],
        })
    );
}

#[test]
fn reassoc_keeps_break() {
    let out = regroup("while true { break; continue; }").unwrap();
    match &out[0].val {
        Stmt::While(_, body) => {
            assert_eq!(body[0].val, Stmt::Break);
            assert_eq!(body[1].val, Stmt::Continue);
        },
        other => panic!("not a loop: {:?}", other),
    }
    let plain = parse(lex("break; let x = f(1)[0]; { return; }").unwrap()).unwrap();
    let again = parse(lex("break; let x = f(1)[0]; { return; }").unwrap()).unwrap();
    assert_eq!(reassociate(native_operators(), plain), Ok(again));
}

#[test]
fn reassoc_unknown_operator() {
    assert_eq!(
        regroup("1 ++ 2;"),
        Err(Error { msg: ErrorType::OperatorNotFound("++".to_string()), lines: vec![Location { start: 2, end: 3 }] })
    );
    assert_eq!(
        regroup("let y = 1 + (2 <> 3);"),
        Err(Error { msg: ErrorType::OperatorNotFound("<>".to_string()), lines: vec![Location { start: 15, end: 16 }] })
    );
}

#[test]
fn reassoc_rotated_location_is_the_last_operand() {
    // `(1 - 2) - 3` is located where its last operand is
    match &regroup("1 - 2 - 3;").unwrap()[0].val {
        Stmt::Expr(e) => assert_eq!(e.loc, Location { start: 8, end: 8 }),
        other => panic!("not an expression: {:?}", other),
    }
}

#[test]
fn reassoc_groups_a_long_mixed_chain() {
    assert_eq!(
        first_shape("a || b && c == d + e * f - g < h;"),
        "((((a || b) && c) == ((d + (e * f)) - g)) < h)"
    );
}
