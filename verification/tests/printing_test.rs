use lib::backend::lowexprstmt::Stmt as LowStmt;
use lib::backend::simplify::simplify;
use lib::builtins::native_operators;
use lib::exprstmt::{Expr, LExpr, LStmt, Stmt};
use lib::frontend::lexer::lex;
use lib::frontend::parser::parse;
use lib::frontend::reassoc::reassociate;
use lib::located::Location;

fn regrouped(code: &str) -> Vec<LStmt> {
    reassociate(native_operators(), parse(lex(code).unwrap()).unwrap()).unwrap()
}

fn shown(code: &str) -> Vec<String> {
    regrouped(code)
        .iter()
        .map(|s| {
            assert!(s.val.printable());
            s.val.format()
        })
        .collect()
}

fn shown_parsed(code: &str) -> Vec<String> {
    parse(lex(code).unwrap()).unwrap().iter().map(|s| s.val.format()).collect()
}

fn shown_lowered(code: &str) -> Vec<String> {
    simplify(regrouped(code))
        .unwrap()
        .iter()
        .map(|s| {
            assert!(s.val.printable());
            s.val.format()
        })
        .collect()
}

#[test]
fn print_expressions() {
    assert_eq!(shown("let x = f(1, \"a\", [true, y]);"), vec!["let x = f(1, \"a\", [true, y]);"]);
    assert_eq!(shown("x = a.b.c(1)[2];"), vec!["x = a.b.c(1)[2];"]);
    assert_eq!(shown("();"), vec!["();"]);
    assert_eq!(shown("let f = 1.50;"), vec!["let f = 1.50;"]);
    assert_eq!(shown("|a, b| { return a; };"), vec!["lambda(a, b)return a;;"]);
}

#[test]
fn print_shows_grouping() {
    assert_eq!(shown("let x = 1 + 2 * 3 - - 4;"), vec!["let x = ((1 + (2 * 3)) - (- 4));"]);
    assert_eq!(shown("(1 + 2) * 3;"), vec!["(((1 + 2)) * 3);"]);
}

#[test]
fn print_conditionals() {
    assert_eq!(
        shown("if a { b; } else if c { d; } else { e; }"),
        vec!["if a {\nb;\n} else if c {\nd;\n} else {\ne;\n}"]
    );
    assert_eq!(shown("if a { b; c; }"), vec!["if a {\nb;\nc;\n}  else {\n\n}"]);
}

#[test]
fn print_declarations() {
    assert_eq!(shown("fun add(a, b) { return a + b; }"), vec!["fun add(a, b)return (a + b);"]);
    assert_eq!(shown("struct P { x, y }"), vec!["struct P { x, y }"]);
    assert_eq!(shown_parsed("while x { break; continue; }"), vec!["while x {break;\ncontinue;}"]);
    assert_eq!(shown("{ let a = 1; a[0] = 2; a.b = 3; }"), vec!["{\nlet a = 1;\na[0] = 2;\na.b = 3\n}"]);
    assert_eq!(shown("infixl 3 fun <+>(a, b) { return a; }"), vec!["fun <+>(a, b)return a;"]);
}

#[test]
fn print_lowered() {
    assert_eq!(shown_lowered("fun add(a, b) { return a + b; }"), vec!["let add = lambda(a, b)return +(a, b);;"]);
    assert_eq!(shown_lowered("let x = 1 + 2 * 3;"), vec!["let x = 7;"]);
    assert_eq!(
        shown_lowered("if a { b; } else { c; }"),
        vec!["if a {\nb;\n} else if true {\nc;\n}"]
    );
    assert_eq!(shown_lowered("-x;"), vec!["$$neg(x);"]);
    assert_eq!(shown_lowered("-1.5;"), vec!["-1.5;"]);
    assert_eq!(shown_lowered("let y = 1.5 * -2.0;"), vec!["let y = (1.5 * -2.0);"]);
}

#[test]
fn print_needs_a_branch() {
    let s = Stmt::If(vec![], None);
    assert!(!s.printable());
    let e = Expr::Lambda(vec![], vec![LStmt { val: s, loc: Location { start: 0, end: 0 } }]);
    assert!(!e.printable());
    let l = LowStmt::If(vec![]);
    assert!(!l.printable());
    let ok = LExpr { val: Expr::Int(1), loc: Location { start: 0, end: 0 } };
    assert!(Stmt::If(vec![(ok, vec![])], None).printable());
}
