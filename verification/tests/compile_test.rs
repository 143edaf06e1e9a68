use lib::backend::lowexprstmt::{Expr, Stmt};
use lib::compile::compile;
use lib::error::{Error, ErrorType};
use lib::located::Location;

#[test]
fn compile_program() {
    let (warns, prog) = compile("let x = 1 + 2 * 3; print(x);");
    assert!(warns.is_empty());
    let prog = prog.unwrap();
    assert_eq!(prog.len(), 2);
    match &prog[0].val {
        Stmt::VarDecl(name, value) => {
            assert_eq!(name.val, "x");
            assert_eq!(value.val, Expr::Int(7));
        },
        other => panic!("not a binding: {:?}", other),
    }
}

#[test]
fn compile_lex_error() {
    let (warns, prog) = compile("let x = \"unclosed");
    assert!(warns.is_empty());
    assert_eq!(prog, Err(vec![Error { msg: ErrorType::StringEof, lines: vec![Location { start: 8, end: 17 }] }]));
}

#[test]
fn compile_parse_error() {
    let (warns, prog) = compile("let = 1;");
    assert!(warns.is_empty());
    assert_eq!(prog, Err(vec![Error { msg: ErrorType::ExpectedIdentifier, lines: vec![Location { start: 4, end: 4 }] }]));
}

#[test]
fn compile_name_error_keeps_warnings() {
    let (warns, prog) = compile("let a = 1; b;");
    assert_eq!(warns, vec![Error { msg: ErrorType::ItemNotUsed("a".to_string()), lines: vec![Location { start: 4, end: 4 }] }]);
    assert_eq!(prog, Err(vec![Error { msg: ErrorType::UndeclaredItem, lines: vec![Location { start: 11, end: 11 }] }]));
}

#[test]
fn compile_warnings_only() {
    let (warns, prog) = compile("let a = 1;");
    assert_eq!(warns.len(), 1);
    assert!(prog.is_ok());
}

#[test]
fn compile_operator_header_at_end() {
    // an operator header that ends the program is reported without a location
    let (_, prog) = compile("infixl 5");
    assert_eq!(prog, Err(vec![Error { msg: ErrorType::InvalidFunctionName, lines: vec![] }]));
}
