use lib::builtins::builtin_names;
use lib::error::{Error, ErrorType};
use lib::frontend::lexer::lex;
use lib::frontend::parser::parse;
use lib::located::Location;
use lib::middle::varcheck::varcheck;

fn check(code: &str) -> Result<(), (Vec<Error>, Vec<Error>)> {
    let builtins = builtin_names()
        .into_iter()
        .map(|name| (name, (Location { start: 0, end: 0 }, false)))
        .collect::<Vec<_>>();
    varcheck(builtins, &parse(lex(code).unwrap()).unwrap())
}

fn at(start: usize, end: usize) -> Location {
    Location { start, end }
}

#[test]
fn varcheck_clean_program() {
    assert_eq!(check("let x = 1; print(x + 2);"), Ok(()));
}

#[test]
fn varcheck_undeclared_use() {
    assert_eq!(
        check("y;"),
        Err((vec![], vec![Error { msg: ErrorType::UndeclaredItem, lines: vec![at(0, 0)] }]))
    );
}

#[test]
fn varcheck_undeclared_assignment() {
    assert_eq!(
        check("y = 1;"),
        Err((vec![], vec![Error { msg: ErrorType::UndeclaredItem, lines: vec![at(0, 4)] }]))
    );
}

#[test]
fn varcheck_already_declared() {
    assert_eq!(
        check("let x = 1; let x = 2; x;"),
        Err((vec![], vec![Error { msg: ErrorType::AlreadyDeclaredItem, lines: vec![at(4, 4), at(15, 15)] }]))
    );
}

#[test]
fn varcheck_unused_in_order() {
    assert_eq!(
        check("let a = 1; let b = 2;"),
        Err((
            vec![
                Error { msg: ErrorType::ItemNotUsed("a".to_string()), lines: vec![at(4, 4)] },
                Error { msg: ErrorType::ItemNotUsed("b".to_string()), lines: vec![at(15, 15)] },
            ],
            vec![]
        ))
    );
}

#[test]
fn varcheck_dead_code() {
    // statements after `return` are neither checked nor used
    let r = check("fun f() { return 1; z; } f();");
    assert_eq!(
        r,
        Err((vec![Error { msg: ErrorType::DeadCode, lines: vec![at(10, 17), at(20, 20)] }], vec![]))
    );
}

#[test]
fn varcheck_constant_conditions() {
    let r = check("if true { } else if false { } while false { }");
    assert_eq!(
        r,
        Err((
            vec![
                Error { msg: ErrorType::IfAlwaysExecutes, lines: vec![at(3, 6)] },
                Error { msg: ErrorType::IfNeverExecutes, lines: vec![at(20, 24)] },
                Error { msg: ErrorType::LoopNeverExecutes, lines: vec![at(36, 40)] },
            ],
            vec![]
        ))
    );
}

#[test]
fn varcheck_duplicate_parameter() {
    let r = check("fun f(a, a) { a; } f;");
    assert_eq!(
        r,
        Err((vec![], vec![Error { msg: ErrorType::DuplicateParameter("a".to_string()), lines: vec![at(6, 6), at(9, 9)] }]))
    );
}

#[test]
fn varcheck_duplicate_field() {
    let r = check("struct S { a, a } S;");
    assert_eq!(
        r,
        Err((vec![], vec![Error { msg: ErrorType::DuplicateField("a".to_string()), lines: vec![at(11, 11), at(14, 14)] }]))
    );
}

#[test]
fn varcheck_impl_without_struct() {
    assert_eq!(
        check("impl S {}"),
        Err((vec![], vec![Error { msg: ErrorType::ImplWithoutStruct("S".to_string()), lines: vec![at(5, 5)] }]))
    );
}

#[test]
fn varcheck_impl_of_a_struct() {
    assert_eq!(check("struct S { x } impl S { fun get(s) { return s.x; } } S(1);"), Err((
        vec![Error { msg: ErrorType::ItemNotUsed("get".to_string()), lines: vec![at(28, 30)] }],
        vec![],
    )));
}

#[test]
fn varcheck_unused_parameter_and_lambda() {
    // the body `a` of the lambda is a `return`, whose value uses `a`
    let r = check("let f = |a, b| a; f;");
    assert_eq!(
        r,
        Err((vec![Error { msg: ErrorType::ItemNotUsed("b".to_string()), lines: vec![at(12, 12)] }], vec![]))
    );
}

#[test]
fn varcheck_undeclared_operator() {
    let r = check("1 @@ 2;");
    assert_eq!(r, Err((vec![], vec![Error { msg: ErrorType::UndeclaredItem, lines: vec![at(0, 5)] }])));
}

#[test]
fn varcheck_return_value_is_checked() {
    assert_eq!(
        check("fun f() { return y; } f();"),
        Err((vec![], vec![Error { msg: ErrorType::UndeclaredItem, lines: vec![at(17, 17)] }]))
    );
}
