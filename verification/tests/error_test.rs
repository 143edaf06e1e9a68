use lib::associativity::{Associativity, Precedence};
use lib::error::{Error, ErrorType};
use lib::frontend::token::TokenType;
use lib::located::Location;

fn at(start: usize, end: usize) -> Location {
    Location { start, end }
}

#[test]
fn error_messages() {
    assert_eq!(ErrorType::UnknownCharacter('§').msg(), "Unknown character: \"§\"");
    assert_eq!(ErrorType::InvalidEscapeChar("q".to_string()).msg(), "Invalid escape character: \"\\q\"");
    assert_eq!(ErrorType::PrecedenceOutOfRange(-12).msg(), "Precedence value must be between 0 and 10, got: -12");
    assert_eq!(ErrorType::IncorrectOperatorParameterCount(3).msg(), "Operator declaration must have exactly two parameters, got 3");
    assert_eq!(ErrorType::UnknownElement(TokenType::RParen).msg(), "Unknown element: RParen");
    assert_eq!(ErrorType::UnknownElement(TokenType::String("s".to_string())).msg(), "Unknown element: \"s\"");
    assert_eq!(ErrorType::ExpectedClosingToken(TokenType::RBrace).msg(), "Expected closing token RBrace");
    assert_eq!(ErrorType::IndexOutOfRange(-1, 4).msg(), "Index out of range: -1 (length 4)");
    assert_eq!(ErrorType::IncorrectParameterCount(1, 2).msg(), "The number of arguments (1) must match the number of parameters (2)");
    assert_eq!(ErrorType::ItemNotUsed("x".to_string()).msg(), "Item \"x\" not used");
    assert_eq!(ErrorType::FieldNotFound("a".to_string(), "S".to_string()).msg(), "Field \"a\" not found in \"S\"");
    assert_eq!(
        ErrorType::IncompatiblePrecedence(
            "+".to_string(),
            Precedence { prec: 5, assoc: Associativity::Left },
            "^".to_string(),
            Precedence { prec: 5, assoc: Associativity::Right },
        )
        .msg(),
        "Incompatible operator precedence: \"+\" (Precedence { prec: 5, assoc: Left }) and \"^\" (Precedence { prec: 5, assoc: Right }) - both have precedence 5"
    );
    assert_eq!(ErrorType::OtherError("boom".to_string()).msg(), "boom");
}

#[test]
fn error_warnings() {
    assert!(ErrorType::DeadCode.is_warn());
    assert!(ErrorType::ItemNotUsed("x".to_string()).is_warn());
    assert!(ErrorType::LoopNeverExecutes.is_warn());
    assert!(!ErrorType::UndeclaredItem.is_warn());
}

#[test]
fn format_single_line() {
    let e = Error { msg: ErrorType::UndeclaredItem, lines: vec![at(12, 12)] };
    let expected = format!("Error: Item not declared\n2 | x = 1;\n{}^", " ".repeat(4));
    assert_eq!(e.format_message("let x = 10;\nx = 1;"), expected);
}

#[test]
fn format_warning() {
    let e = Error { msg: ErrorType::ItemNotUsed("x".to_string()), lines: vec![at(4, 4)] };
    let expected = format!("Warning: Item \"x\" not used\n1 | let x = 10;\n{}^", " ".repeat(8));
    assert_eq!(e.format_message("let x = 10;"), expected);
}

#[test]
fn format_two_spans() {
    let e = Error { msg: ErrorType::AlreadyDeclaredItem, lines: vec![at(4, 4), at(15, 15)] };
    let expected = format!(
        "Error: Item already declared\n1 | let x = 1; let x = 2;\n{}^\n1 | let x = 1; let x = 2;\n{}^",
        " ".repeat(8),
        " ".repeat(19)
    );
    assert_eq!(e.format_message("let x = 1; let x = 2;"), expected);
}

#[test]
fn format_across_lines() {
    // the middle lines are numbered from 1
    let code = "ab\ncd\nef\ngh";
    let e = Error { msg: ErrorType::DeadCode, lines: vec![at(1, 9)] };
    let expected = format!(
        "Warning: Unreachable code\n1 | ab\n{}^\n1 | cd\n{}^^\n2 | ef\n{}^^\n4 | gh\n{}^",
        " ".repeat(5),
        " ".repeat(4),
        " ".repeat(4),
        " ".repeat(4)
    );
    assert_eq!(e.format_message(code), expected);
}

#[test]
fn format_wide_line_numbers() {
    let code = "a\nb\nc\nd\ne\nf\ng\nh\ni\nj;";
    let e = Error { msg: ErrorType::UndeclaredItem, lines: vec![at(18, 18)] };
    let expected = format!("Error: Item not declared\n10 | j;\n{}^", " ".repeat(5));
    assert_eq!(e.format_message(code), expected);
}
