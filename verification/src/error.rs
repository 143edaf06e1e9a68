use crate::associativity::{Associativity, Precedence};
use crate::frontend::chars::push_char;
use crate::frontend::token::token_text;
use crate::frontend::chars::chars_of;
use crate::text::{decimal, decimal_len, digits, pad_left, push_decimal, push_repeat, push_str, push_unsigned, repeat};
use crate::frontend::token::{SpecTokenType, TokenType};
use crate::located::Location;
use vstd::prelude::*;

verus! {

/// Everything that can go wrong (or deserve a warning) while compiling or running a program.
#[derive(Debug, PartialEq, Clone)]
pub enum ErrorType {
    UnknownCharacter(char),
    StringEol,
    StringEof,
    InvalidEscapeChar(String),
    TwoDecimalPoints,
    InvalidDigit(char),
    IntegerOverflow,
    FloatOverflow,
    CommentEof,
    CommentSymbol,
    ExpectedSemicolon,
    ExpectedToken(String),
    UnknownElement(TokenType),
    UnknownUnaryOperator,
    InvalidAssignmentTarget,
    InvalidPrecedence,
    PrecedenceOutOfRange(i32),
    IncorrectOperatorParameterCount(usize),
    InvalidFunctionName,
    InvalidOperatorname,
    ExpectedOpeningToken(TokenType),
    ExpectedClosingToken(TokenType),
    ExpectedIdentifier,
    ExpectedStructName,
    ExpectedFieldName,
    UnexpectedEof,
    NonFunStmtInImpl,
    OperatorNotFound(String),
    IncompatiblePrecedence(String, Precedence, String, Precedence),
    AlreadyDeclaredItem,
    UndeclaredItem,
    DuplicateParameter(String),
    DuplicateField(String),
    ImplWithoutStruct(String),
    ItemNotUsed(String),
    DeadCode,
    IfNeverExecutes,
    IfAlwaysExecutes,
    LoopNeverExecutes,
    ExpectedListIndex,
    ExpectedIndex,
    IndexOutOfRange(i32, usize),
    ExpectedBool,
    ItemNotCalleable,
    ExpectedUnaryNumber,
    ExpectedUnaryBool,
    ItemNotIndexable,
    IncorrectParameterCount(usize, usize),
    ReturnOutsideFunction,
    BreakOutsideLoop,
    ContinueOutsideLoop,
    NativeFunctionError(String),
    FieldNotFound(String, String),
    ExpectedInstance,
    UnknownField(String),
    ImplNameNotAStruct(String),
    OtherError(String),
}

/// An error kind as the specifications see it.
pub enum SpecErrorType {
    UnknownCharacter(char),
    StringEol,
    StringEof,
    InvalidEscapeChar(Seq<char>),
    TwoDecimalPoints,
    InvalidDigit(char),
    IntegerOverflow,
    FloatOverflow,
    CommentEof,
    CommentSymbol,
    ExpectedSemicolon,
    ExpectedToken(Seq<char>),
    UnknownElement(SpecTokenType),
    UnknownUnaryOperator,
    InvalidAssignmentTarget,
    InvalidPrecedence,
    PrecedenceOutOfRange(i32),
    IncorrectOperatorParameterCount(usize),
    InvalidFunctionName,
    InvalidOperatorname,
    ExpectedOpeningToken(SpecTokenType),
    ExpectedClosingToken(SpecTokenType),
    ExpectedIdentifier,
    ExpectedStructName,
    ExpectedFieldName,
    UnexpectedEof,
    NonFunStmtInImpl,
    OperatorNotFound(Seq<char>),
    IncompatiblePrecedence(Seq<char>, Precedence, Seq<char>, Precedence),
    AlreadyDeclaredItem,
    UndeclaredItem,
    DuplicateParameter(Seq<char>),
    DuplicateField(Seq<char>),
    ImplWithoutStruct(Seq<char>),
    ItemNotUsed(Seq<char>),
    DeadCode,
    IfNeverExecutes,
    IfAlwaysExecutes,
    LoopNeverExecutes,
    ExpectedListIndex,
    ExpectedIndex,
    IndexOutOfRange(i32, usize),
    ExpectedBool,
    ItemNotCalleable,
    ExpectedUnaryNumber,
    ExpectedUnaryBool,
    ItemNotIndexable,
    IncorrectParameterCount(usize, usize),
    ReturnOutsideFunction,
    BreakOutsideLoop,
    ContinueOutsideLoop,
    NativeFunctionError(Seq<char>),
    FieldNotFound(Seq<char>, Seq<char>),
    ExpectedInstance,
    UnknownField(Seq<char>),
    ImplNameNotAStruct(Seq<char>),
    OtherError(Seq<char>),
}

impl View for ErrorType {
    type V = SpecErrorType;

    open spec fn view(&self) -> SpecErrorType {
        match self {
            ErrorType::UnknownCharacter(a0) => SpecErrorType::UnknownCharacter(*a0),
            ErrorType::StringEol => SpecErrorType::StringEol,
            ErrorType::StringEof => SpecErrorType::StringEof,
            ErrorType::InvalidEscapeChar(a0) => SpecErrorType::InvalidEscapeChar(a0@),
            ErrorType::TwoDecimalPoints => SpecErrorType::TwoDecimalPoints,
            ErrorType::InvalidDigit(a0) => SpecErrorType::InvalidDigit(*a0),
            ErrorType::IntegerOverflow => SpecErrorType::IntegerOverflow,
            ErrorType::FloatOverflow => SpecErrorType::FloatOverflow,
            ErrorType::CommentEof => SpecErrorType::CommentEof,
            ErrorType::CommentSymbol => SpecErrorType::CommentSymbol,
            ErrorType::ExpectedSemicolon => SpecErrorType::ExpectedSemicolon,
            ErrorType::ExpectedToken(a0) => SpecErrorType::ExpectedToken(a0@),
            ErrorType::UnknownElement(a0) => SpecErrorType::UnknownElement(a0@),
            ErrorType::UnknownUnaryOperator => SpecErrorType::UnknownUnaryOperator,
            ErrorType::InvalidAssignmentTarget => SpecErrorType::InvalidAssignmentTarget,
            ErrorType::InvalidPrecedence => SpecErrorType::InvalidPrecedence,
            ErrorType::PrecedenceOutOfRange(a0) => SpecErrorType::PrecedenceOutOfRange(*a0),
            ErrorType::IncorrectOperatorParameterCount(a0) => SpecErrorType::IncorrectOperatorParameterCount(*a0),
            ErrorType::InvalidFunctionName => SpecErrorType::InvalidFunctionName,
            ErrorType::InvalidOperatorname => SpecErrorType::InvalidOperatorname,
            ErrorType::ExpectedOpeningToken(a0) => SpecErrorType::ExpectedOpeningToken(a0@),
            ErrorType::ExpectedClosingToken(a0) => SpecErrorType::ExpectedClosingToken(a0@),
            ErrorType::ExpectedIdentifier => SpecErrorType::ExpectedIdentifier,
            ErrorType::ExpectedStructName => SpecErrorType::ExpectedStructName,
            ErrorType::ExpectedFieldName => SpecErrorType::ExpectedFieldName,
            ErrorType::UnexpectedEof => SpecErrorType::UnexpectedEof,
            ErrorType::NonFunStmtInImpl => SpecErrorType::NonFunStmtInImpl,
            ErrorType::OperatorNotFound(a0) => SpecErrorType::OperatorNotFound(a0@),
            ErrorType::IncompatiblePrecedence(a0, a1, a2, a3) => SpecErrorType::IncompatiblePrecedence(a0@, *a1, a2@, *a3),
            ErrorType::AlreadyDeclaredItem => SpecErrorType::AlreadyDeclaredItem,
            ErrorType::UndeclaredItem => SpecErrorType::UndeclaredItem,
            ErrorType::DuplicateParameter(a0) => SpecErrorType::DuplicateParameter(a0@),
            ErrorType::DuplicateField(a0) => SpecErrorType::DuplicateField(a0@),
            ErrorType::ImplWithoutStruct(a0) => SpecErrorType::ImplWithoutStruct(a0@),
            ErrorType::ItemNotUsed(a0) => SpecErrorType::ItemNotUsed(a0@),
            ErrorType::DeadCode => SpecErrorType::DeadCode,
            ErrorType::IfNeverExecutes => SpecErrorType::IfNeverExecutes,
            ErrorType::IfAlwaysExecutes => SpecErrorType::IfAlwaysExecutes,
            ErrorType::LoopNeverExecutes => SpecErrorType::LoopNeverExecutes,
            ErrorType::ExpectedListIndex => SpecErrorType::ExpectedListIndex,
            ErrorType::ExpectedIndex => SpecErrorType::ExpectedIndex,
            ErrorType::IndexOutOfRange(a0, a1) => SpecErrorType::IndexOutOfRange(*a0, *a1),
            ErrorType::ExpectedBool => SpecErrorType::ExpectedBool,
            ErrorType::ItemNotCalleable => SpecErrorType::ItemNotCalleable,
            ErrorType::ExpectedUnaryNumber => SpecErrorType::ExpectedUnaryNumber,
            ErrorType::ExpectedUnaryBool => SpecErrorType::ExpectedUnaryBool,
            ErrorType::ItemNotIndexable => SpecErrorType::ItemNotIndexable,
            ErrorType::IncorrectParameterCount(a0, a1) => SpecErrorType::IncorrectParameterCount(*a0, *a1),
            ErrorType::ReturnOutsideFunction => SpecErrorType::ReturnOutsideFunction,
            ErrorType::BreakOutsideLoop => SpecErrorType::BreakOutsideLoop,
            ErrorType::ContinueOutsideLoop => SpecErrorType::ContinueOutsideLoop,
            ErrorType::NativeFunctionError(a0) => SpecErrorType::NativeFunctionError(a0@),
            ErrorType::FieldNotFound(a0, a1) => SpecErrorType::FieldNotFound(a0@, a1@),
            ErrorType::ExpectedInstance => SpecErrorType::ExpectedInstance,
            ErrorType::UnknownField(a0) => SpecErrorType::UnknownField(a0@),
            ErrorType::ImplNameNotAStruct(a0) => SpecErrorType::ImplNameNotAStruct(a0@),
            ErrorType::OtherError(a0) => SpecErrorType::OtherError(a0@),
        }
    }
}

/// An error (or warning) with the spans of source code it is about.
#[derive(Debug, PartialEq, Clone)]
pub struct Error {
    pub msg: ErrorType,
    pub lines: Vec<Location>,
}

/// An error as the specifications see it.
pub struct SpecError {
    pub msg: SpecErrorType,
    pub lines: Seq<Location>,
}

impl View for Error {
    type V = SpecError;

    open spec fn view(&self) -> SpecError {
        SpecError { msg: self.msg@, lines: self.lines@ }
    }
}

/// The error kinds that are only warnings.
pub open spec fn spec_is_warn(e: SpecErrorType) -> bool {
    match e {
        SpecErrorType::ItemNotUsed(_) | SpecErrorType::DeadCode | SpecErrorType::IfNeverExecutes
        | SpecErrorType::IfAlwaysExecutes | SpecErrorType::LoopNeverExecutes => true,
        _ => false,
    }
}

impl ErrorType {
    /// Whether this is a warning rather than an error.
    pub fn is_warn(&self) -> (r: bool)
        ensures
            r == spec_is_warn(self@),
    {
        match self {
            ErrorType::ItemNotUsed(_) | ErrorType::DeadCode | ErrorType::IfNeverExecutes
            | ErrorType::IfAlwaysExecutes | ErrorType::LoopNeverExecutes => true,
            _ => false,
        }
    }
}

/// An error about a single span.
pub open spec fn spec_error(msg: SpecErrorType, start: int, end: int) -> SpecError {
    SpecError { msg, lines: seq![Location { start: start as usize, end: end as usize }] }
}

/// Builds an error about a single span.
pub fn error_at(msg: ErrorType, start: usize, end: usize) -> (e: Error)
    ensures
        e@ == spec_error(msg@, start as int, end as int),
{
    let mut lines: Vec<Location> = Vec::new();
    lines.push(Location { start, end });
    let e = Error { msg, lines };
    assert(e@.lines =~= seq![Location { start, end }]);
    e
}

/// An error about one span.
pub open spec fn err_on(msg: SpecErrorType, loc: Location) -> SpecError {
    SpecError { msg, lines: seq![loc] }
}

/// An error about two spans.
pub open spec fn err_on2(msg: SpecErrorType, a: Location, b: Location) -> SpecError {
    SpecError { msg, lines: seq![a, b] }
}

/// Builds an error about one span.
pub fn error_on(msg: ErrorType, loc: Location) -> (e: Error)
    ensures
        e@ == err_on(msg@, loc),
{
    let mut lines: Vec<Location> = Vec::new();
    lines.push(loc);
    let e = Error { msg, lines };
    assert(e@.lines =~= seq![loc]);
    e
}

/// Builds an error about two spans.
pub fn error_on2(msg: ErrorType, a: Location, b: Location) -> (e: Error)
    ensures
        e@ == err_on2(msg@, a, b),
{
    let mut lines: Vec<Location> = Vec::new();
    lines.push(a);
    lines.push(b);
    let e = Error { msg, lines };
    assert(e@.lines =~= seq![a, b]);
    e
}


/// How a precedence is shown in messages.
pub open spec fn prec_text(p: Precedence) -> Seq<char> {
    "Precedence { prec: "@ + decimal(p.prec as int) + ", assoc: "@ + (if p.assoc == Associativity::Left {
        "Left"@
    } else {
        "Right"@
    }) + " }"@
}

/// The message of an error kind.
pub open spec fn spec_msg(e: SpecErrorType) -> Seq<char> {
    match e {
        SpecErrorType::UnknownCharacter(c) => "Unknown character: \""@ + seq![c] + "\""@,
        SpecErrorType::StringEol => "EOL while parsing string"@,
        SpecErrorType::StringEof => "EOF while parsing string"@,
        SpecErrorType::InvalidEscapeChar(c) => "Invalid escape character: \"\\"@ + c + "\""@,
        SpecErrorType::TwoDecimalPoints => "Found two decimal delimiters"@,
        SpecErrorType::InvalidDigit(c) => "Invalid digit: \""@ + seq![c] + "\""@,
        SpecErrorType::IntegerOverflow => "Integer overflow"@,
        SpecErrorType::FloatOverflow => "Float overflow"@,
        SpecErrorType::CommentEof => "EOF while parsing block comment"@,
        SpecErrorType::CommentSymbol => "Block comment ending cannot be an operator"@,
        SpecErrorType::ExpectedSemicolon => "Expected a semicolon"@,
        SpecErrorType::ExpectedToken(m) => m,
        SpecErrorType::UnknownElement(t) => "Unknown element: "@ + token_text(t),
        SpecErrorType::UnknownUnaryOperator => "Unary operators must be either \"-\" or \"!\""@,
        SpecErrorType::InvalidAssignmentTarget => "The left side of an assignment must be either a variable or an index"@,
        SpecErrorType::InvalidPrecedence => "Precendence value must be an integer"@,
        SpecErrorType::PrecedenceOutOfRange(n) => "Precedence value must be between 0 and 10, got: "@ + decimal(n as int),
        SpecErrorType::IncorrectOperatorParameterCount(n) => "Operator declaration must have exactly two parameters, got "@ + decimal(n as int),
        SpecErrorType::InvalidFunctionName => "Function name must be either an identifier or a valid symbol"@,
        SpecErrorType::InvalidOperatorname => "Operator name must be a valid symbol"@,
        SpecErrorType::ExpectedOpeningToken(t) => "Expected opening token "@ + token_text(t),
        SpecErrorType::ExpectedClosingToken(t) => "Expected closing token "@ + token_text(t),
        SpecErrorType::ExpectedIdentifier => "Expected an identifier"@,
        SpecErrorType::ExpectedStructName => "Expected a struct name"@,
        SpecErrorType::ExpectedFieldName => "Expected a field name"@,
        SpecErrorType::UnexpectedEof => "Expected an element but reached EOF"@,
        SpecErrorType::NonFunStmtInImpl => "Only function declarations are allowed in an impl block"@,
        SpecErrorType::OperatorNotFound(s) => "Operator not found: "@ + s,
        SpecErrorType::IncompatiblePrecedence(a, p, b, q) => "Incompatible operator precedence: \""@ + a + "\" ("@ + prec_text(p) + ") and \""@ + b + "\" ("@ + prec_text(q) + ") - both have precedence "@ + decimal(p.prec as int),
        SpecErrorType::AlreadyDeclaredItem => "Item already declared"@,
        SpecErrorType::UndeclaredItem => "Item not declared"@,
        SpecErrorType::DuplicateParameter(s) => "Duplicate parameter: "@ + s,
        SpecErrorType::DuplicateField(s) => "Duplicate parameter: "@ + s,
        SpecErrorType::ImplWithoutStruct(s) => "Impl for an undeclared struct: "@ + s,
        SpecErrorType::ItemNotUsed(s) => "Item \""@ + s + "\" not used"@,
        SpecErrorType::DeadCode => "Unreachable code"@,
        SpecErrorType::IfNeverExecutes => "If branch never executes"@,
        SpecErrorType::IfAlwaysExecutes => "If branch always executes"@,
        SpecErrorType::LoopNeverExecutes => "Loop never executes"@,
        SpecErrorType::ExpectedListIndex => "Expected a list index expression"@,
        SpecErrorType::ExpectedIndex => "Expected an integer index"@,
        SpecErrorType::IndexOutOfRange(n, l) => "Index out of range: "@ + decimal(n as int) + " (length "@ + decimal(l as int) + ")"@,
        SpecErrorType::ExpectedBool => "Expected bool in a condition"@,
        SpecErrorType::ItemNotCalleable => "Item is not calleable"@,
        SpecErrorType::ExpectedUnaryNumber => "Expected a number to negate"@,
        SpecErrorType::ExpectedUnaryBool => "Expected a bool to negate"@,
        SpecErrorType::ItemNotIndexable => "Item is not indexable"@,
        SpecErrorType::IncorrectParameterCount(n, m) => "The number of arguments ("@ + decimal(n as int) + ") must match the number of parameters ("@ + decimal(m as int) + ")"@,
        SpecErrorType::ReturnOutsideFunction => "Cannot use return outside of a function"@,
        SpecErrorType::BreakOutsideLoop => "Cannot use break outside of a loop"@,
        SpecErrorType::ContinueOutsideLoop => "Cannot use continue outside of a loop"@,
        SpecErrorType::NativeFunctionError(m) => m,
        SpecErrorType::FieldNotFound(f, s) => "Field \""@ + f + "\" not found in \""@ + s + "\""@,
        SpecErrorType::ExpectedInstance => "Expected struct instance"@,
        SpecErrorType::UnknownField(s) => "Field \""@ + s + "\" does not exist"@,
        SpecErrorType::ImplNameNotAStruct(s) => "Impl name is not a struct: "@ + s,
        SpecErrorType::OtherError(m) => m,
    }
}

fn push_prec(s: &mut String, p: &Precedence)
    ensures
        final(s)@ == old(s)@ + prec_text(*p),
{
    push_str(s, "Precedence { prec: ");
    push_decimal(s, p.prec as i64);
    push_str(s, ", assoc: ");
    match p.assoc {
        Associativity::Left => push_str(s, "Left"),
        Associativity::Right => push_str(s, "Right"),
    }
    push_str(s, " }");
}

impl ErrorType {
    /// The message of this error kind.
    pub fn msg(&self) -> (r: String)
        ensures
            r@ == spec_msg(self@),
    {
        let mut out = String::new();
        match self {
            ErrorType::UnknownCharacter(c) => {
                push_str(&mut out, "Unknown character: \"");
                push_char(&mut out, *c);
                push_str(&mut out, "\"");
            },
            ErrorType::StringEol => {
                push_str(&mut out, "EOL while parsing string");
            },
            ErrorType::StringEof => {
                push_str(&mut out, "EOF while parsing string");
            },
            ErrorType::InvalidEscapeChar(c) => {
                push_str(&mut out, "Invalid escape character: \"\\");
                push_str(&mut out, c.as_str());
                push_str(&mut out, "\"");
            },
            ErrorType::TwoDecimalPoints => {
                push_str(&mut out, "Found two decimal delimiters");
            },
            ErrorType::InvalidDigit(c) => {
                push_str(&mut out, "Invalid digit: \"");
                push_char(&mut out, *c);
                push_str(&mut out, "\"");
            },
            ErrorType::IntegerOverflow => {
                push_str(&mut out, "Integer overflow");
            },
            ErrorType::FloatOverflow => {
                push_str(&mut out, "Float overflow");
            },
            ErrorType::CommentEof => {
                push_str(&mut out, "EOF while parsing block comment");
            },
            ErrorType::CommentSymbol => {
                push_str(&mut out, "Block comment ending cannot be an operator");
            },
            ErrorType::ExpectedSemicolon => {
                push_str(&mut out, "Expected a semicolon");
            },
            ErrorType::ExpectedToken(m) => {
                push_str(&mut out, m.as_str());
            },
            ErrorType::UnknownElement(t) => {
                push_str(&mut out, "Unknown element: ");
                let t = t.text(); push_str(&mut out, t.as_str());
            },
            ErrorType::UnknownUnaryOperator => {
                push_str(&mut out, "Unary operators must be either \"-\" or \"!\"");
            },
            ErrorType::InvalidAssignmentTarget => {
                push_str(&mut out, "The left side of an assignment must be either a variable or an index");
            },
            ErrorType::InvalidPrecedence => {
                push_str(&mut out, "Precendence value must be an integer");
            },
            ErrorType::PrecedenceOutOfRange(n) => {
                push_str(&mut out, "Precedence value must be between 0 and 10, got: ");
                push_decimal(&mut out, *n as i64);
            },
            ErrorType::IncorrectOperatorParameterCount(n) => {
                push_str(&mut out, "Operator declaration must have exactly two parameters, got ");
                push_unsigned(&mut out, *n);
            },
            ErrorType::InvalidFunctionName => {
                push_str(&mut out, "Function name must be either an identifier or a valid symbol");
            },
            ErrorType::InvalidOperatorname => {
                push_str(&mut out, "Operator name must be a valid symbol");
            },
            ErrorType::ExpectedOpeningToken(t) => {
                push_str(&mut out, "Expected opening token ");
                let t = t.text(); push_str(&mut out, t.as_str());
            },
            ErrorType::ExpectedClosingToken(t) => {
                push_str(&mut out, "Expected closing token ");
                let t = t.text(); push_str(&mut out, t.as_str());
            },
            ErrorType::ExpectedIdentifier => {
                push_str(&mut out, "Expected an identifier");
            },
            ErrorType::ExpectedStructName => {
                push_str(&mut out, "Expected a struct name");
            },
            ErrorType::ExpectedFieldName => {
                push_str(&mut out, "Expected a field name");
            },
            ErrorType::UnexpectedEof => {
                push_str(&mut out, "Expected an element but reached EOF");
            },
            ErrorType::NonFunStmtInImpl => {
                push_str(&mut out, "Only function declarations are allowed in an impl block");
            },
            ErrorType::OperatorNotFound(s) => {
                push_str(&mut out, "Operator not found: ");
                push_str(&mut out, s.as_str());
            },
            ErrorType::IncompatiblePrecedence(a, p, b, q) => {
                push_str(&mut out, "Incompatible operator precedence: \"");
                push_str(&mut out, a.as_str());
                push_str(&mut out, "\" (");
                push_prec(&mut out, p);
                push_str(&mut out, ") and \"");
                push_str(&mut out, b.as_str());
                push_str(&mut out, "\" (");
                push_prec(&mut out, q);
                push_str(&mut out, ") - both have precedence ");
                push_decimal(&mut out, p.prec as i64);
            },
            ErrorType::AlreadyDeclaredItem => {
                push_str(&mut out, "Item already declared");
            },
            ErrorType::UndeclaredItem => {
                push_str(&mut out, "Item not declared");
            },
            ErrorType::DuplicateParameter(s) => {
                push_str(&mut out, "Duplicate parameter: ");
                push_str(&mut out, s.as_str());
            },
            ErrorType::DuplicateField(s) => {
                push_str(&mut out, "Duplicate parameter: ");
                push_str(&mut out, s.as_str());
            },
            ErrorType::ImplWithoutStruct(s) => {
                push_str(&mut out, "Impl for an undeclared struct: ");
                push_str(&mut out, s.as_str());
            },
            ErrorType::ItemNotUsed(s) => {
                push_str(&mut out, "Item \"");
                push_str(&mut out, s.as_str());
                push_str(&mut out, "\" not used");
            },
            ErrorType::DeadCode => {
                push_str(&mut out, "Unreachable code");
            },
            ErrorType::IfNeverExecutes => {
                push_str(&mut out, "If branch never executes");
            },
            ErrorType::IfAlwaysExecutes => {
                push_str(&mut out, "If branch always executes");
            },
            ErrorType::LoopNeverExecutes => {
                push_str(&mut out, "Loop never executes");
            },
            ErrorType::ExpectedListIndex => {
                push_str(&mut out, "Expected a list index expression");
            },
            ErrorType::ExpectedIndex => {
                push_str(&mut out, "Expected an integer index");
            },
            ErrorType::IndexOutOfRange(n, l) => {
                push_str(&mut out, "Index out of range: ");
                push_decimal(&mut out, *n as i64);
                push_str(&mut out, " (length ");
                push_unsigned(&mut out, *l);
                push_str(&mut out, ")");
            },
            ErrorType::ExpectedBool => {
                push_str(&mut out, "Expected bool in a condition");
            },
            ErrorType::ItemNotCalleable => {
                push_str(&mut out, "Item is not calleable");
            },
            ErrorType::ExpectedUnaryNumber => {
                push_str(&mut out, "Expected a number to negate");
            },
            ErrorType::ExpectedUnaryBool => {
                push_str(&mut out, "Expected a bool to negate");
            },
            ErrorType::ItemNotIndexable => {
                push_str(&mut out, "Item is not indexable");
            },
            ErrorType::IncorrectParameterCount(n, m) => {
                push_str(&mut out, "The number of arguments (");
                push_unsigned(&mut out, *n);
                push_str(&mut out, ") must match the number of parameters (");
                push_unsigned(&mut out, *m);
                push_str(&mut out, ")");
            },
            ErrorType::ReturnOutsideFunction => {
                push_str(&mut out, "Cannot use return outside of a function");
            },
            ErrorType::BreakOutsideLoop => {
                push_str(&mut out, "Cannot use break outside of a loop");
            },
            ErrorType::ContinueOutsideLoop => {
                push_str(&mut out, "Cannot use continue outside of a loop");
            },
            ErrorType::NativeFunctionError(m) => {
                push_str(&mut out, m.as_str());
            },
            ErrorType::FieldNotFound(f, s) => {
                push_str(&mut out, "Field \"");
                push_str(&mut out, f.as_str());
                push_str(&mut out, "\" not found in \"");
                push_str(&mut out, s.as_str());
                push_str(&mut out, "\"");
            },
            ErrorType::ExpectedInstance => {
                push_str(&mut out, "Expected struct instance");
            },
            ErrorType::UnknownField(s) => {
                push_str(&mut out, "Field \"");
                push_str(&mut out, s.as_str());
                push_str(&mut out, "\" does not exist");
            },
            ErrorType::ImplNameNotAStruct(s) => {
                push_str(&mut out, "Impl name is not a struct: ");
                push_str(&mut out, s.as_str());
            },
            ErrorType::OtherError(m) => {
                push_str(&mut out, m.as_str());
            },
        }
        out
    }
}


// ---------------------------------------------------------------------------
// Showing an error with the lines of code it is about
// ---------------------------------------------------------------------------

/// The line and column (both from 0) of character position `idx` of `code`: the newlines before
/// it, and the characters since the last of them.
pub open spec fn pos_of(code: Seq<char>, idx: int) -> (int, int)
    decreases idx,
{
    if idx <= 0 {
        (0, 0)
    } else {
        let (line, col) = pos_of(code, idx - 1);
        if code[idx - 1] == '\n' {
            (line + 1, 0)
        } else {
            (line, col + 1)
        }
    }
}

/// A line without the carriage return that ended it, if any.
pub open spec fn strip_cr(l: Seq<char>) -> Seq<char> {
    if l.len() > 0 && l.last() == '\r' {
        l.drop_last()
    } else {
        l
    }
}

/// The lines of `code` ended by a newline so far, and the text after the last newline.
pub open spec fn split_state(code: Seq<char>) -> (Seq<Seq<char>>, Seq<char>)
    decreases code.len(),
{
    if code.len() == 0 {
        (Seq::empty(), Seq::empty())
    } else {
        let (ls, cur) = split_state(code.drop_last());
        if code.last() == '\n' {
            (ls.push(strip_cr(cur)), Seq::empty())
        } else {
            (ls, cur.push(code.last()))
        }
    }
}

/// The lines of `code`: split at newlines, a carriage return before a newline dropped, and no
/// empty line after a last newline.
pub open spec fn code_lines(code: Seq<char>) -> Seq<Seq<char>> {
    let (ls, cur) = split_state(code);
    if cur.len() > 0 {
        ls.push(cur)
    } else {
        ls
    }
}

/// The number of bytes of a character in UTF-8.
pub open spec fn utf8_width(c: char) -> nat {
    if (c as u32) < 0x80 {
        1
    } else if (c as u32) < 0x800 {
        2
    } else if (c as u32) < 0x10000 {
        3
    } else {
        4
    }
}

/// The number of bytes of a line in UTF-8.
pub open spec fn utf8_len(l: Seq<char>) -> nat
    decreases l.len(),
{
    if l.len() == 0 {
        0
    } else {
        utf8_len(l.drop_last()) + utf8_width(l.last())
    }
}

/// The parts joined with newlines between them.
pub open spec fn join_lines(parts: Seq<Seq<char>>) -> Seq<char>
    decreases parts.len(),
{
    if parts.len() == 0 {
        Seq::empty()
    } else if parts.len() == 1 {
        parts[0]
    } else {
        join_lines(parts.drop_last()) + seq!['\n'] + parts.last()
    }
}

/// The greatest line on which a span of `locs` starts.
pub open spec fn last_line(code: Seq<char>, locs: Seq<Location>) -> int
    decreases locs.len(),
{
    if locs.len() == 0 {
        0
    } else {
        let m = last_line(code, locs.drop_last());
        let l = pos_of(code, locs.last().start as int).0;
        if locs.len() == 1 || l > m {
            l
        } else {
            m
        }
    }
}

/// A line of code with its number, and below it `marks` after `indent` spaces.
pub open spec fn marked_line(number: int, width: nat, line: Seq<char>, indent: nat, marks: nat) -> Seq<char> {
    pad_left(decimal(number), width) + " | "@ + line + "\n   "@ + repeat(' ', indent) + repeat('^', marks)
}

/// The lines strictly between `start` and `end`, each marked whole and numbered from 1.
pub open spec fn middle_lines(lines: Seq<Seq<char>>, width: nat, start: int, end: int) -> Seq<Seq<char>>
    decreases end - start,
{
    if end - start <= 1 {
        Seq::empty()
    } else {
        let k = end - start - 1;
        middle_lines(lines, width, start, end - 1).push(marked_line(k, width, lines[end - 1], width, utf8_len(lines[end - 1])))
    }
}

/// The span `loc` of `code` shown: its line with the span marked, or, across lines, the rest
/// of its first line, the lines between and the start of its last line.
pub open spec fn span_text(code: Seq<char>, width: nat, loc: Location) -> Seq<char> {
    let lines = code_lines(code);
    let (sl, sc) = pos_of(code, loc.start as int);
    let (el, ec) = pos_of(code, loc.end as int);
    if sl == el {
        marked_line(sl + 1, width, lines[sl], (width + sc) as nat, (ec - sc + 1) as nat)
    } else {
        join_lines(
            seq![marked_line(sl + 1, width, lines[sl], (width + sc) as nat, (utf8_len(lines[sl]) - sc) as nat)]
                + middle_lines(lines, width, sl, el)
                + seq![marked_line(el + 1, width, lines[el], width, (ec + 1) as nat)],
        )
    }
}

/// The spans shown, in order.
pub open spec fn span_texts(code: Seq<char>, width: nat, locs: Seq<Location>) -> Seq<Seq<char>>
    decreases locs.len(),
{
    if locs.len() == 0 {
        Seq::empty()
    } else {
        span_texts(code, width, locs.drop_last()).push(span_text(code, width, locs.last()))
    }
}

/// Whether a span of `code` can be shown: it starts and ends within the code, and ends no
/// earlier than it starts; across lines, its last line is a line of the code and its first
/// line is long enough.
pub open spec fn span_ok(code: Seq<char>, loc: Location) -> bool {
    let lines = code_lines(code);
    let (sl, sc) = pos_of(code, loc.start as int);
    let (el, ec) = pos_of(code, loc.end as int);
    &&& loc.start <= code.len()
    &&& loc.end <= code.len()
    &&& (if sl == el {
        ec + 1 >= sc
    } else {
        sl < el && el < lines.len() && utf8_len(lines[sl]) >= sc
    })
}

/// Whether an error can be shown with `code`: it has a span, every span can be shown, and the
/// lines they start on are lines of the code.
pub open spec fn can_show(code: Seq<char>, e: SpecError) -> bool {
    &&& e.lines.len() > 0
    &&& forall|i: int| 0 <= i < e.lines.len() ==> span_ok(code, #[trigger] e.lines[i])
    &&& last_line(code, e.lines) < code_lines(code).len()
}

/// An error shown: `Warning` or `Error`, its message, then each of its spans.
pub open spec fn spec_format(code: Seq<char>, e: SpecError) -> Seq<char> {
    let width = digits((last_line(code, e.lines) + 1) as nat).len();
    (if spec_is_warn(e.msg) { "Warning"@ } else { "Error"@ }) + ": "@ + spec_msg(e.msg) + seq!['\n'] + join_lines(
        span_texts(code, width, e.lines),
    )
}


pub proof fn lemma_digits_len(n: nat)
    requires
        n >= 1,
    ensures
        digits(n).len() <= n,
    decreases n,
{
    if n >= 10 {
        lemma_digits_len(n / 10);
    }
}

pub proof fn lemma_utf8_len(l: Seq<char>)
    ensures
        utf8_len(l) <= 4 * l.len(),
    decreases l.len(),
{
    if l.len() > 0 {
        lemma_utf8_len(l.drop_last());
    }
}

pub proof fn lemma_last_line(code: Seq<char>, locs: Seq<Location>, k: int)
    requires
        0 <= k < locs.len(),
    ensures
        pos_of(code, locs[k].start as int).0 <= last_line(code, locs),
    decreases locs.len(),
{
    if k < locs.len() - 1 {
        lemma_last_line(code, locs.drop_last(), k);
    }
}

/// The line and column of position `idx` of `code`.
fn pos_from_idx(code: &Vec<char>, idx: usize) -> (r: (usize, usize))
    requires
        idx <= code@.len(),
    ensures
        r.0 as int == pos_of(code@, idx as int).0,
        r.1 as int == pos_of(code@, idx as int).1,
        r.0 <= idx,
        r.1 <= idx,
{
    let mut line: usize = 0;
    let mut col: usize = 0;
    let mut i: usize = 0;
    while i < idx
        invariant
            i <= idx,
            idx <= code@.len(),
            line as int == pos_of(code@, i as int).0,
            col as int == pos_of(code@, i as int).1,
            line <= i,
            col <= i,
        decreases idx - i,
    {
        if code[i] == '\n' {
            line = line + 1;
            col = 0;
        } else {
            col = col + 1;
        }
        i = i + 1;
    }
    (line, col)
}

pub open spec fn lines_view(ls: Seq<Vec<char>>) -> Seq<Seq<char>> {
    ls.map_values(|l: Vec<char>| l@)
}

/// The lines of `code`.
fn lines_of(code: &Vec<char>) -> (r: Vec<Vec<char>>)
    ensures
        lines_view(r@) == code_lines(code@),
        forall|j: int| 0 <= j < r@.len() ==> (#[trigger] r@[j])@.len() <= code@.len(),
{
    let mut ls: Vec<Vec<char>> = Vec::new();
    let mut cur: Vec<char> = Vec::new();
    let mut i: usize = 0;
    assert(code@.take(0) =~= Seq::<char>::empty());
    assert(lines_view(ls@) =~= Seq::<Seq<char>>::empty());
    while i < code.len()
        invariant
            i <= code@.len(),
            (lines_view(ls@), cur@) == split_state(code@.take(i as int)),
            forall|j: int| 0 <= j < ls@.len() ==> (#[trigger] ls@[j])@.len() <= i,
            cur@.len() <= i,
        decreases code@.len() - i,
    {
        assert(code@.take(i + 1).drop_last() =~= code@.take(i as int));
        let c = code[i];
        if c == '\n' {
            if cur.len() > 0 && cur[cur.len() - 1] == '\r' {
                let _ = cur.pop();
            }
            let mut line: Vec<char> = Vec::new();
            std::mem::swap(&mut line, &mut cur);
            let ghost pre = lines_view(ls@);
            ls.push(line);
            assert(lines_view(ls@) =~= pre.push(line@));
        } else {
            cur.push(c);
        }
        i = i + 1;
    }
    assert(code@.take(code@.len() as int) =~= code@);
    if cur.len() > 0 {
        let ghost pre = lines_view(ls@);
        let ghost last = cur@;
        ls.push(cur);
        assert(lines_view(ls@) =~= pre.push(last));
    }
    ls
}

/// The number of bytes of a line in UTF-8.
fn line_utf8_len(l: &Vec<char>) -> (r: usize)
    requires
        l@.len() <= usize::MAX / 8,
    ensures
        r == utf8_len(l@),
{
    let mut n: usize = 0;
    let mut i: usize = 0;
    assert(l@.take(0) =~= Seq::<char>::empty());
    while i < l.len()
        invariant
            i <= l@.len(),
            l@.len() <= usize::MAX / 8,
            n == utf8_len(l@.take(i as int)),
            n <= 4 * i,
        decreases l@.len() - i,
    {
        assert(l@.take(i + 1).drop_last() =~= l@.take(i as int));
        let c = l[i] as u32;
        let w: usize = if c < 0x80 {
            1
        } else if c < 0x800 {
            2
        } else if c < 0x10000 {
            3
        } else {
            4
        };
        n = n + w;
        i = i + 1;
    }
    assert(l@.take(l@.len() as int) =~= l@);
    n
}

/// Appends the characters of `l`.
fn push_chars(s: &mut String, l: &Vec<char>)
    ensures
        final(s)@ == old(s)@ + l@,
{
    let mut i: usize = 0;
    while i < l.len()
        invariant
            i <= l@.len(),
            s@ == old(s)@ + l@.take(i as int),
        decreases l@.len() - i,
    {
        push_char(s, l[i]);
        assert(old(s)@ + l@.take(i + 1) =~= old(s)@ + l@.take(i as int) + seq![l@[i as int]]);
        i = i + 1;
    }
    assert(l@.take(l@.len() as int) =~= l@);
}

/// Appends a line of code with its number, and below it `marks` after `indent` spaces.
fn push_marked_line(out: &mut String, number: usize, width: usize, line: &Vec<char>, indent: usize, marks: usize)
    ensures
        final(out)@ == old(out)@ + marked_line(number as int, width as nat, line@, indent as nat, marks as nat),
{
    let nlen = decimal_len(number);
    if nlen < width {
        push_repeat(out, ' ', width - nlen);
    }
    push_unsigned(out, number);
    push_str(out, " | ");
    push_chars(out, line);
    push_str(out, "\n   ");
    push_repeat(out, ' ', indent);
    push_repeat(out, '^', marks);
    proof {
        let num = decimal(number as int);
        assert(num == digits(number as nat));
        let padded = pad_left(num, width as nat);
        if nlen < width {
            assert(padded =~= repeat(' ', (width - nlen) as nat) + num);
        }
        assert(final(out)@ =~= old(out)@ + marked_line(number as int, width as nat, line@, indent as nat, marks as nat));
    }
}

impl Error {
    /// The error shown with the lines of `code` it is about: `Warning` or `Error`, the message,
    /// then each span under its line, marked with `^`.
    pub fn format_message(&self, code: &str) -> (r: String)
        requires
            can_show(code@, self@),
            code@.len() <= usize::MAX / 8,
        ensures
            r@ == spec_format(code@, self@),
    {
        let chars = chars_of(code);
        let lines = lines_of(&chars);
        let locs = &self.lines;
        let ghost lv = locs@;
        let n = locs.len();
        // the greatest line a span starts on
        let mut last: usize = pos_from_idx(&chars, locs[0].start).0;
        let mut k: usize = 1;
        proof {
            assert(span_ok(code@, lv[0]));
            assert(lv.take(1).drop_last() =~= Seq::<Location>::empty());
            assert(lv.take(1).last() == lv[0]);
        }
        while k < n
            invariant
                1 <= k <= n,
                n == lv.len(),
                lv == self.lines@,
                chars@ == code@,
                can_show(code@, self@),
                last as int == last_line(code@, lv.take(k as int)),
                last <= code@.len(),
            decreases n - k,
        {
            assert(span_ok(code@, self@.lines[k as int]));
            assert(lv.take(k + 1).drop_last() =~= lv.take(k as int));
            assert(lv.take(k + 1).last() == lv[k as int]);
            let l = pos_from_idx(&chars, self.lines[k].start).0;
            if l > last {
                last = l;
            }
            k = k + 1;
        }
        assert(lv.take(n as int) =~= lv);
        let width = decimal_len(last + 1);
        proof {
            lemma_digits_len((last + 1) as nat);
        }
        let mut out = String::new();
        if self.msg.is_warn() {
            push_str(&mut out, "Warning");
        } else {
            push_str(&mut out, "Error");
        }
        push_str(&mut out, ": ");
        let m = self.msg.msg();
        push_str(&mut out, m.as_str());
        push_char(&mut out, '\n');
        let ghost head = out@;
        let mut k: usize = 0;
        assert(lv.take(0) =~= Seq::<Location>::empty());
        assert(head + join_lines(span_texts(code@, width as nat, lv.take(0))) =~= head);
        while k < n
            invariant
                k <= n,
                n == lv.len(),
                lv == self.lines@,
                chars@ == code@,
                lines_view(lines@) == code_lines(code@),
                forall|j: int| 0 <= j < lines@.len() ==> (#[trigger] lines@[j])@.len() <= code@.len(),
                can_show(code@, self@),
                code@.len() <= usize::MAX / 8,
                last as int == last_line(code@, lv),
                last <= code@.len(),
                width <= last + 1,
                out@ == head + join_lines(span_texts(code@, width as nat, lv.take(k as int))),
            decreases n - k,
        {
            assert(lv.take(k + 1).drop_last() =~= lv.take(k as int));
            assert(lv.take(k + 1).last() == lv[k as int]);
            if k > 0 {
                push_char(&mut out, '\n');
            }
            proof {
                lemma_last_line(code@, lv, k as int);
                assert(span_ok(code@, self@.lines[k as int]));
            }
            self.push_span(&mut out, &chars, &lines, width, k);
            proof {
                let prev = span_texts(code@, width as nat, lv.take(k as int));
                let next = span_texts(code@, width as nat, lv.take(k + 1));
                assert(next == prev.push(span_text(code@, width as nat, lv[k as int])));
                if k > 0 {
                    assert(next.drop_last() =~= prev);
                    assert(join_lines(next) == join_lines(prev) + seq!['\n'] + span_text(code@, width as nat, lv[k as int]));
                } else {
                    assert(prev.len() == 0);
                }
                assert(out@ =~= head + join_lines(next));
            }
            k = k + 1;
        }
        out
    }

    /// Whether the error can be shown with `code` (see `format_message`).
    pub fn can_format(&self, code: &str) -> (r: bool)
        ensures
            r == (can_show(code@, self@) && code@.len() <= usize::MAX / 8),
    {
        let chars = chars_of(code);
        if chars.len() > usize::MAX / 8 {
            return false;
        }
        let n = self.lines.len();
        if n == 0 {
            return false;
        }
        let lines = lines_of(&chars);
        let ghost lv = self.lines@;
        let mut last: usize = 0;
        let mut k: usize = 0;
        while k < n
            invariant
                k <= n,
                n == lv.len(),
                n > 0,
                lv == self.lines@,
                chars@ == code@,
                code@.len() <= usize::MAX / 8,
                lines_view(lines@) == code_lines(code@),
                forall|j: int| 0 <= j < lines@.len() ==> (#[trigger] lines@[j])@.len() <= code@.len(),
                forall|j: int| 0 <= j < k ==> span_ok(code@, #[trigger] lv[j]),
                k > 0 ==> last as int == last_line(code@, lv.take(k as int)),
            decreases n - k,
        {
            let loc = self.lines[k];
            if loc.start > chars.len() || loc.end > chars.len() {
                assert(!span_ok(code@, lv[k as int]));
                return false;
            }
            let (sl, sc) = pos_from_idx(&chars, loc.start);
            let (el, ec) = pos_from_idx(&chars, loc.end);
            if sl == el {
                if ec + 1 < sc {
                    assert(!span_ok(code@, lv[k as int]));
                    return false;
                }
            } else {
                if !(sl < el && el < lines.len()) {
                    assert(!span_ok(code@, lv[k as int]));
                    return false;
                }
                assert(lines_view(lines@)[sl as int] == lines@[sl as int]@);
                proof {
                    lemma_utf8_len(lines@[sl as int]@);
                }
                if line_utf8_len(&lines[sl]) < sc {
                    assert(!span_ok(code@, lv[k as int]));
                    return false;
                }
            }
            assert(lv.take(k + 1).drop_last() =~= lv.take(k as int));
            assert(lv.take(k + 1).last() == lv[k as int]);
            if k == 0 || sl > last {
                last = sl;
            }
            k = k + 1;
        }
        assert(lv.take(n as int) =~= lv);
        last < lines.len()
    }

    /// Appends span `k` shown.
    fn push_span(&self, out: &mut String, chars: &Vec<char>, lines: &Vec<Vec<char>>, width: usize, k: usize)
        requires
            k < self.lines@.len(),
            chars@.len() <= usize::MAX / 8,
            lines_view(lines@) == code_lines(chars@),
            forall|j: int| 0 <= j < lines@.len() ==> (#[trigger] lines@[j])@.len() <= chars@.len(),
            span_ok(chars@, self.lines@[k as int]),
            pos_of(chars@, self.lines@[k as int].start as int).0 < lines@.len(),
            width <= chars@.len() + 1,
        ensures
            final(out)@ == old(out)@ + span_text(chars@, width as nat, self.lines@[k as int]),
    {
        let loc = self.lines[k];
        let (sl, sc) = pos_from_idx(chars, loc.start);
        let (el, ec) = pos_from_idx(chars, loc.end);
        let ghost code = chars@;
        let ghost lv = lines_view(lines@);
        assert(lv[sl as int] == lines@[sl as int]@);
        if sl == el {
            push_marked_line(out, sl + 1, width, &lines[sl], width + sc, ec + 1 - sc);
        } else {
            assert(lv[el as int] == lines@[el as int]@);
            proof {
                lemma_utf8_len(lines@[sl as int]@);
            }
            let first_len = line_utf8_len(&lines[sl]);
            push_marked_line(out, sl + 1, width, &lines[sl], width + sc, first_len - sc);
            let ghost first = marked_line(sl + 1, width as nat, lv[sl as int], (width + sc) as nat, (first_len - sc) as nat);
            let ghost base = old(out)@;
            let mut j = sl + 1;
            assert(seq![first] + middle_lines(lv, width as nat, sl as int, j as int) =~= seq![first]);
            while j < el
                invariant
                    sl < j <= el,
                    el < lines@.len(),
                    lv == lines_view(lines@),
                    forall|i: int| 0 <= i < lines@.len() ==> (#[trigger] lines@[i])@.len() <= code.len(),
                    code.len() <= usize::MAX / 8,
                    out@ == base + join_lines(seq![first] + middle_lines(lv, width as nat, sl as int, j as int)),
                decreases el - j,
            {
                push_char(out, '\n');
                assert(lv[j as int] == lines@[j as int]@);
                proof {
                    lemma_utf8_len(lines@[j as int]@);
                }
                let len = line_utf8_len(&lines[j]);
                push_marked_line(out, j - sl, width, &lines[j], width, len);
                proof {
                    let prev = seq![first] + middle_lines(lv, width as nat, sl as int, j as int);
                    let item = marked_line((j - sl) as int, width as nat, lv[j as int], width as nat, len as nat);
                    assert(middle_lines(lv, width as nat, sl as int, j + 1) == middle_lines(lv, width as nat, sl as int, j as int).push(item));
                    assert(seq![first] + middle_lines(lv, width as nat, sl as int, j + 1) =~= prev.push(item));
                    assert(prev.push(item).drop_last() =~= prev);
                    assert(join_lines(prev.push(item)) == join_lines(prev) + seq!['\n'] + item);
                }
                j = j + 1;
            }
            push_char(out, '\n');
            push_marked_line(out, el + 1, width, &lines[el], width, ec + 1);
            proof {
                let prev = seq![first] + middle_lines(lv, width as nat, sl as int, el as int);
                let item = marked_line(el + 1, width as nat, lv[el as int], width as nat, (ec + 1) as nat);
                assert(prev + seq![item] =~= prev.push(item));
                assert(prev.push(item).drop_last() =~= prev);
                assert(join_lines(prev.push(item)) == join_lines(prev) + seq!['\n'] + item);
            }
        }
    }
}

} // verus!
