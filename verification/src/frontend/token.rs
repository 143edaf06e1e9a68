use crate::located::Located;
use crate::text::{decimal, push_decimal, push_str};
use vstd::prelude::*;

verus! {

/// The kinds of tokens of the language.
///
/// A floating point literal is kept as the text it was written with
/// (digits, a decimal point and possibly more digits).
#[derive(Debug, PartialEq, Clone)]
pub enum TokenType {
    Int(i32),
    Float(String),
    Identifier(String),
    True,
    False,
    Let,
    Fun,
    Return,
    If,
    Else,
    While,
    Break,
    Continue,
    Infixl,
    Infixr,
    Struct,
    String(String),
    Impl,
    Eof,
    Symbol(String),
    LParen,
    RParen,
    LBracket,
    RBracket,
    LBrace,
    RBrace,
    Equals,
    QuestionMark,
    Semicolon,
    Dot,
    Comma,
    Pipe,
}

/// A token kind as the specifications see it: texts are sequences of characters.
pub enum SpecTokenType {
    Int(i32),
    Float(Seq<char>),
    Identifier(Seq<char>),
    True,
    False,
    Let,
    Fun,
    Return,
    If,
    Else,
    While,
    Break,
    Continue,
    Infixl,
    Infixr,
    Struct,
    String(Seq<char>),
    Impl,
    Eof,
    Symbol(Seq<char>),
    LParen,
    RParen,
    LBracket,
    RBracket,
    LBrace,
    RBrace,
    Equals,
    QuestionMark,
    Semicolon,
    Dot,
    Comma,
    Pipe,
}

impl View for TokenType {
    type V = SpecTokenType;

    open spec fn view(&self) -> SpecTokenType {
        match self {
            TokenType::Int(n) => SpecTokenType::Int(*n),
            TokenType::Float(s) => SpecTokenType::Float(s@),
            TokenType::Identifier(s) => SpecTokenType::Identifier(s@),
            TokenType::True => SpecTokenType::True,
            TokenType::False => SpecTokenType::False,
            TokenType::Let => SpecTokenType::Let,
            TokenType::Fun => SpecTokenType::Fun,
            TokenType::Return => SpecTokenType::Return,
            TokenType::If => SpecTokenType::If,
            TokenType::Else => SpecTokenType::Else,
            TokenType::While => SpecTokenType::While,
            TokenType::Break => SpecTokenType::Break,
            TokenType::Continue => SpecTokenType::Continue,
            TokenType::Infixl => SpecTokenType::Infixl,
            TokenType::Infixr => SpecTokenType::Infixr,
            TokenType::Struct => SpecTokenType::Struct,
            TokenType::String(s) => SpecTokenType::String(s@),
            TokenType::Impl => SpecTokenType::Impl,
            TokenType::Eof => SpecTokenType::Eof,
            TokenType::Symbol(s) => SpecTokenType::Symbol(s@),
            TokenType::LParen => SpecTokenType::LParen,
            TokenType::RParen => SpecTokenType::RParen,
            TokenType::LBracket => SpecTokenType::LBracket,
            TokenType::RBracket => SpecTokenType::RBracket,
            TokenType::LBrace => SpecTokenType::LBrace,
            TokenType::RBrace => SpecTokenType::RBrace,
            TokenType::Equals => SpecTokenType::Equals,
            TokenType::QuestionMark => SpecTokenType::QuestionMark,
            TokenType::Semicolon => SpecTokenType::Semicolon,
            TokenType::Dot => SpecTokenType::Dot,
            TokenType::Comma => SpecTokenType::Comma,
            TokenType::Pipe => SpecTokenType::Pipe,
        }
    }
}

pub type Token = Located<TokenType>;

pub type SpecToken = Located<SpecTokenType>;


/// How a token is shown in messages: a literal or name as written, a string in quotes, and
/// any other token by the name of its kind.
pub open spec fn token_text(t: SpecTokenType) -> Seq<char> {
    match t {
        SpecTokenType::Int(n) => decimal(n as int),
        SpecTokenType::Float(s) => s,
        SpecTokenType::String(s) => seq!['"'] + s + seq!['"'],
        SpecTokenType::Symbol(s) => s,
        SpecTokenType::Identifier(s) => s,
        SpecTokenType::True => "True"@,
        SpecTokenType::False => "False"@,
        SpecTokenType::Let => "Let"@,
        SpecTokenType::Fun => "Fun"@,
        SpecTokenType::Return => "Return"@,
        SpecTokenType::If => "If"@,
        SpecTokenType::Else => "Else"@,
        SpecTokenType::While => "While"@,
        SpecTokenType::Break => "Break"@,
        SpecTokenType::Continue => "Continue"@,
        SpecTokenType::Infixl => "Infixl"@,
        SpecTokenType::Infixr => "Infixr"@,
        SpecTokenType::Struct => "Struct"@,
        SpecTokenType::Impl => "Impl"@,
        SpecTokenType::Eof => "Eof"@,
        SpecTokenType::LParen => "LParen"@,
        SpecTokenType::RParen => "RParen"@,
        SpecTokenType::LBracket => "LBracket"@,
        SpecTokenType::RBracket => "RBracket"@,
        SpecTokenType::LBrace => "LBrace"@,
        SpecTokenType::RBrace => "RBrace"@,
        SpecTokenType::Equals => "Equals"@,
        SpecTokenType::QuestionMark => "QuestionMark"@,
        SpecTokenType::Semicolon => "Semicolon"@,
        SpecTokenType::Dot => "Dot"@,
        SpecTokenType::Comma => "Comma"@,
        SpecTokenType::Pipe => "Pipe"@,
    }
}

impl TokenType {
    /// The token as shown in messages.
    pub fn text(&self) -> (r: String)
        ensures
            r@ == token_text(self@),
    {
        let mut s = String::new();
        match self {
            TokenType::Int(n) => push_decimal(&mut s, *n as i64),
            TokenType::Float(t) => push_str(&mut s, t.as_str()),
            TokenType::String(t) => {
                push_str(&mut s, "\"");
                push_str(&mut s, t.as_str());
                push_str(&mut s, "\"");
                proof {
                    reveal_strlit("\"");
                }
            },
            TokenType::Symbol(t) => push_str(&mut s, t.as_str()),
            TokenType::Identifier(t) => push_str(&mut s, t.as_str()),
            TokenType::True => push_str(&mut s, "True"),
            TokenType::False => push_str(&mut s, "False"),
            TokenType::Let => push_str(&mut s, "Let"),
            TokenType::Fun => push_str(&mut s, "Fun"),
            TokenType::Return => push_str(&mut s, "Return"),
            TokenType::If => push_str(&mut s, "If"),
            TokenType::Else => push_str(&mut s, "Else"),
            TokenType::While => push_str(&mut s, "While"),
            TokenType::Break => push_str(&mut s, "Break"),
            TokenType::Continue => push_str(&mut s, "Continue"),
            TokenType::Infixl => push_str(&mut s, "Infixl"),
            TokenType::Infixr => push_str(&mut s, "Infixr"),
            TokenType::Struct => push_str(&mut s, "Struct"),
            TokenType::Impl => push_str(&mut s, "Impl"),
            TokenType::Eof => push_str(&mut s, "Eof"),
            TokenType::LParen => push_str(&mut s, "LParen"),
            TokenType::RParen => push_str(&mut s, "RParen"),
            TokenType::LBracket => push_str(&mut s, "LBracket"),
            TokenType::RBracket => push_str(&mut s, "RBracket"),
            TokenType::LBrace => push_str(&mut s, "LBrace"),
            TokenType::RBrace => push_str(&mut s, "RBrace"),
            TokenType::Equals => push_str(&mut s, "Equals"),
            TokenType::QuestionMark => push_str(&mut s, "QuestionMark"),
            TokenType::Semicolon => push_str(&mut s, "Semicolon"),
            TokenType::Dot => push_str(&mut s, "Dot"),
            TokenType::Comma => push_str(&mut s, "Comma"),
            TokenType::Pipe => push_str(&mut s, "Pipe"),
        }
        s
    }
}

} // verus!
