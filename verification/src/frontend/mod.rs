pub mod chars;
pub mod lexer;
pub mod parser;
pub mod reassoc;
pub mod token;
pub mod grouping;
