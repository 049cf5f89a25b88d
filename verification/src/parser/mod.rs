//! Lexing and parsing of program text.

pub mod common;
pub mod grammar;
pub mod lexer;
pub mod parse;
