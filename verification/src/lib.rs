//! A small imperative language: lexer, parser and a CESK abstract machine
//! that executes parsed programs one transition at a time.

pub mod ast;
pub mod conf;
pub mod display;
pub mod parser;
pub mod visit;
