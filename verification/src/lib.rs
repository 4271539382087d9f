pub mod text;
pub mod chars;
pub mod source;
pub mod common;
pub mod token;
pub mod lexer;
pub mod types;
pub mod ast;
pub mod parser;
pub mod grammar;
pub mod interpreter;
pub mod module;
pub mod bytecode;
