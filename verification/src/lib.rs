//! Guppty: a small teaching language. The verified part of its toolchain:
//! located, classified errors; the lexer; the parser; the bytecode format;
//! the compiler from syntax tree to bytecode; the pipeline from source text
//! to script; and the decisions behind the project commands.

pub mod text;

pub mod error;
pub mod token;
pub mod syntax;
pub mod lexer;
pub mod ast;
pub mod parser;
pub mod bytecode;
pub mod compiler;
pub mod driver;
pub mod embed;
pub mod project;
