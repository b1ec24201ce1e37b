//! Front end of a small scripting language: a lexer that turns source text
//! into tokens, and a recursive-descent parser that builds a syntax tree of
//! declarations and expressions from them.

pub mod ast;
pub mod error;
pub mod grammar;
pub mod laws;
pub mod lexer;
pub mod literal;
pub mod parser;
pub mod scan;
pub mod text;
