//! Front end of a small PHP-like scripting language: a tokenizer that turns
//! source text into lexical tokens, and a recursive-descent statement parser
//! that builds an abstract syntax tree while accumulating diagnostics.

pub mod ast;
pub mod lexer;
pub mod parser;
