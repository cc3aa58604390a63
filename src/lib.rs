//! Lexical scanner for a small dynamically typed scripting language.
pub mod laws;
pub mod lexical;
pub mod lox;
pub mod scanner;
pub mod token;
pub mod token_type;
