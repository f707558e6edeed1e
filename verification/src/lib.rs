//! Lexical front end of a small scripting language: a scanner that turns
//! source text into positioned tokens, and an expression tree with a
//! canonical prefix rendering.

pub mod expr;
pub mod grammar;
pub mod scanner;
pub mod text;
pub mod theorems;
pub mod token;
