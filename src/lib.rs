//! A small line-oriented scripting language: a lexer, an infix-to-postfix
//! expression converter with symbol resolution, a statement interpreter
//! that asks its host for the numeric value of each expression, and a
//! syntax-tree builder.
pub mod lexer;
pub mod symbols;
pub mod expr;
pub mod interp;
pub mod parser;
pub mod relex;
