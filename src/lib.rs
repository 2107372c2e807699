//! A tree-walking interpreter for a small dynamically typed scripting language:
//! a scanner, a recursive-descent parser and an evaluator over a stack of scopes.
pub mod env;
pub mod error;
pub mod expression;
pub mod interpreter;
pub mod keywords;
pub mod number;
pub mod parser;
pub mod scanner;
pub mod statement;
pub mod text;
pub mod token;
