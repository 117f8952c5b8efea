//! A small imperative scripting language: an AST model and a tree-walking
//! evaluator with chained lexical scopes, aliased arrays and strings, and a
//! unified non-local signal for continue, break, return and errors. The
//! evaluator's behaviour is pinned by a specification-level interpreter over
//! a mathematical model of the machine.

pub mod ast;
pub mod data;
pub mod env;
pub mod error;
pub mod eval;
pub mod parser;
