//! An interpreter for a small expression-oriented language: a lexer, a Pratt
//! parser building an abstract syntax tree, and a tree-walking evaluator with
//! lexically scoped closures.
//!
//! Evaluation nests at most [`semantics::MAX_DEPTH`] (3000) levels deep:
//! each expression, statement and function call it enters takes one level,
//! so a chain of a few hundred nested calls runs (a recursive countdown from
//! 500 does). Beyond the bound, evaluation stops with the error
//! `evaluation nested too deeply` instead of exhausting the host stack.
pub mod text;
pub mod token;
pub mod lexer;
pub mod ast;
pub mod object;
pub mod environment;
pub mod semantics;
pub mod evaluator;
pub mod grammar;
pub mod parser;
pub mod calls;
pub mod frame;
