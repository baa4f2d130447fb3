//! A small Lisp-family scripting language: a scanner, a recursive-descent
//! parser producing a tagged syntax tree, a tree-walking evaluator, and a
//! dynamically typed value model.
//!
//! The pipeline is: source text -> `token::Tokenizer` -> `parser::Parser`
//! -> `ast::Node` -> `interpreter::Interpreter` -> textual result. The
//! `repl::Repl` type ties the stages together for one evaluation call per
//! input line, sharing evaluator state across calls.

pub mod ast;
pub mod frame;
pub mod interpreter;
pub mod parser;
pub mod repl;
pub mod primitive;
pub mod token;
