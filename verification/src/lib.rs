//! An interpreter core for a small stack-based language: a tokenizer, a
//! parser and an evaluator that picks operations by the types on the stack.
//!
//! `lexer::lex` turns a text into tokens, `parser::parse` turns tokens
//! into a tree, and a `run::Program` evaluates trees step by step over
//! its stack, its variables and its operations. The library computes
//! nothing on floating-point numbers: where a step needs such work, it
//! hands out a request, and goes on when it is given the answer.

pub mod error;
pub mod lexer;
pub mod literals;
pub mod ops;
pub mod parser;
pub mod position;
pub mod proofs;
pub mod registry;
pub mod run;
pub mod stack;
pub mod table;
pub mod text;
pub mod value;
pub mod vars;
