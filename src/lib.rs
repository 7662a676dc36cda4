//! A small dynamically typed Scheme-like language: values, lexical scopes,
//! a reader, primitive procedures and a trampolined evaluator with proper
//! tail calls.

pub mod value;
pub mod error;
pub mod text;
pub mod env;
pub mod print;
pub mod equality;
pub mod builtins;
pub mod eval;
pub mod laws;
pub mod lexer;
pub mod parser;
