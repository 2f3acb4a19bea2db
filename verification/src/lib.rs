#![verifier::loop_isolation(false)]

pub mod types;
pub mod print;
pub mod lexer;
pub mod ast;
pub mod parser;
pub mod env;
pub mod args;
pub mod error;
pub mod exhaustive;
pub mod infer;
pub mod typing;
pub mod module;
pub mod main_function;
pub mod api;
