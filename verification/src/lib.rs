//! A small Lisp-like interpreter: reader, evaluator, environments and
//! built-in modules, with their behaviour stated and proved in Verus.

pub mod special_forms;
pub mod ast;
pub mod text;
pub mod parser;
pub mod format;
pub mod error;
pub mod interp;
pub mod env;
pub mod show;
pub mod builtins;
pub mod globals;
pub mod eval;
pub mod laws;
pub mod repl;
pub mod cli;
