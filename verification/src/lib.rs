//! Front end and execution core for a reversible imperative language.
//!
//! The crate lowers a name-based parse tree into a register-based syntax
//! tree, tracking aliases so that no variable is destroyed while aliased,
//! and provides the stack-machine semantics the lowered code runs on.

pub mod values;
pub mod interpreter;
pub mod parsetree;
pub mod syntaxtree;
pub mod syntaxchecker;
pub mod tokens;
