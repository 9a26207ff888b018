//! The syntax tree that parsing produces and code generation consumes.

pub mod ast;
