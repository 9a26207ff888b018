//! A tiny expression language: a line-oriented parser, a compiler to stack-machine
//! instructions, and the stack machine that runs them.

pub mod ast;
pub mod codegen;
pub mod parser;
pub mod semantics;
pub mod text;
pub mod vm;
