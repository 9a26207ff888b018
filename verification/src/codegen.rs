//! Lowering of the syntax tree to stack-machine instructions.

pub mod codegen;
