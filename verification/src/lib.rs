//! A small arithmetic calculator: a recursive-descent parser for textual
//! expressions, and a code generator that turns an expression tree into a
//! self-contained WebAssembly module with a single exported entry function,
//! which an embedded virtual machine can execute.

pub mod ast;
pub mod bytecode;
pub mod emit;
pub mod parser;
pub mod render;
pub mod vm;
