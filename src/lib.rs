//! Front end and code generation for the Klang language: a lexer, a
//! precedence-climbing parser, a lowering of the syntax tree to SSA form
//! with stack slots and phi joins, and its emission as an LLVM module.

pub mod token;
pub mod chars;
pub mod text;
pub mod lexer;
pub mod ast;
pub mod grammar;
pub mod parser;
pub mod ir;
pub mod codegen;
pub mod pipeline;
pub mod driver;
pub mod backend;
