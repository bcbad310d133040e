//! A small-language toolchain: source text is tokenized, parsed into an AST,
//! and then either interpreted directly or compiled into a compact byte-oriented
//! instruction stream executed by a stack machine.

pub mod code;
pub mod lexer;
pub mod parser;
pub mod symbol_table;
pub mod eval;
pub mod compiler;
pub mod vm;
