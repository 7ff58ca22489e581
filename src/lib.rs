//! An assembler for a reduced MIPS-like instruction set: source text in,
//! addressed 32-bit instruction words out.
pub mod assembler;
pub mod isa;
pub mod lexer;
pub mod parser;
pub mod symbols;
