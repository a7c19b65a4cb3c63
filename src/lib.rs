//! A two-pass assembler for the SIC teaching machine: source text in,
//! Header/Text/End object records out.
pub mod assemble;
pub mod encode;
pub mod error;
pub mod laws;
pub mod numbers;
pub mod opcode;
pub mod pass1;
pub mod pass2;
pub mod source;
pub mod symtab;
pub mod tokenize;
