//! TinyASM: a tiny x86-64 assembler, from one line of text to machine code.
pub mod encoder;
pub mod parser;
pub mod registers;
