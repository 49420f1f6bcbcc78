//! A bytecode compiler and stack machine for a small expression language.

pub mod chunk;
pub mod compiler;
pub mod debug;
pub mod grammar;
pub mod number;
pub mod opcode;
pub mod scanner;
pub mod test_helpers;
pub mod text;
pub mod value;
pub mod vm;
