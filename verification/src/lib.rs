//! Execution core of a small scripting-language toolchain: a compact chunk
//! encoding (instruction stream, constant pool, run-length-encoded line table),
//! a stack-based virtual machine that interprets it, and a disassembler that
//! renders the same encoding as text.
pub mod chunk;
pub mod compiler;
pub mod debug;
pub mod lexer;
pub mod run;
pub mod vm;
pub mod value;
