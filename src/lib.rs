//! A small-language bytecode compiler and stack virtual machine.
//!
//! Source text is scanned into tokens (`lexer`), compiled in a single pass
//! into a `Chunk` of bytecode (`compiler`), and executed by a resumable stack
//! machine (`vm`). Numbers are IEEE 754 binary64 values carried as their bit
//! patterns; the machine hands binary arithmetic on them to its driver.
pub mod chunk;
pub mod compiler;
pub mod disassembler;
pub mod lexer;
pub mod token;
pub mod value;
pub mod vm;
