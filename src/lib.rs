//! An assembler and emulator for a small 8-bit accumulator machine: 32 bytes
//! of memory, one accumulator, a zero flag, and eight one-byte instructions.

pub mod assembler;
pub mod cpu;
pub mod instruction;
pub mod parser;
pub mod text;

pub use assembler::{assemble, assemble_instructions};
pub use cpu::{execute_program, Cpu, Outcome};
pub use instruction::{CPUError, Instruction};
pub use parser::{parse_file, parse_line, ParseError};
