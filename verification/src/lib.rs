//! A CHIP-8 virtual machine: instruction set, execution engine, assembler and
//! disassembler.

pub mod assembler;
pub mod basicblock;
pub mod debugger;
pub mod display;
pub mod driver;
pub mod emulator;
pub mod errors;
pub mod grammar;
pub mod instructions;
pub mod labels;
pub mod machine;
pub mod mnemonic;
pub mod numeral;
pub mod parser;
pub mod random;
pub mod round_trip;
pub mod text;

pub use emulator::{Chip8, INSTRUCTION_SIZE};
pub use instructions::Instruction;
pub use labels::parse_program;
