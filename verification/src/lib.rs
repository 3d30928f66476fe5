//! FVM: a small big-endian 32-bit virtual machine, its object format and its assembler.

pub mod types;
pub mod utils;
pub mod register;
pub mod section;
pub mod opcode;

pub use register::RegisterEncoding;
pub use section::Section;
pub use opcode::Op;
pub mod text;
pub mod bytes;
pub mod core_error;
pub mod argument;
pub mod instruction;
pub mod format;
pub mod files;
pub mod asm_error;
pub mod lexer;
pub mod isa;
pub mod syntax;
pub mod parser;
pub mod mnemonics;
pub mod resolver;
pub mod emitter;
pub mod preprocessor;
pub mod assembler;
pub mod flags;
pub mod vm_types;
pub mod memory;
pub mod ports;
pub mod decoder;
pub mod alu;
pub mod registers;
pub mod vm;
pub mod executor;
pub mod config;
pub mod program_patcher;
pub mod initializer;
pub mod device_init;
pub mod diagnostic;
pub mod cli;
