//! COR24 assembly emulator library.
//!
//! COR24 is a C-Oriented RISC 24-bit architecture with:
//! - 8 general-purpose 24-bit registers (r0-r7)
//! - Special register aliases: fp=r3, sp=r4, z=r5, iv=r6, ir=r7
//! - Single condition flag (C)
//! - Variable-length instructions (1-4 bytes)
//! - Little-endian byte ordering

pub mod assembler;
pub mod challenge;
pub mod cpu;
pub mod runner;
pub mod session;
pub mod text;

pub use assembler::{AssembledLine, Assembler, AssemblyResult};
pub use challenge::{get_challenges, get_examples, Challenge};
pub use cpu::{
    CpuState, DecodeRom, ExecuteResult, Executor, INITIAL_SP, MEMORY_SIZE, RESET_ADDRESS,
};
