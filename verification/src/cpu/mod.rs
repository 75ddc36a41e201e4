//! COR24 CPU emulator: instruction set, decode ROM, machine state and executor.

pub mod decode_rom;
pub mod encode;
pub mod executor;
pub mod instruction;
pub mod state;

pub use instruction::{DecodedInstruction, InstructionFormat, Opcode, reg_name, REG_NAMES};
pub use state::{CpuState, DecodeRom, INITIAL_SP, MEMORY_SIZE, RESET_ADDRESS};
pub use executor::{ExecuteResult, Executor};
