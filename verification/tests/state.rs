//! Tests of the machine state.

use cor24::{CpuState, INITIAL_SP, RESET_ADDRESS};
#[test]
fn test_cpu_state_new() {
    let cpu = CpuState::new();
    assert_eq!(cpu.pc, RESET_ADDRESS);
    assert_eq!(cpu.registers[4], INITIAL_SP);
    assert!(!cpu.halted);
}

#[test]
fn test_memory_operations() {
    let mut cpu = CpuState::new();

    cpu.write_byte(0x100, 0x42);
    assert_eq!(cpu.read_byte(0x100), 0x42);

    cpu.write_word(0x200, 0x123456);
    assert_eq!(cpu.read_word(0x200), 0x123456);
}

#[test]
fn test_sign_extend() {
    assert_eq!(CpuState::sign_extend_8(0x7F), 0x00007F);
    assert_eq!(CpuState::sign_extend_8(0x80), 0xFFFF80);
    assert_eq!(CpuState::sign_extend_8(0xFF), 0xFFFFFF);
}
