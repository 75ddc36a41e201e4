//! Properties of the instruction encoding and the machine state, checked on concrete values.

use cor24::cpu::encode::encode_instruction;
use cor24::cpu::DecodedInstruction;
use cor24::{CpuState, DecodeRom};

#[test]
fn every_encoding_decodes_back() {
    let rom = DecodeRom::new();
    for b in 0..=255u8 {
        if !rom.is_valid(b) {
            continue;
        }
        let inst = DecodedInstruction::from_decoded(rom.decode(b));
        let first = encode_instruction(inst.opcode, inst.ra, inst.rb).expect("decoded instruction encodes");
        assert!(first <= b);
        let again = DecodedInstruction::from_decoded(rom.decode(first));
        assert_eq!((again.opcode, again.ra, again.rb), (inst.opcode, inst.ra, inst.rb));
    }
}

#[test]
fn word_write_then_read() {
    let mut cpu = CpuState::new();
    cpu.write_word(0xFFFF, 0xABCDEF);
    assert_eq!(cpu.read_word(0xFFFF), 0xABCDEF);
    assert_eq!(cpu.read_byte(0xFFFF), 0xEF);
    assert_eq!(cpu.read_byte(0x0000), 0xCD);
    assert_eq!(cpu.read_byte(0x0001), 0xAB);
}

#[test]
fn register_write_then_read_keeps_24_bits() {
    let mut cpu = CpuState::new();
    cpu.set_reg(9, 0x12345678);
    assert_eq!(cpu.get_reg(1), 0x345678);
}

#[test]
fn load_program_places_bytes() {
    let mut cpu = CpuState::new();
    cpu.load_program(0x10, &[1, 2, 3]);
    assert_eq!(cpu.read_byte(0x10), 1);
    assert_eq!(cpu.read_byte(0x12), 3);
    assert_eq!(cpu.read_byte(0x13), 0);
}

#[test]
fn reset_keeps_memory_and_clears_registers() {
    let mut cpu = CpuState::new();
    cpu.write_byte(5, 9);
    cpu.set_reg(0, 7);
    cpu.pc = 40;
    cpu.reset();
    assert_eq!(cpu.read_byte(5), 9);
    assert_eq!(cpu.get_reg(0), 0);
    assert_eq!(cpu.pc, 0);
    cpu.hard_reset();
    assert_eq!(cpu.read_byte(5), 0);
}

#[test]
fn register_names_table() {
    assert_eq!(cor24::cpu::REG_NAMES, ["r0", "r1", "r2", "fp", "sp", "z", "r6", "r7"]);
    for r in 0u8..16 {
        assert_eq!(cor24::cpu::reg_name(r), cor24::cpu::REG_NAMES[(r & 7) as usize]);
    }
}
