//! Whole programs through the assembler: labels, forward references, directives, errors
//! and the listing.

use cor24::{AssembledLine, Assembler};

fn bytes_of(source: &str) -> Vec<u8> {
    let mut assembler = Assembler::new();
    let result = assembler.assemble(source);
    assert!(result.errors.is_empty(), "Errors: {:?}", result.errors);
    result.bytes
}

fn errors_of(source: &str) -> Vec<String> {
    let mut assembler = Assembler::new();
    assembler.assemble(source).errors
}

#[test]
fn backward_branch_to_label() {
    assert_eq!(bytes_of("loop: add r0,1\n      bra loop"), vec![0x09, 0x01, 0x13, 0xFC]);
}

#[test]
fn forward_branch_is_patched() {
    assert_eq!(bytes_of("brt done\nlc r0,1\ndone: halt"), vec![0x15, 0x02, 0x44, 0x01, 0xC7, 0x00, 0x00, 0x00]);
}

#[test]
fn forward_load_address_is_patched() {
    assert_eq!(bytes_of("la r1,data\ndata: .byte 7"), vec![0x2A, 0x04, 0x00, 0x00, 0x07]);
}

#[test]
fn org_pads_and_word_is_little_endian() {
    assert_eq!(bytes_of(".org 4\n.word 0x123456"), vec![0, 0, 0, 0, 0x56, 0x34, 0x12]);
}

#[test]
fn ascii_and_asciz() {
    assert_eq!(bytes_of(".asciz \"Hi\"\n.ascii \"A\""), vec![0x48, 0x69, 0x00, 0x41]);
}

#[test]
fn byte_list_skips_non_numbers() {
    assert_eq!(bytes_of(".db 1, 2, x, 0x10"), vec![1, 2, 0x10]);
}

#[test]
fn mnemonics_and_registers_ignore_case() {
    assert_eq!(bytes_of("LC R0,5\nMOV R0,C"), vec![0x44, 0x05, 0x5A]);
}

#[test]
fn sub_stack_pointer_immediate() {
    assert_eq!(bytes_of("sub sp,6"), vec![0xA2, 0x06, 0x00, 0x00]);
}

#[test]
fn negative_and_hex_numbers() {
    assert_eq!(bytes_of("lc r0,-1\nlc r1,0X7f"), vec![0x44, 0xFF, 0x45, 0x7F]);
}

#[test]
fn comments_and_blank_lines_produce_nothing() {
    let mut assembler = Assembler::new();
    let result = assembler.assemble("; comment\n\n  # x\nnop ; trailing");
    assert!(result.errors.is_empty());
    assert_eq!(result.bytes, vec![0x00]);
    assert_eq!(result.lines.len(), 1);
    assert_eq!(result.lines[0].source, "nop ; trailing");
}

#[test]
fn listing_records_label_address_and_bytes() {
    let mut assembler = Assembler::new();
    let result = assembler.assemble("lc r1,2\nstart: lc r0,1\nend:");
    let lines: &Vec<AssembledLine> = &result.lines;
    assert_eq!(lines.len(), 3);
    assert_eq!(lines[1].address, 2);
    assert_eq!(lines[1].bytes, vec![0x44, 0x01]);
    assert_eq!(lines[1].source, "start: lc r0,1");
    assert_eq!(lines[1].label, Some("start".to_string()));
    assert_eq!(lines[2].address, 4);
    assert!(lines[2].bytes.is_empty());
    assert_eq!(lines[2].label, Some("end".to_string()));
}

#[test]
fn symbol_table_keeps_each_label_once() {
    let mut assembler = Assembler::new();
    let result = assembler.assemble("a: nop\nb: nop\na: nop");
    assert_eq!(result.labels, vec![("a".to_string(), 2), ("b".to_string(), 1)]);
}

#[test]
fn unknown_instruction_error() {
    assert_eq!(errors_of("foo r0"), vec!["Line 1: Unknown instruction 'foo'".to_string()]);
}

#[test]
fn invalid_register_error() {
    assert_eq!(errors_of("nop\npush r9"), vec!["Line 2: Invalid register 'r9'".to_string()]);
}

#[test]
fn undefined_label_error() {
    let mut assembler = Assembler::new();
    let result = assembler.assemble("bra nowhere");
    assert_eq!(result.errors, vec!["Line 1: Undefined label 'nowhere'".to_string()]);
    assert_eq!(result.bytes, vec![0x13, 0x00]);
}

#[test]
fn branch_too_far_error() {
    assert_eq!(errors_of("x: nop\n.org 300\nbra x"), vec!["Line 3: Branch target too far".to_string()]);
}

#[test]
fn missing_operand_errors() {
    assert_eq!(errors_of("lc r0"), vec!["Line 1: lc requires register and constant".to_string()]);
    assert_eq!(errors_of("jmp r0"), vec!["Line 1: Invalid jmp syntax".to_string()]);
    assert_eq!(errors_of("lw r0,4"), vec!["Line 1: Invalid lw syntax".to_string()]);
}

#[test]
fn unsupported_register_pair_error() {
    assert_eq!(errors_of("mov r3,r0"), vec!["Line 1: mov r3,r0 not supported".to_string()]);
}

#[test]
fn try_assemble_matches_assemble() {
    let mut a = Assembler::new();
    let mut b = Assembler::new();
    let checked = a.try_assemble("lc r0,42\nloop: bra loop").expect("fits");
    let plain = b.assemble("lc r0,42\nloop: bra loop");
    assert_eq!(checked.bytes, plain.bytes);
    assert_eq!(checked.bytes, vec![0x44, 0x2A, 0x13, 0xFE]);
}

#[test]
fn assembling_again_starts_afresh() {
    let mut assembler = Assembler::new();
    assembler.assemble("x: lc r0,1");
    let second = assembler.assemble("nop");
    assert_eq!(second.bytes, vec![0x00]);
    assert!(second.labels.is_empty());
}
