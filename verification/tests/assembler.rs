//! Tests of the assembler on small programs.

use cor24::Assembler;
#[test]
fn test_simple_assembly() {
    let mut assembler = Assembler::new();
    let result = assembler.assemble("lc r0,42");
    assert!(result.errors.is_empty(), "Errors: {:?}", result.errors);
    assert_eq!(result.bytes, vec![0x44, 42]);
}

#[test]
fn test_push_pop() {
    let mut assembler = Assembler::new();
    let result = assembler.assemble("push r0\npop r1");
    assert!(result.errors.is_empty(), "Errors: {:?}", result.errors);
    assert_eq!(result.bytes, vec![0x7D, 0x7A]);
}

#[test]
fn test_add_register() {
    let mut assembler = Assembler::new();
    let result = assembler.assemble("add r0,r1\nadd r1,r2");
    assert!(result.errors.is_empty(), "Errors: {:?}", result.errors);
    assert_eq!(result.bytes, vec![0x01, 0x05]);
}

#[test]
fn assembler_test_add_immediate() {
    let mut assembler = Assembler::new();
    let result = assembler.assemble("add r0,10");
    assert!(result.errors.is_empty(), "Errors: {:?}", result.errors);
    assert_eq!(result.bytes, vec![0x09, 10]);
}

#[test]
fn test_mov() {
    let mut assembler = Assembler::new();
    let result = assembler.assemble("mov fp,sp\nmov sp,fp");
    assert!(result.errors.is_empty(), "Errors: {:?}", result.errors);
    assert_eq!(result.bytes, vec![0x65, 0x69]);
}

#[test]
fn test_load_word() {
    let mut assembler = Assembler::new();
    let result = assembler.assemble("lw r0,4(fp)");
    assert!(result.errors.is_empty(), "Errors: {:?}", result.errors);
    assert_eq!(result.bytes, vec![0x4D, 4]);
}

#[test]
fn test_store_word() {
    let mut assembler = Assembler::new();
    let result = assembler.assemble("sw r1,8(fp)");
    assert!(result.errors.is_empty(), "Errors: {:?}", result.errors);
    assert_eq!(result.bytes, vec![0xAA, 8]);
}

#[test]
fn test_sub_register() {
    let mut assembler = Assembler::new();
    let result = assembler.assemble("sub r0,r1");
    assert!(result.errors.is_empty(), "Errors: {:?}", result.errors);
    assert_eq!(result.bytes, vec![0x9C]);
}

#[test]
fn test_mul() {
    let mut assembler = Assembler::new();
    let result = assembler.assemble("mul r0,r1");
    assert!(result.errors.is_empty(), "Errors: {:?}", result.errors);
    assert_eq!(result.bytes, vec![0x6B]);
}

#[test]
fn test_logic_ops() {
    let mut assembler = Assembler::new();
    let result = assembler.assemble("and r0,r1\nor r1,r2\nxor r0,r2");
    assert!(result.errors.is_empty(), "Errors: {:?}", result.errors);
    assert_eq!(result.bytes, vec![0x0D, 0x76, 0xB9]);
}

#[test]
fn test_shifts() {
    let mut assembler = Assembler::new();
    let result = assembler.assemble("shl r0,r1\nsra r1,r0\nsrl r2,r1");
    assert!(result.errors.is_empty(), "Errors: {:?}", result.errors);
    assert_eq!(result.bytes, vec![0x8A, 0x92, 0x9B]);
}

#[test]
fn test_compare() {
    let mut assembler = Assembler::new();
    let result = assembler.assemble("ceq r0,r1\ncls r1,r0");
    assert!(result.errors.is_empty(), "Errors: {:?}", result.errors);
    assert_eq!(result.bytes, vec![0x16, 0x1B]);
}

#[test]
fn test_branch() {
    let mut assembler = Assembler::new();
    let result = assembler.assemble("bra 10\nbrf -5\nbrt 0");
    assert!(result.errors.is_empty(), "Errors: {:?}", result.errors);
    assert_eq!(result.bytes, vec![0x13, 10, 0x14, 0xFB, 0x15, 0]);
}

#[test]
fn assembler_test_jmp() {
    let mut assembler = Assembler::new();
    let result = assembler.assemble("jmp (r0)\njmp (r1)");
    assert!(result.errors.is_empty(), "Errors: {:?}", result.errors);
    assert_eq!(result.bytes, vec![0x26, 0x27]);
}

#[test]
fn assembler_test_jal() {
    let mut assembler = Assembler::new();
    let result = assembler.assemble("jal r1,(r0)");
    assert!(result.errors.is_empty(), "Errors: {:?}", result.errors);
    assert_eq!(result.bytes, vec![0x25]);
}

#[test]
fn test_la() {
    let mut assembler = Assembler::new();
    let result = assembler.assemble("la r0,0x1234");
    assert!(result.errors.is_empty(), "Errors: {:?}", result.errors);
    assert_eq!(result.bytes, vec![0x29, 0x34, 0x12, 0x00]);
}

#[test]
fn test_extensions() {
    let mut assembler = Assembler::new();
    let result = assembler.assemble("sxt r0,r1\nzxt r1,r2");
    assert!(result.errors.is_empty(), "Errors: {:?}", result.errors);
    assert_eq!(result.bytes, vec![0xB0, 0xC3]);
}

#[test]
fn test_trailing_comments() {
    let mut assembler = Assembler::new();
    let result = assembler.assemble("lc r0,10       ; load constant\nadd r0,r1  # add");
    assert!(result.errors.is_empty(), "Errors: {:?}", result.errors);
    assert_eq!(result.bytes, vec![0x44, 10, 0x01]);
}
