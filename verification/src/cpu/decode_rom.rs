//! The COR24 instruction decode ROM.
//!
//! Every instruction byte is looked up in a 256-entry ROM that yields a 12-bit
//! value `[opcode(5):ra(3):rb(3)]`, or `0xFFF` for a byte that is not an
//! instruction. Within the table, the encodings of each opcode follow one
//! another in opcode order, and the register operands of one opcode run in
//! lexicographic order over the combinations the hardware provides.

use vstd::prelude::*;

verus! {

/// ROM value of a byte that is not an instruction.
pub const INVALID_ENTRY: u16 = 0xFFF;

/// The 12-bit ROM value for an opcode code and two register numbers.
pub open spec fn entry(op: int, ra: int, rb: int) -> u16 {
    (op * 64 + ra * 8 + rb) as u16
}

/// First register of the `k`-th ordered pair of distinct registers of r0..r2:
/// (0,1) (0,2) (1,0) (1,2) (2,0) (2,1).
pub open spec fn pair_ra(k: int) -> int {
    k / 2
}

/// Second register of the `k`-th ordered pair of distinct registers of r0..r2.
pub open spec fn pair_rb(k: int) -> int {
    let ra = k / 2;
    if k % 2 == 0 {
        if ra == 0 { 1 } else { 0 }
    } else {
        if ra == 2 { 1 } else { 2 }
    }
}

/// The `j`-th register of `0..n` when `skip` is left out.
pub open spec fn skip_reg(j: int, skip: int) -> int {
    if j < skip { j } else { j + 1 }
}

/// The whole decode ROM: entry `i` decodes byte `i`.
pub open spec fn rom_table() -> Seq<u16> {
    Seq::new(256, |i: int| rom_spec(i as u8))
}

/// The decode ROM, byte by byte.
#[verifier::opaque]
pub open spec fn rom_spec(b: u8) -> u16 {
    let i = b as int;
    if i <= 0x08 {
        entry(0x00, i / 3, i % 3)  // add ra,rb: all pairs of r0..r2
    } else if i <= 0x0C {
        entry(0x01, if i == 0x0C { 4 } else { i - 0x09 }, 0)  // add ra,dd: r0 r1 r2 sp
    } else if i <= 0x12 {
        entry(0x02, pair_ra(i - 0x0D), pair_rb(i - 0x0D))  // and
    } else if i <= 0x15 {
        entry(i - 0x10, 0, 0)  // bra brf brt
    } else if i <= 0x18 {
        entry(0x06, if i == 0x18 { 1 } else { 0 }, if i == 0x16 { 1 } else { 2 })  // ceq
    } else if i <= 0x1E {
        entry(0x07, pair_ra(i - 0x19), pair_rb(i - 0x19))  // cls
    } else if i <= 0x24 {
        entry(0x08, pair_ra(i - 0x1F), pair_rb(i - 0x1F))  // clu
    } else if i == 0x25 {
        entry(0x09, 1, 0)  // jal r1,(r0)
    } else if i <= 0x28 {
        entry(0x0A, i - 0x26, 0)  // jmp (ra)
    } else if i <= 0x2B {
        entry(0x0B, i - 0x29, 0)  // la ra,dddddd
    } else if i <= 0x37 {
        entry(0x0C, (i - 0x2C) / 4, (i - 0x2C) % 4)  // lb ra,dd(rb)
    } else if i <= 0x43 {
        entry(0x0D, (i - 0x38) / 4, (i - 0x38) % 4)  // lbu ra,dd(rb)
    } else if i <= 0x46 {
        entry(0x0E, i - 0x44, 0)  // lc ra,dd
    } else if i <= 0x49 {
        entry(0x0F, i - 0x47, 0)  // lcu ra,dd
    } else if i <= 0x55 {
        entry(0x10, (i - 0x4A) / 4, (i - 0x4A) % 4)  // lw ra,dd(rb)
    } else if i <= 0x64 {
        entry(0x11, (i - 0x56) / 5, skip_reg((i - 0x56) % 5, (i - 0x56) / 5))  // mov r0..r2,rb
    } else if i == 0x65 {
        entry(0x11, 3, 4)  // mov fp,sp
    } else if i <= 0x69 {
        entry(0x11, 4, i - 0x66)  // mov sp,r0..fp
    } else if i <= 0x72 {
        entry(0x12, (i - 0x6A) / 3, (i - 0x6A) % 3)  // mul
    } else if i <= 0x78 {
        entry(0x13, pair_ra(i - 0x73), pair_rb(i - 0x73))  // or
    } else if i <= 0x7C {
        entry(0x14, i - 0x79, 4)  // pop ra
    } else if i <= 0x80 {
        entry(0x15, i - 0x7D, 4)  // push ra
    } else if i <= 0x89 {
        entry(0x16, (i - 0x81) / 3, skip_reg((i - 0x81) % 3, (i - 0x81) / 3))  // sb ra,dd(rb)
    } else if i <= 0x8F {
        entry(0x17, pair_ra(i - 0x8A), pair_rb(i - 0x8A))  // shl
    } else if i <= 0x95 {
        entry(0x18, pair_ra(i - 0x90), pair_rb(i - 0x90))  // sra
    } else if i <= 0x9B {
        entry(0x19, pair_ra(i - 0x96), pair_rb(i - 0x96))  // srl
    } else if i <= 0xA1 {
        entry(0x1A, pair_ra(i - 0x9C), pair_rb(i - 0x9C))  // sub
    } else if i == 0xA2 {
        entry(0x1B, 4, 0)  // sub sp,dddddd
    } else if i <= 0xAE {
        entry(0x1C, (i - 0xA3) / 4, (i - 0xA3) % 4)  // sw ra,dd(rb)
    } else if i <= 0xB7 {
        entry(0x1D, (i - 0xAF) / 3, (i - 0xAF) % 3)  // sxt
    } else if i <= 0xBD {
        entry(0x1E, pair_ra(i - 0xB8), pair_rb(i - 0xB8))  // xor
    } else if i <= 0xC6 {
        entry(0x1F, (i - 0xBE) / 3, (i - 0xBE) % 3)  // zxt
    } else if i == 0xC7 {
        entry(0x0B, 7, 0)  // la r7,dddddd (absolute jump)
    } else if i == 0xCE {
        entry(0x08, 5, 0)  // clu z,r0
    } else {
        INVALID_ENTRY
    }
}

/// Computes the ROM value of one byte.
pub fn decode_rom_entry(byte: u8) -> (r: u16)
    ensures
        r == rom_spec(byte),
{
    reveal(rom_spec);
    let i = byte as u16;
    if i <= 0x08 {
        i / 3 * 8 + i % 3
    } else if i <= 0x0C {
        0x01 * 64 + (if i == 0x0C { 4 } else { i - 0x09 }) * 8
    } else if i <= 0x12 {
        pair_entry(0x02, i - 0x0D)
    } else if i <= 0x15 {
        (i - 0x10) * 64
    } else if i <= 0x18 {
        0x06 * 64 + (if i == 0x18 { 1 } else { 0 }) * 8 + (if i == 0x16 { 1 } else { 2 })
    } else if i <= 0x1E {
        pair_entry(0x07, i - 0x19)
    } else if i <= 0x24 {
        pair_entry(0x08, i - 0x1F)
    } else if i == 0x25 {
        0x09 * 64 + 8
    } else if i <= 0x28 {
        0x0A * 64 + (i - 0x26) * 8
    } else if i <= 0x2B {
        0x0B * 64 + (i - 0x29) * 8
    } else if i <= 0x37 {
        0x0C * 64 + (i - 0x2C) / 4 * 8 + (i - 0x2C) % 4
    } else if i <= 0x43 {
        0x0D * 64 + (i - 0x38) / 4 * 8 + (i - 0x38) % 4
    } else if i <= 0x46 {
        0x0E * 64 + (i - 0x44) * 8
    } else if i <= 0x49 {
        0x0F * 64 + (i - 0x47) * 8
    } else if i <= 0x55 {
        0x10 * 64 + (i - 0x4A) / 4 * 8 + (i - 0x4A) % 4
    } else if i <= 0x64 {
        let k = i - 0x56;
        let ra = k / 5;
        let j = k % 5;
        0x11 * 64 + ra * 8 + (if j < ra { j } else { j + 1 })
    } else if i == 0x65 {
        0x11 * 64 + 3 * 8 + 4
    } else if i <= 0x69 {
        0x11 * 64 + 4 * 8 + (i - 0x66)
    } else if i <= 0x72 {
        0x12 * 64 + (i - 0x6A) / 3 * 8 + (i - 0x6A) % 3
    } else if i <= 0x78 {
        pair_entry(0x13, i - 0x73)
    } else if i <= 0x7C {
        0x14 * 64 + (i - 0x79) * 8 + 4
    } else if i <= 0x80 {
        0x15 * 64 + (i - 0x7D) * 8 + 4
    } else if i <= 0x89 {
        let k = i - 0x81;
        let ra = k / 3;
        let j = k % 3;
        0x16 * 64 + ra * 8 + (if j < ra { j } else { j + 1 })
    } else if i <= 0x8F {
        pair_entry(0x17, i - 0x8A)
    } else if i <= 0x95 {
        pair_entry(0x18, i - 0x90)
    } else if i <= 0x9B {
        pair_entry(0x19, i - 0x96)
    } else if i <= 0xA1 {
        pair_entry(0x1A, i - 0x9C)
    } else if i == 0xA2 {
        0x1B * 64 + 4 * 8
    } else if i <= 0xAE {
        0x1C * 64 + (i - 0xA3) / 4 * 8 + (i - 0xA3) % 4
    } else if i <= 0xB7 {
        0x1D * 64 + (i - 0xAF) / 3 * 8 + (i - 0xAF) % 3
    } else if i <= 0xBD {
        pair_entry(0x1E, i - 0xB8)
    } else if i <= 0xC6 {
        0x1F * 64 + (i - 0xBE) / 3 * 8 + (i - 0xBE) % 3
    } else if i == 0xC7 {
        0x0B * 64 + 7 * 8
    } else if i == 0xCE {
        0x08 * 64 + 5 * 8
    } else {
        INVALID_ENTRY
    }
}

/// ROM value of the `k`-th distinct-register pair of an opcode.
fn pair_entry(op: u16, k: u16) -> (r: u16)
    requires
        op < 32,
        k < 6,
    ensures
        r == entry(op as int, pair_ra(k as int), pair_rb(k as int)),
{
    let ra = k / 2;
    let rb = if k % 2 == 0 {
        if ra == 0 { 1 } else { 0 }
    } else {
        if ra == 2 { 1 } else { 2 }
    };
    op * 64 + ra * 8 + rb
}

} // verus!
