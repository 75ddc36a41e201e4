//! Instruction encoding: the inverse lookup of the decode ROM.
//!
//! The assembler encodes an instruction by the first ROM byte that decodes to it; an
//! instruction that no byte decodes to cannot be encoded.

use vstd::prelude::*;
use super::decode_rom::{decode_rom_entry, rom_spec, INVALID_ENTRY};
use super::instruction::{decoded_spec, DecodedInstruction, Opcode};

verus! {

/// Byte `b` is an instruction byte that decodes to `inst`.
#[verifier::opaque]
pub open spec fn encodes(b: u8, inst: DecodedInstruction) -> bool {
    rom_spec(b) != INVALID_ENTRY && decoded_spec(rom_spec(b)) == inst
}

/// The first byte that decodes to `inst`, if any.
#[verifier::opaque]
pub open spec fn encoding_of(inst: DecodedInstruction) -> Option<u8> {
    if exists|b: u8| encodes(b, inst) {
        Some(choose|b: u8| encodes(b, inst) && forall|c: u8| c < b ==> !encodes(c, inst))
    } else {
        None
    }
}

/// The instruction `opcode ra,rb`.
pub open spec fn inst(opcode: Opcode, ra: u8, rb: u8) -> DecodedInstruction {
    DecodedInstruction { opcode, ra, rb }
}

/// Encode `opcode ra,rb`: the first ROM byte that decodes to it.
pub fn encode_instruction(opcode: Opcode, ra: u8, rb: u8) -> (r: Option<u8>)
    ensures
        r == encoding_of(inst(opcode, ra, rb)),
{
    reveal(encodes);
    reveal(encoding_of);
    let target = DecodedInstruction { opcode, ra, rb };
    let mut i: u16 = 0;
    while i < 256
        invariant
            i <= 256,
            target == inst(opcode, ra, rb),
            forall|c: u8| (c as int) < (i as int) ==> !encodes(c, target),
        decreases 256 - i,
    {
        proof {
            reveal(encodes);
            reveal(encoding_of);
        }
        let v = decode_rom_entry(i as u8);
        if v != INVALID_ENTRY {
            let d = DecodedInstruction::from_decoded(v);
            if d.opcode == opcode && d.ra == ra && d.rb == rb {
                proof {
                    let b = i as u8;
                    assert(encodes(b, target));
                    let w = choose|x: u8| encodes(x, target) && forall|c: u8| c < x ==> !encodes(c, target);
                    assert(encodes(w, target) && forall|c: u8| c < w ==> !encodes(c, target)) by {
                        assert(encodes(b, target) && forall|c: u8| c < b ==> !encodes(c, target));
                    }
                    assert(!(w < b));
                    assert(!(b < w));
                }
                return Some(i as u8);
            }
        }
        proof {
            assert(!encodes(i as u8, target));
        }
        i += 1;
    }
    proof {
        assert forall|b: u8| !encodes(b, target) by {
            assert((b as int) < 256);
        }
    }
    None
}

/// `push ra` (stack pointer operand).
pub fn encode_push(ra: u8) -> (r: Option<u8>)
    ensures
        r == encoding_of(inst(Opcode::Push, ra, 4)),
{
    encode_instruction(Opcode::Push, ra, 4)
}

/// `pop ra` (stack pointer operand).
pub fn encode_pop(ra: u8) -> (r: Option<u8>)
    ensures
        r == encoding_of(inst(Opcode::Pop, ra, 4)),
{
    encode_instruction(Opcode::Pop, ra, 4)
}

/// `mov ra,rb` (`rb` = 5 is the condition flag).
pub fn encode_mov(ra: u8, rb: u8) -> (r: Option<u8>)
    ensures
        r == encoding_of(inst(Opcode::Mov, ra, rb)),
{
    encode_instruction(Opcode::Mov, ra, rb)
}

/// `add ra,rb`.
pub fn encode_add_reg(ra: u8, rb: u8) -> (r: Option<u8>)
    ensures
        r == encoding_of(inst(Opcode::AddReg, ra, rb)),
{
    encode_instruction(Opcode::AddReg, ra, rb)
}

/// First byte of `add ra,dd`.
pub fn encode_add_imm(ra: u8) -> (r: Option<u8>)
    ensures
        r == encoding_of(inst(Opcode::AddImm, ra, 0)),
{
    encode_instruction(Opcode::AddImm, ra, 0)
}

/// First byte of `sub sp,dddddd`.
pub fn encode_sub_sp() -> (r: Option<u8>)
    ensures
        r == encoding_of(inst(Opcode::SubSp, 4, 0)),
{
    encode_instruction(Opcode::SubSp, 4, 0)
}

/// First byte of a branch (`bra`, `brf`, `brt`).
pub fn encode_branch(opcode: Opcode) -> (r: Option<u8>)
    ensures
        r == encoding_of(inst(opcode, 0, 0)),
{
    encode_instruction(opcode, 0, 0)
}

/// `jmp (ra)`.
pub fn encode_jmp(ra: u8) -> (r: Option<u8>)
    ensures
        r == encoding_of(inst(Opcode::Jmp, ra, 0)),
{
    encode_instruction(Opcode::Jmp, ra, 0)
}

/// `jal ra,(rb)`.
pub fn encode_jal(ra: u8, rb: u8) -> (r: Option<u8>)
    ensures
        r == encoding_of(inst(Opcode::Jal, ra, rb)),
{
    encode_instruction(Opcode::Jal, ra, rb)
}

/// First byte of `la ra,dddddd`.
pub fn encode_la(ra: u8) -> (r: Option<u8>)
    ensures
        r == encoding_of(inst(Opcode::La, ra, 0)),
{
    encode_instruction(Opcode::La, ra, 0)
}

/// First byte of `lc ra,dd` or, when `unsigned`, `lcu ra,dd`.
pub fn encode_lc(ra: u8, unsigned: bool) -> (r: Option<u8>)
    ensures
        r == encoding_of(inst(if unsigned { Opcode::Lcu } else { Opcode::Lc }, ra, 0)),
{
    encode_instruction(if unsigned { Opcode::Lcu } else { Opcode::Lc }, ra, 0)
}

/// First byte of a load or store `op ra,dd(rb)`.
pub fn encode_load_store(opcode: Opcode, ra: u8, rb: u8) -> (r: Option<u8>)
    ensures
        r == encoding_of(inst(opcode, ra, rb)),
{
    encode_instruction(opcode, ra, rb)
}

/// The bytes the instruction set reference lists decode as it says: single-byte register
/// operations (0x01 `add r0,r1` ... 0x80 `push fp`, 0xCE `clu z,r0`), two-byte forms
/// (0x09 `add r0,dd` ... 0xA6 `sw r0,dd(fp)`) and four-byte `la` (0x29 to 0x2B).
pub proof fn lemma_documented_bytes()
    ensures
        rom_spec(0x01) != INVALID_ENTRY && decoded_spec(rom_spec(0x01)) == inst(Opcode::AddReg, 0, 1),
        rom_spec(0x02) != INVALID_ENTRY && decoded_spec(rom_spec(0x02)) == inst(Opcode::AddReg, 0, 2),
        rom_spec(0x1A) != INVALID_ENTRY && decoded_spec(rom_spec(0x1A)) == inst(Opcode::Cls, 0, 2),
        rom_spec(0x1B) != INVALID_ENTRY && decoded_spec(rom_spec(0x1B)) == inst(Opcode::Cls, 1, 0),
        rom_spec(0x25) != INVALID_ENTRY && decoded_spec(rom_spec(0x25)) == inst(Opcode::Jal, 1, 0),
        rom_spec(0x27) != INVALID_ENTRY && decoded_spec(rom_spec(0x27)) == inst(Opcode::Jmp, 1, 0),
        rom_spec(0x57) != INVALID_ENTRY && decoded_spec(rom_spec(0x57)) == inst(Opcode::Mov, 0, 2),
        rom_spec(0x65) != INVALID_ENTRY && decoded_spec(rom_spec(0x65)) == inst(Opcode::Mov, 3, 4),
        rom_spec(0x69) != INVALID_ENTRY && decoded_spec(rom_spec(0x69)) == inst(Opcode::Mov, 4, 3),
        rom_spec(0x7A) != INVALID_ENTRY && decoded_spec(rom_spec(0x7A)) == inst(Opcode::Pop, 1, 4),
        rom_spec(0x7B) != INVALID_ENTRY && decoded_spec(rom_spec(0x7B)) == inst(Opcode::Pop, 2, 4),
        rom_spec(0x7C) != INVALID_ENTRY && decoded_spec(rom_spec(0x7C)) == inst(Opcode::Pop, 3, 4),
        rom_spec(0x7D) != INVALID_ENTRY && decoded_spec(rom_spec(0x7D)) == inst(Opcode::Push, 0, 4),
        rom_spec(0x7E) != INVALID_ENTRY && decoded_spec(rom_spec(0x7E)) == inst(Opcode::Push, 1, 4),
        rom_spec(0x7F) != INVALID_ENTRY && decoded_spec(rom_spec(0x7F)) == inst(Opcode::Push, 2, 4),
        rom_spec(0x80) != INVALID_ENTRY && decoded_spec(rom_spec(0x80)) == inst(Opcode::Push, 3, 4),
        rom_spec(0xCE) != INVALID_ENTRY && decoded_spec(rom_spec(0xCE)) == inst(Opcode::Clu, 5, 0),
        rom_spec(0x09) != INVALID_ENTRY && decoded_spec(rom_spec(0x09)) == inst(Opcode::AddImm, 0, 0),
        rom_spec(0x0B) != INVALID_ENTRY && decoded_spec(rom_spec(0x0B)) == inst(Opcode::AddImm, 2, 0),
        rom_spec(0x0C) != INVALID_ENTRY && decoded_spec(rom_spec(0x0C)) == inst(Opcode::AddImm, 4, 0),
        rom_spec(0x13) != INVALID_ENTRY && decoded_spec(rom_spec(0x13)) == inst(Opcode::Bra, 0, 0),
        rom_spec(0x14) != INVALID_ENTRY && decoded_spec(rom_spec(0x14)) == inst(Opcode::Brf, 0, 0),
        rom_spec(0x15) != INVALID_ENTRY && decoded_spec(rom_spec(0x15)) == inst(Opcode::Brt, 0, 0),
        rom_spec(0x2C) != INVALID_ENTRY && decoded_spec(rom_spec(0x2C)) == inst(Opcode::Lb, 0, 0),
        rom_spec(0x2E) != INVALID_ENTRY && decoded_spec(rom_spec(0x2E)) == inst(Opcode::Lb, 0, 2),
        rom_spec(0x44) != INVALID_ENTRY && decoded_spec(rom_spec(0x44)) == inst(Opcode::Lc, 0, 0),
        rom_spec(0x45) != INVALID_ENTRY && decoded_spec(rom_spec(0x45)) == inst(Opcode::Lc, 1, 0),
        rom_spec(0x46) != INVALID_ENTRY && decoded_spec(rom_spec(0x46)) == inst(Opcode::Lc, 2, 0),
        rom_spec(0x4D) != INVALID_ENTRY && decoded_spec(rom_spec(0x4D)) == inst(Opcode::Lw, 0, 3),
        rom_spec(0x51) != INVALID_ENTRY && decoded_spec(rom_spec(0x51)) == inst(Opcode::Lw, 1, 3),
        rom_spec(0x55) != INVALID_ENTRY && decoded_spec(rom_spec(0x55)) == inst(Opcode::Lw, 2, 3),
        rom_spec(0x82) != INVALID_ENTRY && decoded_spec(rom_spec(0x82)) == inst(Opcode::Sb, 0, 2),
        rom_spec(0x84) != INVALID_ENTRY && decoded_spec(rom_spec(0x84)) == inst(Opcode::Sb, 1, 0),
        rom_spec(0xA6) != INVALID_ENTRY && decoded_spec(rom_spec(0xA6)) == inst(Opcode::Sw, 0, 3),
        rom_spec(0x29) != INVALID_ENTRY && decoded_spec(rom_spec(0x29)) == inst(Opcode::La, 0, 0),
        rom_spec(0x2A) != INVALID_ENTRY && decoded_spec(rom_spec(0x2A)) == inst(Opcode::La, 1, 0),
        rom_spec(0x2B) != INVALID_ENTRY && decoded_spec(rom_spec(0x2B)) == inst(Opcode::La, 2, 0),
{
    reveal(rom_spec);
}

/// Decoding an encoded instruction gives the instruction back.
pub proof fn lemma_encode_decode(inst: DecodedInstruction)
    requires
        encoding_of(inst) is Some,
    ensures
        rom_spec(encoding_of(inst).unwrap()) != INVALID_ENTRY,
        decoded_spec(rom_spec(encoding_of(inst).unwrap())) == inst,
{
    reveal(encodes);
    reveal(encoding_of);
    let b = choose|b: u8| encodes(b, inst);
    lemma_least_encoding(inst, b);
    let w = choose|x: u8| encodes(x, inst) && forall|c: u8| c < x ==> !encodes(c, inst);
    assert(encoding_of(inst) == Some(w));
    assert(encodes(w, inst));
}

/// Every byte the decode ROM gives an instruction decodes back to it.
pub proof fn lemma_encodings_decode()
    ensures
        forall|d: DecodedInstruction| #[trigger] encoding_of(d) is Some ==> rom_spec(encoding_of(d).unwrap())
            != INVALID_ENTRY && decoded_spec(rom_spec(encoding_of(d).unwrap())) == d,
{
    assert forall|d: DecodedInstruction| #[trigger] encoding_of(d) is Some implies rom_spec(encoding_of(d).unwrap())
        != INVALID_ENTRY && decoded_spec(rom_spec(encoding_of(d).unwrap())) == d by {
        lemma_encode_decode(d);
    }
}

/// The three branches have encodings: 0x13 `bra`, 0x14 `brf`, 0x15 `brt`.
pub proof fn lemma_branches_encode()
    ensures
        encoding_of(inst(Opcode::Bra, 0, 0)) is Some,
        encoding_of(inst(Opcode::Brf, 0, 0)) is Some,
        encoding_of(inst(Opcode::Brt, 0, 0)) is Some,
{
    lemma_documented_bytes();
    reveal(encodes);
    reveal(encoding_of);
    assert(encodes(0x13, inst(Opcode::Bra, 0, 0)));
    assert(encodes(0x14, inst(Opcode::Brf, 0, 0)));
    assert(encodes(0x15, inst(Opcode::Brt, 0, 0)));
}

/// If some byte encodes an instruction, a least one does.
proof fn lemma_least_encoding(inst: DecodedInstruction, b: u8)
    requires
        encodes(b, inst),
    ensures
        exists|x: u8| encodes(x, inst) && forall|c: u8| c < x ==> !encodes(c, inst),
    decreases b,
{
    if exists|c: u8| c < b && encodes(c, inst) {
        let c = choose|c: u8| c < b && encodes(c, inst);
        lemma_least_encoding(inst, c);
    } else {
        assert(encodes(b, inst) && forall|c: u8| c < b ==> !encodes(c, inst));
    }
}

} // verus!
