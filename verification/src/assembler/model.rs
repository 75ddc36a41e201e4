//! The meaning of an assembly run, stated over character sequences.
//!
//! An assembly run is a fold over the source lines followed by a fold over the recorded
//! forward references. The state of the fold is an `AsmModel`; its `ok` flag turns false as
//! soon as an address computation leaves the range of `u32` (or of `i32` for branch
//! offsets), which is where the computation stops being defined.

use vstd::prelude::*;
use crate::cpu::decode_rom::{rom_spec, INVALID_ENTRY};
use crate::cpu::encode::{encoding_of, inst, lemma_branches_encode, lemma_encodings_decode};
use crate::cpu::instruction::{reg_name_text, decoded_spec, mnemonic_text, Opcode};
use crate::cpu::state::{sext8, wrap24};
use crate::text::{is_ws, lemma_decimal_digits, lemma_decimal_value, lemma_hex_digits, lemma_hex_value, lemma_trim_no_ws, hex,
    decimal, find, join, lines, fold_case, parse_i32, parse_u32_radix, rfind, split,
    starts_with, trim, trim_char, trim_end_char, words,
};
use vstd::utf8::encode_utf8;

verus! {

/// A forward reference: a label used before it was defined.
pub struct RefModel {
    /// Address of the byte(s) to patch.
    pub address: u32,
    /// The label referred to.
    pub label: Seq<char>,
    /// A 24-bit absolute address (`la`) rather than an 8-bit branch offset.
    pub absolute: bool,
    /// Zero-based source line of the reference.
    pub line_num: usize,
}

/// One listing line: where it was placed, what it produced, its source text and label.
pub struct LineModel {
    pub address: u32,
    pub bytes: Seq<u8>,
    pub source: Seq<char>,
    pub label: Option<Seq<char>>,
}

/// The state of an assembly run.
pub struct AsmModel {
    /// No address computation has overflowed so far.
    pub ok: bool,
    /// Address of the next byte.
    pub address: u32,
    /// The symbol table, in order of first definition.
    pub labels: Seq<(Seq<char>, u32)>,
    /// Forward references, in source order.
    pub refs: Seq<RefModel>,
    /// The bytes produced so far.
    pub output: Seq<u8>,
    /// The listing so far.
    pub lines: Seq<LineModel>,
    /// The error messages so far.
    pub errors: Seq<Seq<char>>,
}

/// The state at the start of a run.
pub open spec fn initial_model() -> AsmModel {
    AsmModel {
        ok: true,
        address: 0,
        labels: Seq::empty(),
        refs: Seq::empty(),
        output: Seq::empty(),
        lines: Seq::empty(),
        errors: Seq::empty(),
    }
}

// ---------------------------------------------------------------- symbol table

/// The first index at or after `i` whose entry has key `k` (the length if none).
pub open spec fn label_index_from(ls: Seq<(Seq<char>, u32)>, k: Seq<char>, i: int) -> int
    decreases ls.len() - i,
{
    if i < 0 || i >= ls.len() {
        ls.len() as int
    } else if ls[i].0 == k {
        i
    } else {
        label_index_from(ls, k, i + 1)
    }
}

/// The value bound to `k`, if any.
pub open spec fn label_get(ls: Seq<(Seq<char>, u32)>, k: Seq<char>) -> Option<u32> {
    let i = label_index_from(ls, k, 0);
    if i < ls.len() {
        Some(ls[i].1)
    } else {
        None
    }
}

/// Bind `k` to `v`: the existing entry is updated in place, or a new one is appended.
pub open spec fn label_insert(ls: Seq<(Seq<char>, u32)>, k: Seq<char>, v: u32) -> Seq<
    (Seq<char>, u32),
> {
    let i = label_index_from(ls, k, 0);
    if i < ls.len() {
        ls.update(i, (k, v))
    } else {
        ls.push((k, v))
    }
}

/// No key occurs twice.
pub open spec fn keys_unique(ls: Seq<(Seq<char>, u32)>) -> bool {
    forall|i: int, j: int| 0 <= i < j < ls.len() ==> ls[i].0 != ls[j].0
}

// ---------------------------------------------------------------- operands

/// The prefix `Line N: ` of every message about zero-based line `n`.
#[verifier::opaque]
pub open spec fn at_line(n: usize) -> Seq<char> {
    "Line "@ + decimal((n + 1) as nat) + ": "@
}

/// The register an already lowercased, trimmed name denotes.
pub open spec fn register_of(l: Seq<char>) -> Option<u8> {
    if l == "r0"@ {
        Some(0u8)
    } else if l == "r1"@ {
        Some(1u8)
    } else if l == "r2"@ {
        Some(2u8)
    } else if l == "r3"@ || l == "fp"@ {
        Some(3u8)
    } else if l == "r4"@ || l == "sp"@ {
        Some(4u8)
    } else if l == "r5"@ || l == "z"@ || l == "c"@ {
        Some(5u8)
    } else if l == "r6"@ || l == "iv"@ {
        Some(6u8)
    } else if l == "r7"@ || l == "ir"@ {
        Some(7u8)
    } else {
        None
    }
}

/// The register an operand names (case-insensitive, surrounding whitespace ignored).
#[verifier::opaque]
pub open spec fn register_operand(s: Seq<char>) -> Option<u8> {
    register_of(fold_case(trim(s)))
}

/// The number an operand denotes: `0x`/`0X` hexadecimal, a negative decimal taken as its
/// 32-bit two's complement, or an unsigned decimal.
#[verifier::opaque]
pub open spec fn number_of(s: Seq<char>) -> Option<u32> {
    let t = trim(s);
    if starts_with(t, "0x"@) || starts_with(t, "0X"@) {
        parse_u32_radix(t.skip(2), 16)
    } else if t.len() > 0 && t[0] == '-' {
        match parse_i32(t) {
            Some(v) => Some(v as u32),
            None => None,
        }
    } else {
        parse_u32_radix(t, 10)
    }
}

/// A `u32` read as a two's complement `i32`.
pub open spec fn as_i32(x: u32) -> int {
    if x < 0x8000_0000 {
        x as int
    } else {
        x - 0x1_0000_0000
    }
}

/// The byte holding an offset in `-128..=127`.
pub open spec fn offset_byte(d: int) -> u8 {
    (if d < 0 {
        d + 256
    } else {
        d
    }) as u8
}

/// The three little-endian bytes of the low 24 bits of `v`.
pub open spec fn word_bytes(v: u32) -> Seq<u8> {
    seq![(v & 0xFF) as u8, ((v >> 8) & 0xFF) as u8, ((v >> 16) & 0xFF) as u8]
}

// ---------------------------------------------------------------- state updates

/// Record an error; no bytes.
pub open spec fn fail(m: AsmModel, msg: Seq<char>) -> (AsmModel, Seq<u8>) {
    (AsmModel { errors: m.errors.push(msg), ..m }, Seq::empty())
}

/// An address computation overflowed; no bytes.
pub open spec fn overflow(m: AsmModel) -> (AsmModel, Seq<u8>) {
    (AsmModel { ok: false, ..m }, Seq::empty())
}

/// Append bytes to the output, advancing the address.
pub open spec fn emit_data(m: AsmModel, bs: Seq<u8>) -> AsmModel {
    AsmModel {
        ok: m.ok && m.address + bs.len() <= u32::MAX,
        address: (m.address + bs.len()) as u32,
        output: m.output + bs,
        ..m
    }
}

/// Record a forward reference at the byte after the current one.
pub open spec fn add_ref(m: AsmModel, label: Seq<char>, absolute: bool, n: usize) -> AsmModel {
    AsmModel {
        refs: m.refs.push(
            RefModel { address: (m.address + 1) as u32, label, absolute, line_num: n },
        ),
        ..m
    }
}

// ---------------------------------------------------------------- instruction encoders

/// `push ra`.
pub open spec fn enc_push(m: AsmModel, ops: Seq<Seq<char>>, n: usize) -> (AsmModel, Seq<u8>) {
    if ops.len() == 0 {
        fail(m, at_line(n) + "push requires operand"@)
    } else {
        match register_operand(ops[0]) {
            Some(ra) => match encoding_of(inst(Opcode::Push, ra, 4)) {
                Some(b) => (m, seq![b]),
                None => fail(m, at_line(n) + "push "@ + ops[0] + " not supported"@),
            },
            None => fail(m, at_line(n) + "Invalid register '"@ + ops[0] + "'"@),
        }
    }
}

/// `pop ra`.
pub open spec fn enc_pop(m: AsmModel, ops: Seq<Seq<char>>, n: usize) -> (AsmModel, Seq<u8>) {
    if ops.len() == 0 {
        fail(m, at_line(n) + "pop requires operand"@)
    } else {
        match register_operand(ops[0]) {
            Some(ra) => match encoding_of(inst(Opcode::Pop, ra, 4)) {
                Some(b) => (m, seq![b]),
                None => fail(m, at_line(n) + "pop "@ + ops[0] + " not supported"@),
            },
            None => fail(m, at_line(n) + "Invalid register '"@ + ops[0] + "'"@),
        }
    }
}

/// `mov ra,rb`.
pub open spec fn enc_mov(m: AsmModel, ops: Seq<Seq<char>>, n: usize) -> (AsmModel, Seq<u8>) {
    if ops.len() < 2 {
        fail(m, at_line(n) + "mov requires two operands"@)
    } else {
        match (register_operand(ops[0]), register_operand(ops[1])) {
            (Some(ra), Some(rb)) => match encoding_of(inst(Opcode::Mov, ra, rb)) {
                Some(b) => (m, seq![b]),
                None => fail(m, at_line(n) + "mov "@ + ops[0] + ","@ + ops[1] + " not supported"@),
            },
            _ => fail(m, at_line(n) + "Invalid mov operands"@),
        }
    }
}

/// `add ra,rb` or `add ra,imm`.
pub open spec fn enc_add(m: AsmModel, ops: Seq<Seq<char>>, n: usize) -> (AsmModel, Seq<u8>) {
    if ops.len() < 2 {
        fail(m, at_line(n) + "add requires two operands"@)
    } else {
        let ra = register_operand(ops[0]);
        match number_of(ops[1]) {
            Some(imm) => match ra {
                Some(ra) => match encoding_of(inst(Opcode::AddImm, ra, 0)) {
                    Some(b) => (m, seq![b, imm as u8]),
                    None => fail(m, at_line(n) + "add "@ + ops[0] + ",imm not supported"@),
                },
                None => fail(m, at_line(n) + "Invalid register"@),
            },
            None => match register_operand(ops[1]) {
                Some(rb) => match ra {
                    Some(ra) => match encoding_of(inst(Opcode::AddReg, ra, rb)) {
                        Some(b) => (m, seq![b]),
                        None => fail(
                            m,
                            at_line(n) + "add "@ + ops[0] + ","@ + ops[1] + " not supported"@,
                        ),
                    },
                    None => fail(m, at_line(n) + "Invalid register"@),
                },
                None => fail(m, at_line(n) + "Invalid add operand"@),
            },
        }
    }
}

/// The `sub sp,imm` form, when it applies.
pub open spec fn sub_sp_form(ops: Seq<Seq<char>>) -> Option<(u8, u32)> {
    if fold_case(ops[0]) == "sp"@ {
        match number_of(ops[1]) {
            Some(imm) => match encoding_of(inst(Opcode::SubSp, 4, 0)) {
                Some(b) => Some((b, imm)),
                None => None,
            },
            None => None,
        }
    } else {
        None
    }
}

/// `sub ra,rb` or `sub sp,imm24`.
pub open spec fn enc_sub(m: AsmModel, ops: Seq<Seq<char>>, n: usize) -> (AsmModel, Seq<u8>) {
    if ops.len() < 2 {
        fail(m, at_line(n) + "sub requires two operands"@)
    } else {
        match sub_sp_form(ops) {
            Some((b, imm)) => (m, seq![b] + word_bytes(imm)),
            None => match (register_operand(ops[0]), register_operand(ops[1])) {
                (Some(ra), Some(rb)) => match encoding_of(inst(Opcode::Sub, ra, rb)) {
                    Some(b) => (m, seq![b]),
                    None => fail(
                        m,
                        at_line(n) + "sub "@ + ops[0] + ","@ + ops[1] + " not supported"@,
                    ),
                },
                _ => fail(m, at_line(n) + "Invalid sub operands"@),
            },
        }
    }
}

/// `mul ra,rb`.
pub open spec fn enc_mul(m: AsmModel, ops: Seq<Seq<char>>, n: usize) -> (AsmModel, Seq<u8>) {
    if ops.len() < 2 {
        fail(m, at_line(n) + "mul requires two operands"@)
    } else {
        match (register_operand(ops[0]), register_operand(ops[1])) {
            (Some(ra), Some(rb)) => match encoding_of(inst(Opcode::Mul, ra, rb)) {
                Some(b) => (m, seq![b]),
                None => fail(m, at_line(n) + "mul "@ + ops[0] + ","@ + ops[1] + " not supported"@),
            },
            _ => fail(m, at_line(n) + "Invalid mul operands"@),
        }
    }
}

/// A two-register ALU, shift, compare or extension instruction.
pub open spec fn enc_alu(
    m: AsmModel,
    ops: Seq<Seq<char>>,
    op: Opcode,
    mn: Seq<char>,
    n: usize,
) -> (AsmModel, Seq<u8>) {
    if ops.len() < 2 {
        fail(m, at_line(n) + mn + " requires two operands"@)
    } else {
        match (register_operand(ops[0]), register_operand(ops[1])) {
            (Some(ra), Some(rb)) => match encoding_of(inst(op, ra, rb)) {
                Some(b) => (m, seq![b]),
                None => fail(
                    m,
                    at_line(n) + mn + " "@ + ops[0] + ","@ + ops[1] + " not supported"@,
                ),
            },
            _ => fail(m, at_line(n) + "Invalid "@ + mn + " operands"@),
        }
    }
}

/// The first byte of a branch (`bra` when the opcode has no encoding).
pub open spec fn branch_byte(op: Opcode) -> u8 {
    match encoding_of(inst(op, 0, 0)) {
        Some(b) => b,
        None => 0x13u8,
    }
}

/// `bra`/`brf`/`brt` to a known label, a literal offset, or a label defined later.
pub open spec fn enc_branch(m: AsmModel, ops: Seq<Seq<char>>, op: Opcode, n: usize) -> (
    AsmModel,
    Seq<u8>,
) {
    if ops.len() == 0 {
        fail(m, at_line(n) + "branch requires target"@)
    } else {
        let target = trim(ops[0]);
        let fb = branch_byte(op);
        match label_get(m.labels, target) {
            Some(a) => if m.address + 2 > u32::MAX {
                overflow(m)
            } else {
                let d = as_i32(a) - as_i32((m.address + 2) as u32);
                if d < i32::MIN || d > i32::MAX {
                    overflow(m)
                } else if d < -128 || d > 127 {
                    fail(m, at_line(n) + "Branch target too far"@)
                } else {
                    (m, seq![fb, offset_byte(d)])
                }
            },
            None => match number_of(target) {
                Some(imm) => (m, seq![fb, imm as u8]),
                None => if m.address + 1 > u32::MAX {
                    overflow(m)
                } else {
                    (add_ref(m, target, false, n), seq![fb, 0u8])
                },
            },
        }
    }
}

/// The register inside `(r)`, if the text has that shape.
pub open spec fn parenthesized(t: Seq<char>) -> Option<Seq<char>> {
    if t.len() >= 2 && t[0] == '(' && t[t.len() - 1] == ')' {
        Some(t.subrange(1, t.len() - 1))
    } else {
        None
    }
}

/// `jmp (ra)`.
pub open spec fn enc_jmp(m: AsmModel, ops: Seq<Seq<char>>, n: usize) -> (AsmModel, Seq<u8>) {
    if ops.len() == 0 {
        fail(m, at_line(n) + "jmp requires target"@)
    } else {
        let invalid = fail(m, at_line(n) + "Invalid jmp syntax"@);
        match parenthesized(trim(ops[0])) {
            Some(reg) => match register_operand(reg) {
                Some(ra) => match encoding_of(inst(Opcode::Jmp, ra, 0)) {
                    Some(b) => (m, seq![b]),
                    None => fail(m, at_line(n) + "jmp ("@ + reg + ") not supported"@),
                },
                None => invalid,
            },
            None => invalid,
        }
    }
}

/// `jal ra,(rb)`.
pub open spec fn enc_jal(m: AsmModel, ops: Seq<Seq<char>>, n: usize) -> (AsmModel, Seq<u8>) {
    if ops.len() < 2 {
        fail(m, at_line(n) + "jal requires ra,(rb)"@)
    } else {
        let invalid = fail(m, at_line(n) + "Invalid jal syntax"@);
        match parenthesized(trim(ops[1])) {
            Some(reg) => match (register_operand(ops[0]), register_operand(reg)) {
                (Some(ra), Some(rb)) => match encoding_of(inst(Opcode::Jal, ra, rb)) {
                    Some(b) => (m, seq![b]),
                    None => fail(
                        m,
                        at_line(n) + "jal "@ + ops[0] + ",("@ + reg + ") not supported"@,
                    ),
                },
                _ => invalid,
            },
            None => invalid,
        }
    }
}

/// `la ra,addr24` with a number, a known label, or a label defined later.
pub open spec fn enc_la(m: AsmModel, ops: Seq<Seq<char>>, n: usize) -> (AsmModel, Seq<u8>) {
    if ops.len() < 2 {
        fail(m, at_line(n) + "la requires register and address"@)
    } else {
        let target = trim(ops[1]);
        match register_operand(ops[0]) {
            Some(ra) => match encoding_of(inst(Opcode::La, ra, 0)) {
                Some(fb) => match number_of(target) {
                    Some(a) => (m, seq![fb] + word_bytes(a)),
                    None => match label_get(m.labels, target) {
                        Some(a) => (m, seq![fb] + word_bytes(a)),
                        None => if m.address + 1 > u32::MAX {
                            overflow(m)
                        } else {
                            (add_ref(m, target, true, n), seq![fb, 0u8, 0u8, 0u8])
                        },
                    },
                },
                None => fail(m, at_line(n) + "la "@ + ops[0] + " not supported"@),
            },
            None => fail(m, at_line(n) + "Invalid la operand"@),
        }
    }
}

/// `lc ra,imm8` or, when `unsigned`, `lcu ra,imm8`.
pub open spec fn enc_lc(m: AsmModel, ops: Seq<Seq<char>>, unsigned: bool, n: usize) -> (
    AsmModel,
    Seq<u8>,
) {
    if ops.len() < 2 {
        fail(m, at_line(n) + "lc requires register and constant"@)
    } else {
        match (register_operand(ops[0]), number_of(ops[1])) {
            (Some(ra), Some(imm)) => match encoding_of(
                inst(if unsigned { Opcode::Lcu } else { Opcode::Lc }, ra, 0),
            ) {
                Some(fb) => (m, seq![fb, imm as u8]),
                None => fail(
                    m,
                    at_line(n) + (if unsigned { "lcu"@ } else { "lc"@ }) + " "@ + ops[0]
                        + " not supported"@,
                ),
            },
            _ => fail(m, at_line(n) + "Invalid lc operands"@),
        }
    }
}

/// The offset, base register and parse of `offset(rb)`, if it has a `(`.
pub open spec fn mem_operand(ap: Seq<char>) -> Option<(Option<u32>, Option<u8>)> {
    match find(ap, '(') {
        Some(pp) => {
            let off_s = ap.take(pp);
            let rb_s = trim_end_char(ap.skip(pp + 1), ')');
            let off = if off_s.len() == 0 {
                Some(0u32)
            } else {
                number_of(off_s)
            };
            Some((off, register_operand(rb_s)))
        },
        None => None,
    }
}

/// A load or store `op ra,offset(rb)`.
pub open spec fn enc_load_store(
    m: AsmModel,
    ops: Seq<Seq<char>>,
    op: Opcode,
    mn: Seq<char>,
    n: usize,
) -> (AsmModel, Seq<u8>) {
    if ops.len() < 2 {
        fail(m, at_line(n) + mn + " requires operands"@)
    } else {
        let invalid = fail(m, at_line(n) + "Invalid "@ + mn + " syntax"@);
        match mem_operand(trim(ops[1])) {
            Some((off, rb)) => match (register_operand(ops[0]), rb, off) {
                (Some(ra), Some(rb), Some(off)) => match encoding_of(inst(op, ra, rb)) {
                    Some(fb) => (m, seq![fb, off as u8]),
                    None => fail(
                        m,
                        at_line(n) + mn + " "@ + ops[0] + ","@ + ops[1] + " not supported"@,
                    ),
                },
                _ => invalid,
            },
            None => invalid,
        }
    }
}

/// The effect of an instruction with an already lowercased mnemonic.
pub open spec fn dispatch(m: AsmModel, mnem: Seq<char>, ops: Seq<Seq<char>>, n: usize) -> (
    AsmModel,
    Seq<u8>,
) {
    if mnem == "push"@ {
        enc_push(m, ops, n)
    } else if mnem == "pop"@ {
        enc_pop(m, ops, n)
    } else if mnem == "mov"@ {
        enc_mov(m, ops, n)
    } else if mnem == "add"@ {
        enc_add(m, ops, n)
    } else if mnem == "sub"@ {
        enc_sub(m, ops, n)
    } else if mnem == "mul"@ {
        enc_mul(m, ops, n)
    } else if mnem == "and"@ {
        enc_alu(m, ops, Opcode::And, "and"@, n)
    } else if mnem == "or"@ {
        enc_alu(m, ops, Opcode::Or, "or"@, n)
    } else if mnem == "xor"@ {
        enc_alu(m, ops, Opcode::Xor, "xor"@, n)
    } else if mnem == "shl"@ {
        enc_alu(m, ops, Opcode::Shl, "shl"@, n)
    } else if mnem == "sra"@ {
        enc_alu(m, ops, Opcode::Sra, "sra"@, n)
    } else if mnem == "srl"@ {
        enc_alu(m, ops, Opcode::Srl, "srl"@, n)
    } else if mnem == "ceq"@ {
        enc_alu(m, ops, Opcode::Ceq, "ceq"@, n)
    } else if mnem == "cls"@ {
        enc_alu(m, ops, Opcode::Cls, "cls"@, n)
    } else if mnem == "clu"@ {
        enc_alu(m, ops, Opcode::Clu, "clu"@, n)
    } else if mnem == "bra"@ {
        enc_branch(m, ops, Opcode::Bra, n)
    } else if mnem == "brf"@ {
        enc_branch(m, ops, Opcode::Brf, n)
    } else if mnem == "brt"@ {
        enc_branch(m, ops, Opcode::Brt, n)
    } else if mnem == "jmp"@ {
        enc_jmp(m, ops, n)
    } else if mnem == "jal"@ {
        enc_jal(m, ops, n)
    } else if mnem == "la"@ {
        enc_la(m, ops, n)
    } else if mnem == "lc"@ {
        enc_lc(m, ops, false, n)
    } else if mnem == "lcu"@ {
        enc_lc(m, ops, true, n)
    } else if mnem == "lb"@ {
        enc_load_store(m, ops, Opcode::Lb, "lb"@, n)
    } else if mnem == "lbu"@ {
        enc_load_store(m, ops, Opcode::Lbu, "lbu"@, n)
    } else if mnem == "lw"@ {
        enc_load_store(m, ops, Opcode::Lw, "lw"@, n)
    } else if mnem == "sb"@ {
        enc_load_store(m, ops, Opcode::Sb, "sb"@, n)
    } else if mnem == "sw"@ {
        enc_load_store(m, ops, Opcode::Sw, "sw"@, n)
    } else if mnem == "sxt"@ {
        enc_alu(m, ops, Opcode::Sxt, "sxt"@, n)
    } else if mnem == "zxt"@ {
        enc_alu(m, ops, Opcode::Zxt, "zxt"@, n)
    } else if mnem == "halt"@ {
        // `la ir,0`: the jump to address 0, at which the executor stops
        (m, seq![0xC7u8, 0x00u8, 0x00u8, 0x00u8])
    } else if mnem == "nop"@ {
        (m, seq![0x00u8])
    } else {
        fail(m, at_line(n) + "Unknown instruction '"@ + mnem + "'"@)
    }
}

/// The text before a trailing `;` comment, else before a `#` comment.
pub open spec fn strip_comment(s: Seq<char>) -> Seq<char> {
    match find(s, ';') {
        Some(p) => s.take(p),
        None => match find(s, '#') {
            Some(p) => s.take(p),
            None => s,
        },
    }
}

/// The comma-separated, trimmed operands after the mnemonic.
pub open spec fn operands_of(parts: Seq<Seq<char>>) -> Seq<Seq<char>> {
    let os = if parts.len() > 1 {
        join(parts.skip(1), seq![' '])
    } else {
        Seq::empty()
    };
    if os.len() > 0 {
        split(os, ',').map_values(|p: Seq<char>| trim(p))
    } else {
        Seq::empty()
    }
}

/// The effect of the instruction text of one line.
pub open spec fn instruction_step(m: AsmModel, text: Seq<char>, n: usize) -> (AsmModel, Seq<u8>) {
    let parts = words(strip_comment(text));
    if parts.len() == 0 {
        (m, Seq::empty())
    } else {
        dispatch(m, fold_case(parts[0]), operands_of(parts), n)
    }
}

// ---------------------------------------------------------------- directives

/// `.org addr`: pad the output with zeros up to `addr` and continue there.
pub open spec fn org_step(m: AsmModel, parts: Seq<Seq<char>>) -> AsmModel {
    if parts.len() > 1 {
        match number_of(parts[1]) {
            Some(a) => AsmModel {
                address: a,
                output: if m.output.len() < a {
                    m.output + Seq::new((a - m.output.len()) as nat, |i: int| 0u8)
                } else {
                    m.output
                },
                ..m
            },
            None => m,
        }
    } else {
        m
    }
}

/// `.byte`/`.db` (`width` 1) or `.word`/`.dw` (`width` 3) over `parts[1..k]`; operands that
/// are not numbers are skipped.
pub open spec fn data_step(m: AsmModel, parts: Seq<Seq<char>>, word: bool, k: int) -> AsmModel
    decreases k,
{
    if k <= 1 || k > parts.len() {
        m
    } else {
        let prev = data_step(m, parts, word, k - 1);
        match number_of(trim_char(parts[k - 1], ',')) {
            Some(v) => emit_data(
                prev,
                if word {
                    word_bytes(v)
                } else {
                    seq![v as u8]
                },
            ),
            None => prev,
        }
    }
}

/// `.ascii "text"` / `.asciz "text"`: the UTF-8 bytes between the first and the last quote,
/// and a zero byte for `.asciz`.
pub open spec fn ascii_step(m: AsmModel, d: Seq<char>, zero: bool) -> AsmModel {
    match (find(d, '"'), rfind(d, '"')) {
        (Some(st), Some(en)) => if en > st {
            let m1 = emit_data(m, encode_utf8(d.subrange(st + 1, en)));
            if zero {
                emit_data(m1, seq![0u8])
            } else {
                m1
            }
        } else {
            m
        },
        _ => m,
    }
}

/// The effect of a directive (text starting with `.`).
pub open spec fn directive_step(m: AsmModel, d: Seq<char>) -> AsmModel {
    let parts = words(d);
    if parts.len() == 0 {
        m
    } else {
        let k = fold_case(parts[0]);
        if k == ".org"@ {
            org_step(m, parts)
        } else if k == ".byte"@ || k == ".db"@ {
            data_step(m, parts, false, parts.len() as int)
        } else if k == ".word"@ || k == ".dw"@ {
            data_step(m, parts, true, parts.len() as int)
        } else if k == ".ascii"@ || k == ".asciz"@ {
            ascii_step(m, d, k == ".asciz"@)
        } else {
            m
        }
    }
}

// ---------------------------------------------------------------- lines

/// The label defined on a trimmed line (text before the first `:`, trimmed, if not empty)
/// and the text after it.
pub open spec fn split_label(t: Seq<char>) -> (Option<Seq<char>>, Seq<char>) {
    match find(t, ':') {
        Some(cp) => {
            let ls = trim(t.take(cp));
            (if ls.len() > 0 { Some(ls) } else { None }, trim(t.skip(cp + 1)))
        },
        None => (None, t),
    }
}

/// The effect of one source line.
pub open spec fn line_step(m: AsmModel, line: Seq<char>, n: usize) -> AsmModel {
    let t = trim(line);
    if t.len() == 0 || t[0] == ';' || t[0] == '#' {
        m
    } else {
        let (label, ip) = split_label(t);
        let m1 = match label {
            Some(ls) => AsmModel { labels: label_insert(m.labels, ls, m.address), ..m },
            None => m,
        };
        if ip.len() > 0 && ip[0] == '.' {
            directive_step(m1, ip)
        } else if ip.len() == 0 {
            if label is Some {
                AsmModel {
                    lines: m1.lines.push(
                        LineModel { address: m.address, bytes: Seq::empty(), source: t, label },
                    ),
                    ..m1
                }
            } else {
                m1
            }
        } else {
            let (m2, bytes) = instruction_step(m1, ip, n);
            emit_data(
                AsmModel {
                    lines: m2.lines.push(
                        LineModel { address: m.address, bytes, source: t, label },
                    ),
                    ..m2
                },
                bytes,
            )
        }
    }
}

/// The state after the first `k` lines.
pub open spec fn lines_upto(ls: Seq<Seq<char>>, k: int) -> AsmModel
    decreases k,
{
    if k <= 0 {
        initial_model()
    } else {
        line_step(lines_upto(ls, k - 1), ls[k - 1], (k - 1) as usize)
    }
}

// ---------------------------------------------------------------- forward references

/// Patch one forward reference with the final symbol table.
pub open spec fn resolve_one(m: AsmModel, r: RefModel) -> AsmModel {
    match label_get(m.labels, r.label) {
        Some(t) => if r.absolute {
            if r.address + 2 < m.output.len() {
                let w = word_bytes(t);
                AsmModel {
                    output: m.output.update(r.address as int, w[0]).update(
                        r.address + 1,
                        w[1],
                    ).update(r.address + 2, w[2]),
                    ..m
                }
            } else {
                m
            }
        } else if r.address + 1 > u32::MAX {
            AsmModel { ok: false, ..m }
        } else {
            let d = as_i32(t) - as_i32((r.address + 1) as u32);
            if d < i32::MIN || d > i32::MAX {
                AsmModel { ok: false, ..m }
            } else if -128 <= d <= 127 {
                if r.address < m.output.len() {
                    AsmModel { output: m.output.update(r.address as int, offset_byte(d)), ..m }
                } else {
                    m
                }
            } else {
                AsmModel {
                    errors: m.errors.push(
                        at_line(r.line_num) + "Branch target '"@ + r.label + "' too far"@,
                    ),
                    ..m
                }
            }
        },
        None => AsmModel {
            errors: m.errors.push(at_line(r.line_num) + "Undefined label '"@ + r.label + "'"@),
            ..m
        },
    }
}

/// The state after patching the first `k` forward references.
pub open spec fn resolve_upto(m: AsmModel, k: int) -> AsmModel
    decreases k,
{
    if k <= 0 || k > m.refs.len() {
        m
    } else {
        let prev = resolve_upto(m, k - 1);
        if prev.ok {
            resolve_one(prev, m.refs[k - 1])
        } else {
            prev
        }
    }
}

/// The final state of assembling `source`.
pub open spec fn assembly(source: Seq<char>) -> AsmModel {
    let ls = lines(source);
    let m = lines_upto(ls, ls.len() as int);
    if m.ok {
        resolve_upto(m, m.refs.len() as int)
    } else {
        m
    }
}

/// Assembling `source` keeps every address computation within range.
pub open spec fn assembly_fits(source: Seq<char>) -> bool {
    assembly(source).ok
}

// ---------------------------------------------------------------- properties

/// `label_index_from` stops at the first entry with the key, and only there.
pub proof fn lemma_label_index(ls: Seq<(Seq<char>, u32)>, k: Seq<char>, j: int)
    requires
        0 <= j <= ls.len(),
    ensures
        j <= label_index_from(ls, k, j) <= ls.len(),
        label_index_from(ls, k, j) < ls.len() ==> ls[label_index_from(ls, k, j)].0 == k,
        forall|t: int| j <= t < label_index_from(ls, k, j) ==> #[trigger] ls[t].0 != k,
    decreases ls.len() - j,
{
    if j < ls.len() && ls[j].0 != k {
        lemma_label_index(ls, k, j + 1);
    }
}

/// After binding `k` to `v`, looking up `k` gives `v` and every other key is unaffected.
pub proof fn lemma_label_insert_get(ls: Seq<(Seq<char>, u32)>, k: Seq<char>, v: u32, k2: Seq<char>)
    ensures
        label_get(label_insert(ls, k, v), k) == Some(v),
        k2 != k ==> label_get(label_insert(ls, k, v), k2) == label_get(ls, k2),
{
    let ins = label_insert(ls, k, v);
    lemma_label_index(ls, k, 0);
    lemma_label_index(ls, k2, 0);
    lemma_label_index(ins, k, 0);
    lemma_label_index(ins, k2, 0);
    let i = label_index_from(ls, k, 0);
    let i2 = label_index_from(ls, k2, 0);
    let j = label_index_from(ins, k, 0);
    let j2 = label_index_from(ins, k2, 0);
    if i < ls.len() {
        assert(ins[i].0 == k);
        assert(j == i);
    } else {
        assert(ins[ls.len() as int].0 == k);
        assert(j == ls.len());
    }
    if k2 != k {
        if i2 < ls.len() {
            assert(ins[i2].0 == k2);
            assert(j2 == i2);
        } else {
            assert(j2 == ins.len() || ins[j2].0 == k2);
            assert(j2 >= ls.len());
        }
    }
}

/// Binding a label keeps the keys of the symbol table distinct.
pub proof fn lemma_label_insert_unique(ls: Seq<(Seq<char>, u32)>, k: Seq<char>, v: u32)
    requires
        keys_unique(ls),
    ensures
        keys_unique(label_insert(ls, k, v)),
{
    lemma_label_index(ls, k, 0);
}

/// `r` differs from `m` at most in its errors, forward references and overflow flag, and
/// keeps an overflow of `m`.
pub open spec fn instruction_frame(m: AsmModel, r: AsmModel) -> bool {
    &&& r.labels == m.labels
    &&& r.address == m.address
    &&& r.output == m.output
    &&& r.lines == m.lines
    &&& !m.ok ==> !r.ok
}

/// The frame of the stack, move and arithmetic encoders.
proof fn lemma_enc_frame_basic(m: AsmModel, ops: Seq<Seq<char>>, n: usize)
    ensures
        instruction_frame(m, enc_push(m, ops, n).0),
        instruction_frame(m, enc_pop(m, ops, n).0),
        instruction_frame(m, enc_mov(m, ops, n).0),
        instruction_frame(m, enc_add(m, ops, n).0),
        instruction_frame(m, enc_sub(m, ops, n).0),
        instruction_frame(m, enc_mul(m, ops, n).0),
{
}

/// The frame of the control-flow and load encoders.
proof fn lemma_enc_frame_control(m: AsmModel, ops: Seq<Seq<char>>, n: usize, op: Opcode, mn: Seq<char>, u: bool)
    ensures
        instruction_frame(m, enc_alu(m, ops, op, mn, n).0),
        instruction_frame(m, enc_branch(m, ops, op, n).0),
        instruction_frame(m, enc_jmp(m, ops, n).0),
        instruction_frame(m, enc_jal(m, ops, n).0),
        instruction_frame(m, enc_la(m, ops, n).0),
        instruction_frame(m, enc_lc(m, ops, u, n).0),
        instruction_frame(m, enc_load_store(m, ops, op, mn, n).0),
{
}

/// An instruction changes only the errors, the forward references and the overflow flag,
/// and never clears the overflow flag.
#[verifier::rlimit(50)]
#[verifier::spinoff_prover]
pub proof fn lemma_dispatch_frame(m: AsmModel, mnem: Seq<char>, ops: Seq<Seq<char>>, n: usize)
    ensures
        instruction_frame(m, dispatch(m, mnem, ops, n).0),
{
    lemma_enc_frame_basic(m, ops, n);
    assert forall|op: Opcode, mn: Seq<char>, u: bool| {
        &&& instruction_frame(m, #[trigger] enc_alu(m, ops, op, mn, n).0)
        &&& instruction_frame(m, #[trigger] enc_branch(m, ops, op, n).0)
        &&& instruction_frame(m, #[trigger] enc_load_store(m, ops, op, mn, n).0)
        &&& instruction_frame(m, #[trigger] enc_lc(m, ops, u, n).0)
    } by {
        lemma_enc_frame_control(m, ops, n, op, mn, u);
    }
    lemma_enc_frame_control(m, ops, n, Opcode::Bra, mnem, true);
}

/// `.byte`/`.word` data changes neither the symbol table nor the listing, and never clears
/// the overflow flag.
pub proof fn lemma_data_step_frame(m: AsmModel, parts: Seq<Seq<char>>, word: bool, j: int, k: int)
    requires
        j <= k <= parts.len(),
    ensures
        data_step(m, parts, word, k).labels == m.labels,
        data_step(m, parts, word, k).lines == m.lines,
        !data_step(m, parts, word, j).ok ==> !data_step(m, parts, word, k).ok,
    decreases k,
{
    if k > 1 {
        let jj = if j < k {
            j
        } else {
            k - 1
        };
        lemma_data_step_frame(m, parts, word, jj, k - 1);
    }
}

/// A directive changes neither the symbol table nor the listing, and never clears the
/// overflow flag.
pub proof fn lemma_directive_frame(m: AsmModel, d: Seq<char>)
    ensures
        directive_step(m, d).labels == m.labels,
        directive_step(m, d).lines == m.lines,
        !m.ok ==> !directive_step(m, d).ok,
{
    let parts = words(d);
    lemma_data_step_frame(m, parts, false, 0, parts.len() as int);
    lemma_data_step_frame(m, parts, true, 0, parts.len() as int);
}

/// A line keeps the keys of the symbol table distinct and never clears the overflow flag.
pub proof fn lemma_line_step_frame(m: AsmModel, line: Seq<char>, n: usize)
    ensures
        keys_unique(m.labels) ==> keys_unique(line_step(m, line, n).labels),
        !m.ok ==> !line_step(m, line, n).ok,
{
    let t = trim(line);
    let (label, ip) = split_label(t);
    if let Some(ls) = label {
        if keys_unique(m.labels) {
            lemma_label_insert_unique(m.labels, ls, m.address);
        }
    }
    let m1 = match label {
        Some(ls) => AsmModel { labels: label_insert(m.labels, ls, m.address), ..m },
        None => m,
    };
    lemma_directive_frame(m1, ip);
    let parts = words(strip_comment(ip));
    if parts.len() > 0 {
        lemma_dispatch_frame(m1, fold_case(parts[0]), operands_of(parts), n);
    }
}

/// Over any prefix of the lines the symbol table has distinct keys, and an overflow is never
/// forgotten.
pub proof fn lemma_lines_upto_frame(ls: Seq<Seq<char>>, j: int, k: int)
    requires
        j <= k,
    ensures
        keys_unique(lines_upto(ls, k).labels),
        !lines_upto(ls, j).ok ==> !lines_upto(ls, k).ok,
    decreases k,
{
    if k > 0 {
        let jj = if j < k {
            j
        } else {
            k - 1
        };
        lemma_lines_upto_frame(ls, jj, k - 1);
        lemma_line_step_frame(lines_upto(ls, k - 1), ls[k - 1], (k - 1) as usize);
    }
}

/// Patching forward references keeps the symbol table and the references, and an overflow
/// is never forgotten.
pub proof fn lemma_resolve_frame(m: AsmModel, j: int, k: int)
    requires
        j <= k <= m.refs.len(),
    ensures
        resolve_upto(m, k).labels == m.labels,
        resolve_upto(m, k).refs == m.refs,
        !resolve_upto(m, j).ok ==> !resolve_upto(m, k).ok,
    decreases k,
{
    if k > 0 {
        let jj = if j < k {
            j
        } else {
            k - 1
        };
        lemma_resolve_frame(m, jj, k - 1);
    }
}

/// The symbol table of an assembly run binds each label once.
pub proof fn lemma_assembly_labels_unique(source: Seq<char>)
    ensures
        keys_unique(assembly(source).labels),
{
    let ls = lines(source);
    lemma_lines_upto_frame(ls, ls.len() as int, ls.len() as int);
    let m = lines_upto(ls, ls.len() as int);
    lemma_resolve_frame(m, m.refs.len() as int, m.refs.len() as int);
}

/// The offset byte a branch gets from the assembler, executed by the CPU from the address
/// after the branch, lands on the target: for 24-bit addresses less than 128 bytes back or
/// 127 bytes ahead.
pub proof fn lemma_branch_offset_reaches(next_pc: u32, target: u32)
    requires
        next_pc < 0x1000000,
        target < 0x1000000,
        -128 <= target - next_pc <= 127,
    ensures
        wrap24(next_pc + sext8(offset_byte(target - next_pc))) == target,
{
    let d = target - next_pc;
    let b = offset_byte(d);
    if d < 0 {
        assert(b as int == d + 256);
        assert(sext8(b) == 0xFFFF00 + b);
        assert(next_pc + sext8(b) == target + 0x1000000);
    } else {
        assert(b as int == d);
        assert(sext8(b) == b as u32);
    }
}

/// With 24-bit addresses, the `i32` reading of an address is the address itself, so the
/// branch offset the assembler computes is the plain difference.
pub proof fn lemma_offset_is_difference(a: u32, b: u32)
    requires
        a < 0x1000000,
        b < 0x1000000,
    ensures
        as_i32(a) - as_i32(b) == a - b,
{
}

/// The three bytes of `word_bytes(v)` read back little-endian are the low 24 bits of `v`.
pub proof fn lemma_word_bytes_value(v: u32)
    ensures
        word_bytes(v).len() == 3,
        word_bytes(v)[0] + 256 * word_bytes(v)[1] + 65536 * word_bytes(v)[2] == v % 0x1000000,
{
    assert((v & 0xFF) + 256 * ((v >> 8) & 0xFF) + 65536 * ((v >> 16) & 0xFF) == v % 0x1000000) by (bit_vector);
    assert(v & 0xFF < 256 && (v >> 8) & 0xFF < 256 && (v >> 16) & 0xFF < 256) by (bit_vector);
}

/// Patching a forward `la` reference to a defined label writes the label's address in the
/// three bytes at the reference, little-endian (low byte first), and leaves every other byte
/// and the length of the output alone.
pub proof fn lemma_resolve_absolute(m: AsmModel, r: RefModel)
    requires
        r.absolute,
        label_get(m.labels, r.label) is Some,
        r.address + 2 < m.output.len(),
    ensures
        ({
            let t = label_get(m.labels, r.label).unwrap();
            let out = resolve_one(m, r).output;
            &&& out.len() == m.output.len()
            &&& out[r.address as int] + 256 * out[r.address + 1] + 65536 * out[r.address + 2] == t % 0x1000000
            &&& forall|k: int| 0 <= k < out.len() && (k < r.address || k > r.address + 2) ==> #[trigger] out[k]
                == m.output[k]
            &&& resolve_one(m, r).errors == m.errors
        }),
{
    lemma_word_bytes_value(label_get(m.labels, r.label).unwrap());
}

/// Patching a forward branch reference to a defined label within reach writes the offset
/// from the byte after the offset byte to the label, as a two's complement byte.
pub proof fn lemma_resolve_branch(m: AsmModel, r: RefModel)
    requires
        !r.absolute,
        label_get(m.labels, r.label) is Some,
        r.address < m.output.len(),
        r.address + 1 <= u32::MAX,
        label_get(m.labels, r.label).unwrap() < 0x8000_0000,
        r.address + 1 < 0x8000_0000,
        -128 <= label_get(m.labels, r.label).unwrap() - (r.address + 1) <= 127,
    ensures
        ({
            let d = label_get(m.labels, r.label).unwrap() - (r.address + 1);
            let out = resolve_one(m, r).output;
            &&& out.len() == m.output.len()
            &&& (out[r.address as int] as int) == (if d < 0 { d + 256 } else { d })
            &&& forall|k: int| 0 <= k < out.len() && k != r.address ==> #[trigger] out[k] == m.output[k]
        }),
{
}

/// `push ra`: the byte decodes to `push` of the named register.
pub proof fn lemma_encodes_push(m: AsmModel, ops: Seq<Seq<char>>, op: Opcode, mn: Seq<char>, n: usize)
    requires
        enc_push(m, ops, n).1.len() > 0,
    ensures
        ({
            let r = enc_push(m, ops, n);
            rom_spec(r.1[0]) != INVALID_ENTRY && decoded_spec(rom_spec(r.1[0])) == inst(Opcode::Push, register_operand(ops[0]).unwrap(), 4)
        }),
{
    lemma_encodings_decode();
}

/// `pop ra`: the byte decodes to `pop` of the named register.
pub proof fn lemma_encodes_pop(m: AsmModel, ops: Seq<Seq<char>>, op: Opcode, mn: Seq<char>, n: usize)
    requires
        enc_pop(m, ops, n).1.len() > 0,
    ensures
        ({
            let r = enc_pop(m, ops, n);
            rom_spec(r.1[0]) != INVALID_ENTRY && decoded_spec(rom_spec(r.1[0])) == inst(Opcode::Pop, register_operand(ops[0]).unwrap(), 4)
        }),
{
    lemma_encodings_decode();
}

/// `mov ra,rb`: the byte decodes to `mov` of the two named registers, in order.
pub proof fn lemma_encodes_mov(m: AsmModel, ops: Seq<Seq<char>>, op: Opcode, mn: Seq<char>, n: usize)
    requires
        enc_mov(m, ops, n).1.len() > 0,
    ensures
        ({
            let r = enc_mov(m, ops, n);
            rom_spec(r.1[0]) != INVALID_ENTRY && decoded_spec(rom_spec(r.1[0])) == inst(Opcode::Mov, register_operand(ops[0]).unwrap(), register_operand(ops[1]).unwrap())
        }),
{
    lemma_encodings_decode();
}

/// `mul ra,rb`: the byte decodes to `mul` of the two named registers, in order.
pub proof fn lemma_encodes_mul(m: AsmModel, ops: Seq<Seq<char>>, op: Opcode, mn: Seq<char>, n: usize)
    requires
        enc_mul(m, ops, n).1.len() > 0,
    ensures
        ({
            let r = enc_mul(m, ops, n);
            rom_spec(r.1[0]) != INVALID_ENTRY && decoded_spec(rom_spec(r.1[0])) == inst(Opcode::Mul, register_operand(ops[0]).unwrap(), register_operand(ops[1]).unwrap())
        }),
{
    lemma_encodings_decode();
}

/// A two-register instruction `op ra,rb`: the byte decodes to `op` of the two named registers, in order.
pub proof fn lemma_encodes_alu(m: AsmModel, ops: Seq<Seq<char>>, op: Opcode, mn: Seq<char>, n: usize)
    requires
        enc_alu(m, ops, op, mn, n).1.len() > 0,
    ensures
        ({
            let r = enc_alu(m, ops, op, mn, n);
            rom_spec(r.1[0]) != INVALID_ENTRY && decoded_spec(rom_spec(r.1[0])) == inst(op, register_operand(ops[0]).unwrap(), register_operand(ops[1]).unwrap())
        }),
{
    lemma_encodings_decode();
}

/// `jmp (ra)`: the byte decodes to `jmp` of the register in parentheses.
pub proof fn lemma_encodes_jmp(m: AsmModel, ops: Seq<Seq<char>>, op: Opcode, mn: Seq<char>, n: usize)
    requires
        enc_jmp(m, ops, n).1.len() > 0,
    ensures
        ({
            let r = enc_jmp(m, ops, n);
            rom_spec(r.1[0]) != INVALID_ENTRY && decoded_spec(rom_spec(r.1[0])) == inst(Opcode::Jmp, register_operand(parenthesized(trim(ops[0])).unwrap()).unwrap(), 0)
        }),
{
    lemma_encodings_decode();
}

/// `jal ra,(rb)`: the byte decodes to `jal` of the link register and the register in parentheses.
pub proof fn lemma_encodes_jal(m: AsmModel, ops: Seq<Seq<char>>, op: Opcode, mn: Seq<char>, n: usize)
    requires
        enc_jal(m, ops, n).1.len() > 0,
    ensures
        ({
            let r = enc_jal(m, ops, n);
            rom_spec(r.1[0]) != INVALID_ENTRY && decoded_spec(rom_spec(r.1[0])) == inst(Opcode::Jal, register_operand(ops[0]).unwrap(), register_operand(parenthesized(trim(ops[1])).unwrap()).unwrap())
        }),
{
    lemma_encodings_decode();
}

/// `add ra,rb` / `add ra,imm`: the byte decodes to `add` of the named register and, for a
/// register second operand, that register; the immediate form carries the low byte of the
/// number.
pub proof fn lemma_encodes_add(m: AsmModel, ops: Seq<Seq<char>>, n: usize)
    requires
        enc_add(m, ops, n).1.len() > 0,
    ensures
        ({
            let r = enc_add(m, ops, n);
            &&& rom_spec(r.1[0]) != INVALID_ENTRY
            &&& number_of(ops[1]) matches Some(imm) ==> decoded_spec(rom_spec(r.1[0])) == inst(
                Opcode::AddImm,
                register_operand(ops[0]).unwrap(),
                0,
            ) && r.1 == seq![r.1[0], imm as u8]
            &&& number_of(ops[1]) is None ==> decoded_spec(rom_spec(r.1[0])) == inst(
                Opcode::AddReg,
                register_operand(ops[0]).unwrap(),
                register_operand(ops[1]).unwrap(),
            ) && r.1.len() == 1
        }),
{
    lemma_encodings_decode();
}

/// `lc ra,dd` / `lcu ra,dd`: the first byte decodes to `lc` (or `lcu`) of the named register
/// and the second is the low byte of the number.
pub proof fn lemma_encodes_lc(m: AsmModel, ops: Seq<Seq<char>>, unsigned: bool, n: usize)
    requires
        enc_lc(m, ops, unsigned, n).1.len() > 0,
    ensures
        ({
            let r = enc_lc(m, ops, unsigned, n);
            &&& rom_spec(r.1[0]) != INVALID_ENTRY
            &&& decoded_spec(rom_spec(r.1[0])) == inst(
                if unsigned { Opcode::Lcu } else { Opcode::Lc },
                register_operand(ops[0]).unwrap(),
                0,
            )
            &&& r.1 == seq![r.1[0], number_of(ops[1]).unwrap() as u8]
        }),
{
    lemma_encodings_decode();
}

/// A load or store `op ra,off(rb)`: the first byte decodes to `op` of the named register and
/// base register, the second is the low byte of the offset.
pub proof fn lemma_encodes_load_store(m: AsmModel, ops: Seq<Seq<char>>, op: Opcode, mn: Seq<char>, n: usize)
    requires
        enc_load_store(m, ops, op, mn, n).1.len() > 0,
    ensures
        ({
            let r = enc_load_store(m, ops, op, mn, n);
            let mo = mem_operand(trim(ops[1])).unwrap();
            &&& rom_spec(r.1[0]) != INVALID_ENTRY
            &&& decoded_spec(rom_spec(r.1[0])) == inst(op, register_operand(ops[0]).unwrap(), mo.1.unwrap())
            &&& r.1 == seq![r.1[0], mo.0.unwrap() as u8]
        }),
{
    lemma_encodings_decode();
}

/// `la ra,target`: the first byte decodes to `la` of the named register, followed by the
/// target (a number or a known label) as a little-endian 24-bit word, or by three zero bytes
/// waiting for a forward reference.
pub proof fn lemma_encodes_la(m: AsmModel, ops: Seq<Seq<char>>, n: usize)
    requires
        enc_la(m, ops, n).1.len() > 0,
    ensures
        ({
            let r = enc_la(m, ops, n);
            &&& rom_spec(r.1[0]) != INVALID_ENTRY
            &&& decoded_spec(rom_spec(r.1[0])) == inst(Opcode::La, register_operand(ops[0]).unwrap(), 0)
            &&& r.1.len() == 4
            &&& number_of(trim(ops[1])) matches Some(a) ==> r.1[1] + 256 * r.1[2] + 65536 * r.1[3] == a % 0x1000000
            &&& (number_of(trim(ops[1])) is None && label_get(m.labels, trim(ops[1])) is Some) ==> r.1[1]
                + 256 * r.1[2] + 65536 * r.1[3] == label_get(m.labels, trim(ops[1])).unwrap() % 0x1000000
        }),
{
    lemma_encodings_decode();
    let target = trim(ops[1]);
    match number_of(target) {
        Some(a) => lemma_word_bytes_value(a),
        None => match label_get(m.labels, target) {
            Some(a) => lemma_word_bytes_value(a),
            None => {},
        },
    }
}

/// A branch `op target`: the first byte decodes to the branch; to a known label the offset
/// byte, read as a two's complement number, is the distance from the address after the
/// branch to the label.
pub proof fn lemma_encodes_branch(m: AsmModel, ops: Seq<Seq<char>>, op: Opcode, n: usize)
    requires
        op == Opcode::Bra || op == Opcode::Brf || op == Opcode::Brt,
        enc_branch(m, ops, op, n).1.len() > 0,
    ensures
        ({
            let r = enc_branch(m, ops, op, n);
            &&& rom_spec(r.1[0]) != INVALID_ENTRY
            &&& decoded_spec(rom_spec(r.1[0])) == inst(op, 0, 0)
            &&& r.1.len() == 2
            &&& (label_get(m.labels, trim(ops[0])) is Some && label_get(m.labels, trim(ops[0])).unwrap()
                < 0x8000_0000 && m.address + 2 < 0x8000_0000) ==> (if r.1[1] >= 128 { r.1[1] - 256 } else {
                r.1[1] as int }) == label_get(m.labels, trim(ops[0])).unwrap() - (m.address + 2)
        }),
{
    lemma_encodings_decode();
    lemma_branches_encode();
}

/// The letters of the mnemonics the assembler knows.
proof fn lemma_mnemonic_letters()
    ensures
        "push"@.len() == 4,
        "push"@[0] == 'p',
        "push"@[1] == 'u',
        "push"@[2] == 's',
        "push"@[3] == 'h',
        "pop"@.len() == 3,
        "pop"@[0] == 'p',
        "pop"@[1] == 'o',
        "pop"@[2] == 'p',
        "mov"@.len() == 3,
        "mov"@[0] == 'm',
        "mov"@[1] == 'o',
        "mov"@[2] == 'v',
        "add"@.len() == 3,
        "add"@[0] == 'a',
        "add"@[1] == 'd',
        "add"@[2] == 'd',
        "sub"@.len() == 3,
        "sub"@[0] == 's',
        "sub"@[1] == 'u',
        "sub"@[2] == 'b',
        "mul"@.len() == 3,
        "mul"@[0] == 'm',
        "mul"@[1] == 'u',
        "mul"@[2] == 'l',
        "and"@.len() == 3,
        "and"@[0] == 'a',
        "and"@[1] == 'n',
        "and"@[2] == 'd',
        "or"@.len() == 2,
        "or"@[0] == 'o',
        "or"@[1] == 'r',
        "xor"@.len() == 3,
        "xor"@[0] == 'x',
        "xor"@[1] == 'o',
        "xor"@[2] == 'r',
        "shl"@.len() == 3,
        "shl"@[0] == 's',
        "shl"@[1] == 'h',
        "shl"@[2] == 'l',
        "sra"@.len() == 3,
        "sra"@[0] == 's',
        "sra"@[1] == 'r',
        "sra"@[2] == 'a',
        "srl"@.len() == 3,
        "srl"@[0] == 's',
        "srl"@[1] == 'r',
        "srl"@[2] == 'l',
        "ceq"@.len() == 3,
        "ceq"@[0] == 'c',
        "ceq"@[1] == 'e',
        "ceq"@[2] == 'q',
        "cls"@.len() == 3,
        "cls"@[0] == 'c',
        "cls"@[1] == 'l',
        "cls"@[2] == 's',
        "clu"@.len() == 3,
        "clu"@[0] == 'c',
        "clu"@[1] == 'l',
        "clu"@[2] == 'u',
        "bra"@.len() == 3,
        "bra"@[0] == 'b',
        "bra"@[1] == 'r',
        "bra"@[2] == 'a',
        "brf"@.len() == 3,
        "brf"@[0] == 'b',
        "brf"@[1] == 'r',
        "brf"@[2] == 'f',
        "brt"@.len() == 3,
        "brt"@[0] == 'b',
        "brt"@[1] == 'r',
        "brt"@[2] == 't',
        "jmp"@.len() == 3,
        "jmp"@[0] == 'j',
        "jmp"@[1] == 'm',
        "jmp"@[2] == 'p',
        "jal"@.len() == 3,
        "jal"@[0] == 'j',
        "jal"@[1] == 'a',
        "jal"@[2] == 'l',
        "la"@.len() == 2,
        "la"@[0] == 'l',
        "la"@[1] == 'a',
        "lc"@.len() == 2,
        "lc"@[0] == 'l',
        "lc"@[1] == 'c',
        "lcu"@.len() == 3,
        "lcu"@[0] == 'l',
        "lcu"@[1] == 'c',
        "lcu"@[2] == 'u',
        "lb"@.len() == 2,
        "lb"@[0] == 'l',
        "lb"@[1] == 'b',
        "lbu"@.len() == 3,
        "lbu"@[0] == 'l',
        "lbu"@[1] == 'b',
        "lbu"@[2] == 'u',
        "lw"@.len() == 2,
        "lw"@[0] == 'l',
        "lw"@[1] == 'w',
        "sb"@.len() == 2,
        "sb"@[0] == 's',
        "sb"@[1] == 'b',
        "sw"@.len() == 2,
        "sw"@[0] == 's',
        "sw"@[1] == 'w',
        "sxt"@.len() == 3,
        "sxt"@[0] == 's',
        "sxt"@[1] == 'x',
        "sxt"@[2] == 't',
        "zxt"@.len() == 3,
        "zxt"@[0] == 'z',
        "zxt"@[1] == 'x',
        "zxt"@[2] == 't',
        "halt"@.len() == 4,
        "halt"@[0] == 'h',
        "halt"@[1] == 'a',
        "halt"@[2] == 'l',
        "halt"@[3] == 't',
        "nop"@.len() == 3,
        "nop"@[0] == 'n',
        "nop"@[1] == 'o',
        "nop"@[2] == 'p',
        "sp"@.len() == 2,
        "sp"@[0] == 's',
        "sp"@[1] == 'p',
{
    reveal_strlit("push");
    reveal_strlit("pop");
    reveal_strlit("mov");
    reveal_strlit("add");
    reveal_strlit("sub");
    reveal_strlit("mul");
    reveal_strlit("and");
    reveal_strlit("or");
    reveal_strlit("xor");
    reveal_strlit("shl");
    reveal_strlit("sra");
    reveal_strlit("srl");
    reveal_strlit("ceq");
    reveal_strlit("cls");
    reveal_strlit("clu");
    reveal_strlit("bra");
    reveal_strlit("brf");
    reveal_strlit("brt");
    reveal_strlit("jmp");
    reveal_strlit("jal");
    reveal_strlit("la");
    reveal_strlit("lc");
    reveal_strlit("lcu");
    reveal_strlit("lb");
    reveal_strlit("lbu");
    reveal_strlit("lw");
    reveal_strlit("sb");
    reveal_strlit("sw");
    reveal_strlit("sxt");
    reveal_strlit("zxt");
    reveal_strlit("halt");
    reveal_strlit("nop");
    reveal_strlit("sp");
}

/// Each instruction line the assembler encodes (other than `halt` and `nop`) starts with a
/// byte that the decode ROM decodes to an instruction of the line's mnemonic.
#[verifier::rlimit(100)]
#[verifier::spinoff_prover]
pub proof fn lemma_dispatch_names_opcode(m: AsmModel, mnem: Seq<char>, ops: Seq<Seq<char>>, n: usize)
    requires
        dispatch(m, mnem, ops, n).1.len() > 0,
        mnem != "halt"@,
        mnem != "nop"@,
    ensures
        rom_spec(dispatch(m, mnem, ops, n).1[0]) != INVALID_ENTRY,
        mnemonic_text(decoded_spec(rom_spec(dispatch(m, mnem, ops, n).1[0])).opcode) == mnem,
{
    lemma_mnemonic_letters();
    if mnem == "push"@ {
        lemma_encodes_push(m, ops, Opcode::Push, mnem, n);
    } else if mnem == "pop"@ {
        lemma_encodes_pop(m, ops, Opcode::Pop, mnem, n);
    } else if mnem == "mov"@ {
        lemma_encodes_mov(m, ops, Opcode::Mov, mnem, n);
    } else if mnem == "add"@ {
        lemma_encodes_add(m, ops, n);
    } else if mnem == "sub"@ {
        lemma_encodings_decode();
    } else if mnem == "mul"@ {
        lemma_encodes_mul(m, ops, Opcode::Mul, mnem, n);
    } else if mnem == "and"@ {
        lemma_encodes_alu(m, ops, Opcode::And, "and"@, n);
    } else if mnem == "or"@ {
        lemma_encodes_alu(m, ops, Opcode::Or, "or"@, n);
    } else if mnem == "xor"@ {
        lemma_encodes_alu(m, ops, Opcode::Xor, "xor"@, n);
    } else if mnem == "shl"@ {
        lemma_encodes_alu(m, ops, Opcode::Shl, "shl"@, n);
    } else if mnem == "sra"@ {
        lemma_encodes_alu(m, ops, Opcode::Sra, "sra"@, n);
    } else if mnem == "srl"@ {
        lemma_encodes_alu(m, ops, Opcode::Srl, "srl"@, n);
    } else if mnem == "ceq"@ {
        lemma_encodes_alu(m, ops, Opcode::Ceq, "ceq"@, n);
    } else if mnem == "cls"@ {
        lemma_encodes_alu(m, ops, Opcode::Cls, "cls"@, n);
    } else if mnem == "clu"@ {
        lemma_encodes_alu(m, ops, Opcode::Clu, "clu"@, n);
    } else if mnem == "sxt"@ {
        lemma_encodes_alu(m, ops, Opcode::Sxt, "sxt"@, n);
    } else if mnem == "zxt"@ {
        lemma_encodes_alu(m, ops, Opcode::Zxt, "zxt"@, n);
    } else if mnem == "bra"@ {
        lemma_encodes_branch(m, ops, Opcode::Bra, n);
    } else if mnem == "brf"@ {
        lemma_encodes_branch(m, ops, Opcode::Brf, n);
    } else if mnem == "brt"@ {
        lemma_encodes_branch(m, ops, Opcode::Brt, n);
    } else if mnem == "jmp"@ {
        lemma_encodes_jmp(m, ops, Opcode::Jmp, mnem, n);
    } else if mnem == "jal"@ {
        lemma_encodes_jal(m, ops, Opcode::Jal, mnem, n);
    } else if mnem == "la"@ {
        lemma_encodes_la(m, ops, n);
    } else if mnem == "lc"@ {
        lemma_encodes_lc(m, ops, false, n);
    } else if mnem == "lcu"@ {
        lemma_encodes_lc(m, ops, true, n);
    } else if mnem == "lb"@ {
        lemma_encodes_load_store(m, ops, Opcode::Lb, "lb"@, n);
    } else if mnem == "lbu"@ {
        lemma_encodes_load_store(m, ops, Opcode::Lbu, "lbu"@, n);
    } else if mnem == "lw"@ {
        lemma_encodes_load_store(m, ops, Opcode::Lw, "lw"@, n);
    } else if mnem == "sb"@ {
        lemma_encodes_load_store(m, ops, Opcode::Sb, "sb"@, n);
    } else if mnem == "sw"@ {
        lemma_encodes_load_store(m, ops, Opcode::Sw, "sw"@, n);
    }
}

/// The letters of the register names.
proof fn lemma_register_letters()
    ensures
        "r0"@.len() == 2,
        "r0"@[0] == 'r',
        "r0"@[1] == '0',
        "r1"@.len() == 2,
        "r1"@[0] == 'r',
        "r1"@[1] == '1',
        "r2"@.len() == 2,
        "r2"@[0] == 'r',
        "r2"@[1] == '2',
        "r3"@.len() == 2,
        "r3"@[0] == 'r',
        "r3"@[1] == '3',
        "r4"@.len() == 2,
        "r4"@[0] == 'r',
        "r4"@[1] == '4',
        "r5"@.len() == 2,
        "r5"@[0] == 'r',
        "r5"@[1] == '5',
        "r6"@.len() == 2,
        "r6"@[0] == 'r',
        "r6"@[1] == '6',
        "r7"@.len() == 2,
        "r7"@[0] == 'r',
        "r7"@[1] == '7',
        "fp"@.len() == 2,
        "fp"@[0] == 'f',
        "fp"@[1] == 'p',
        "sp"@.len() == 2,
        "sp"@[0] == 's',
        "sp"@[1] == 'p',
        "z"@.len() == 1,
        "z"@[0] == 'z',
        "c"@.len() == 1,
        "c"@[0] == 'c',
        "iv"@.len() == 2,
        "iv"@[0] == 'i',
        "iv"@[1] == 'v',
        "ir"@.len() == 2,
        "ir"@[0] == 'i',
        "ir"@[1] == 'r',
{
    reveal_strlit("r0");
    reveal_strlit("r1");
    reveal_strlit("r2");
    reveal_strlit("r3");
    reveal_strlit("r4");
    reveal_strlit("r5");
    reveal_strlit("r6");
    reveal_strlit("r7");
    reveal_strlit("fp");
    reveal_strlit("sp");
    reveal_strlit("z");
    reveal_strlit("c");
    reveal_strlit("iv");
    reveal_strlit("ir");
}

/// Register names as the instruction set reference gives them: `r0` to `r7` name registers 0
/// to 7, and the aliases `fp`, `sp`, `z`, `iv`, `ir` name r3 to r7; the name the
/// disassembler prints for a register (`reg_name`) names that register again.
pub proof fn lemma_register_names(r: u8)
    requires
        r < 8,
    ensures
        register_of(seq!['r', ((r + 0x30) as u32) as char]) == Some(r),
        register_of(reg_name_text(r)) == Some(r),
        register_of("fp"@) == Some(3u8),
        register_of("sp"@) == Some(4u8),
        register_of("z"@) == Some(5u8),
        register_of("iv"@) == Some(6u8),
        register_of("ir"@) == Some(7u8),
{
    lemma_register_letters();
    reveal_strlit("r6");
    reveal_strlit("r7");
    let name = seq!['r', ((r + 0x30) as u32) as char];
    if r == 0 { assert(name =~= "r0"@); }
    else if r == 1 { assert(name =~= "r1"@); }
    else if r == 2 { assert(name =~= "r2"@); }
    else if r == 3 { assert(name =~= "r3"@); }
    else if r == 4 { assert(name =~= "r4"@); }
    else if r == 5 { assert(name =~= "r5"@); }
    else if r == 6 { assert(name =~= "r6"@); }
    else { assert(name =~= "r7"@); }
}

/// `.byte` appends the low byte of each number operand; `.word` appends its low 24 bits as
/// three little-endian bytes; the address advances by the number of bytes appended.
pub proof fn lemma_data_item(m: AsmModel, parts: Seq<Seq<char>>, word: bool, k: int)
    requires
        1 < k <= parts.len(),
        number_of(trim_char(parts[k - 1], ',')) is Some,
    ensures
        ({
            let prev = data_step(m, parts, word, k - 1);
            let cur = data_step(m, parts, word, k);
            let v = number_of(trim_char(parts[k - 1], ',')).unwrap();
            let n = prev.output.len() as int;
            &&& word ==> cur.output.len() == n + 3 && cur.output.take(n) == prev.output && cur.output[n]
                + 256 * cur.output[n + 1] + 65536 * cur.output[n + 2] == v % 0x1000000
            &&& !word ==> cur.output == prev.output.push((v % 256) as u8)
            &&& cur.address == (prev.address + (if word { 3int } else { 1int })) as u32
        }),
{
    let prev = data_step(m, parts, word, k - 1);
    let v = number_of(trim_char(parts[k - 1], ',')).unwrap();
    if word {
        lemma_word_bytes_value(v);
        assert((prev.output + word_bytes(v)).take(prev.output.len() as int) =~= prev.output);
    } else {
        assert((v as u8) == (v % 256) as u8) by (bit_vector);
        assert(prev.output + seq![v as u8] =~= prev.output.push((v % 256) as u8));
    }
}

/// `.org a` moves the address to `a`, filling the output with zero bytes up to `a` when it is
/// shorter; the bytes already there are kept.
pub proof fn lemma_org(m: AsmModel, parts: Seq<Seq<char>>)
    requires
        parts.len() > 1,
        number_of(parts[1]) is Some,
    ensures
        ({
            let a = number_of(parts[1]).unwrap();
            let r = org_step(m, parts);
            &&& r.address == a
            &&& r.output.len() == (if m.output.len() < a { a as int } else { m.output.len() as int })
            &&& r.output.take(m.output.len() as int) == m.output
            &&& forall|i: int| m.output.len() <= i < r.output.len() ==> #[trigger] r.output[i] == 0u8
        }),
{
    let a = number_of(parts[1]).unwrap();
    let r = org_step(m, parts);
    assert(r.output.take(m.output.len() as int) =~= m.output);
}

/// A label on a line is bound to the address the line starts at, so it names the code or
/// data that follows it; an instruction's bytes go at that address too, and its listing line
/// records that address.
pub proof fn lemma_label_binds_address(m: AsmModel, line: Seq<char>, n: usize)
    requires
        trim(line).len() > 0,
        trim(line)[0] != ';',
        trim(line)[0] != '#',
        split_label(trim(line)).0 is Some,
    ensures
        label_get(line_step(m, line, n).labels, split_label(trim(line)).0.unwrap()) == Some(m.address),
{
    let t = trim(line);
    let (label, ip) = split_label(t);
    let ls = label.unwrap();
    let m1 = AsmModel { labels: label_insert(m.labels, ls, m.address), ..m };
    lemma_label_insert_get(m.labels, ls, m.address, ls);
    if ip.len() > 0 && ip[0] == '.' {
        lemma_directive_frame(m1, ip);
    } else if ip.len() > 0 {
        let parts = words(strip_comment(ip));
        if parts.len() > 0 {
            lemma_dispatch_frame(m1, fold_case(parts[0]), operands_of(parts), n);
        }
    }
}

/// An instruction line's bytes are appended to the output at the address the line starts
/// at, and its listing line records that address and those bytes.
pub proof fn lemma_instruction_placed(m: AsmModel, line: Seq<char>, n: usize)
    requires
        trim(line).len() > 0,
        trim(line)[0] != ';',
        trim(line)[0] != '#',
        split_label(trim(line)).1.len() > 0,
        split_label(trim(line)).1[0] != '.',
    ensures
        ({
            let t = trim(line);
            let ip = split_label(t).1;
            let r = line_step(m, line, n);
            let bytes = instruction_step(
                match split_label(t).0 {
                    Some(ls) => AsmModel { labels: label_insert(m.labels, ls, m.address), ..m },
                    None => m,
                },
                ip,
                n,
            ).1;
            &&& r.output == m.output + bytes
            &&& r.lines.last().address == m.address
            &&& r.lines.last().bytes == bytes
        }),
{
    let t = trim(line);
    let (label, ip) = split_label(t);
    let m1 = match label {
        Some(ls) => AsmModel { labels: label_insert(m.labels, ls, m.address), ..m },
        None => m,
    };
    let parts = words(strip_comment(ip));
    if parts.len() > 0 {
        lemma_dispatch_frame(m1, fold_case(parts[0]), operands_of(parts), n);
    }
}

/// A number written in decimal reads back as that number.
pub proof fn lemma_number_decimal(n: u32)
    ensures
        number_of(decimal(n as nat)) == Some(n),
{
    reveal(number_of);
    let t = decimal(n as nat);
    lemma_decimal_value(n as nat);
    lemma_decimal_digits(n as nat);
    lemma_trim_no_ws(t);
    reveal_strlit("0x");
    reveal_strlit("0X");
    assert(t[0] != '-' && t[0] != '+');
    if t.len() >= 2 {
        assert(t[1] != 'x' && t[1] != 'X');
        assert(t.subrange(0, 2)[1] == t[1]);
    }
}

/// A number written in hexadecimal after `0x` reads back as that number.
pub proof fn lemma_number_hex(n: u32)
    ensures
        number_of("0x"@ + hex(n as nat)) == Some(n),
{
    reveal(number_of);
    reveal_strlit("0x");
    let h = hex(n as nat);
    let t = "0x"@ + h;
    lemma_hex_value(n as nat);
    lemma_hex_digits(n as nat);
    assert forall|k: int| 0 <= k < t.len() implies !is_ws(#[trigger] t[k]) by {
        if k >= 2 {
            assert(t[k] == h[k - 2]);
        }
    }
    lemma_trim_no_ws(t);
    assert(t.subrange(0, 2) =~= "0x"@);
    assert(t.skip(2) =~= h);
    assert(h[0] != '-' && h[0] != '+');
}

} // verus!
