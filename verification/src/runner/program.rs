//! What the demo runner's assembler computes, stated over character sequences.
//!
//! It works in two passes over the lines: the first gives every label (`name:` alone on a
//! line) the address that a size estimate of the lines before it yields, the second encodes
//! each line with the bytes of the decode ROM and writes the listing. The first error ends the run.

use vstd::prelude::*;
use crate::assembler::model::{label_get, label_insert};
use crate::cpu::decode_rom::{rom_spec, INVALID_ENTRY};
use crate::cpu::encode::{encoding_of, inst, lemma_encodings_decode};
use crate::cpu::instruction::{reg_name_text, decoded_spec, mnemonic_text, DecodedInstruction, Opcode};
use crate::text::{
    decimal, digits_value, find, hex_bytes, hex_upper, join, lines, fold_case, pad_right,
    parse_u32_radix, split, starts_with, trim, trim_end_char, words,
};

verus! {

/// The runner's assembler as plain values.
pub struct ToolModel {
    /// The symbol table, in order of first definition.
    pub labels: Seq<(Seq<char>, u32)>,
    /// The machine code from address 0.
    pub output: Seq<u8>,
    /// The listing lines.
    pub listing: Seq<Seq<char>>,
}

// ---------------------------------------------------------------- numbers

/// An optional sign followed by at least one digit: the number it denotes.
pub open spec fn parse_signed(s: Seq<char>, radix: nat) -> Option<int> {
    if s.len() == 0 || ((s[0] == '+' || s[0] == '-') && s.len() == 1) {
        None
    } else {
        let d = if s[0] == '+' || s[0] == '-' {
            s.drop_first()
        } else {
            s
        };
        match digits_value(d, radix) {
            Some(v) => Some(if s[0] == '-' {
                -v
            } else {
                v as int
            }),
            None => None,
        }
    }
}

/// The message of the error `i32::from_str_radix(s, radix)` reports.
pub uninterp spec fn i32_parse_error(s: Seq<char>, radix: u32) -> Seq<char>;

/// The message of the error `u32::from_str_radix(s, radix)` reports.
pub uninterp spec fn u32_parse_error(s: Seq<char>, radix: u32) -> Seq<char>;

/// The message of the error `i64::from_str_radix(s, radix)` reports.
pub uninterp spec fn i64_parse_error(s: Seq<char>, radix: u32) -> Seq<char>;

/// `i32::from_str_radix(s, radix)`, its error as its message.
pub open spec fn i32_parse(s: Seq<char>, radix: u32) -> Result<i32, Seq<char>> {
    match parse_signed(s, radix as nat) {
        Some(v) => if i32::MIN <= v <= i32::MAX {
            Ok(v as i32)
        } else {
            Err(i32_parse_error(s, radix))
        },
        None => Err(i32_parse_error(s, radix)),
    }
}

/// `u32::from_str_radix(s, radix)`, its error as its message.
pub open spec fn u32_parse(s: Seq<char>, radix: u32) -> Result<u32, Seq<char>> {
    match parse_u32_radix(s, radix as nat) {
        Some(v) => Ok(v),
        None => Err(u32_parse_error(s, radix)),
    }
}

/// `i64::from_str_radix(s, radix)`, its error as its message.
pub open spec fn i64_parse(s: Seq<char>, radix: u32) -> Result<i64, Seq<char>> {
    match parse_signed(s, radix as nat) {
        Some(v) => if i64::MIN <= v <= i64::MAX {
            Ok(v as i64)
        } else {
            Err(i64_parse_error(s, radix))
        },
        None => Err(i64_parse_error(s, radix)),
    }
}

/// The text after a leading `0x`, if there is one.
pub open spec fn after_0x(t: Seq<char>) -> Option<Seq<char>> {
    if starts_with(t, "0x"@) {
        Some(t.skip(2))
    } else {
        None
    }
}

/// An 8-bit immediate: `0x` hexadecimal or signed decimal, read as an `i32`.
pub open spec fn imm8_of(s: Seq<char>) -> Result<i32, Seq<char>> {
    let t = trim(s);
    match after_0x(t) {
        Some(h) => i32_parse(h, 16),
        None => i32_parse(t, 10),
    }
}

/// A 24-bit immediate: `0x` hexadecimal, or a signed decimal reduced to its low 24 bits.
pub open spec fn imm24_of(s: Seq<char>) -> Result<u32, Seq<char>> {
    let t = trim(s);
    match after_0x(t) {
        Some(h) => u32_parse(h, 16),
        None => match i64_parse(t, 10) {
            Ok(v) => Ok((v as u32) & 0xFFFFFF),
            Err(e) => Err(e),
        },
    }
}

/// The register a lowercased name denotes: `r0`..`r7`, `fp`, `sp`, `z`, `iv`, `ir`.
pub open spec fn tool_register(l: Seq<char>) -> Option<u8> {
    if l == "r0"@ {
        Some(0u8)
    } else if l == "r1"@ {
        Some(1u8)
    } else if l == "r2"@ {
        Some(2u8)
    } else if l == "r3"@ || l == "fp"@ {
        Some(3u8)
    } else if l == "r4"@ || l == "sp"@ {
        Some(4u8)
    } else if l == "r5"@ || l == "z"@ {
        Some(5u8)
    } else if l == "r6"@ || l == "iv"@ {
        Some(6u8)
    } else if l == "r7"@ || l == "ir"@ {
        Some(7u8)
    } else {
        None
    }
}

/// A register operand, or the message naming the bad one.
pub open spec fn reg_of(s: Seq<char>) -> Result<u8, Seq<char>> {
    let t = trim(s);
    match tool_register(fold_case(t)) {
        Some(r) => Ok(r),
        None => Err("Bad reg: '"@ + t + "'"@),
    }
}

/// A memory operand `offset(reg)` (no offset means 0).
pub open spec fn mem_of(s: Seq<char>) -> Result<(i32, u8), Seq<char>> {
    match find(s, '(') {
        Some(p) => {
            let off = if p == 0 {
                Ok(0i32)
            } else {
                imm8_of(s.take(p))
            };
            match off {
                Ok(o) => match reg_of(trim_end_char(s.skip(p + 1), ')')) {
                    Ok(r) => Ok((o, r)),
                    Err(e) => Err(e),
                },
                Err(e) => Err(e),
            }
        },
        None => Err("Bad mem: "@ + s),
    }
}

// ---------------------------------------------------------------- encoding

/// What encoding one line did: the bytes appended to the output (also before an error),
/// the error, and whether the computation would have failed (an operand missing, or an
/// offset out of range).
pub struct EmitModel {
    pub bytes: Seq<u8>,
    pub error: Option<Seq<char>>,
    pub panics: bool,
}

/// Bytes and no error.
pub open spec fn emitted(bytes: Seq<u8>) -> EmitModel {
    EmitModel { bytes, error: None, panics: false }
}

/// An error before any byte.
pub open spec fn refused(msg: Seq<char>) -> EmitModel {
    EmitModel { bytes: Seq::empty(), error: Some(msg), panics: false }
}

/// An operand that is missing, or a computation out of range.
pub open spec fn stuck() -> EmitModel {
    EmitModel { bytes: Seq::empty(), error: None, panics: true }
}

/// The operands after the mnemonic: split at commas, trimmed, empty ones dropped.
pub open spec fn tool_operands(parts: Seq<Seq<char>>) -> Seq<Seq<char>> {
    let os = if parts.len() > 1 {
        join(parts.skip(1), seq![' '])
    } else {
        Seq::empty()
    };
    split(os, ',').map_values(|p: Seq<char>| trim(p)).filter(|p: Seq<char>| p.len() > 0)
}

/// Continue with the value an operand reader produced: a missing operand gets stuck, an
/// error is refused.
pub open spec fn then_emit<T>(o: Option<Result<T, Seq<char>>>, f: spec_fn(T) -> EmitModel) -> EmitModel {
    match o {
        None => stuck(),
        Some(Err(e)) => refused(e),
        Some(Ok(v)) => f(v),
    }
}

/// The first operand as a register (`None`: there is none).
pub open spec fn first_reg(ops: Seq<Seq<char>>) -> Option<Result<u8, Seq<char>>> {
    if ops.len() < 1 {
        None
    } else {
        Some(reg_of(ops[0]))
    }
}

/// A register, then a second operand read by `g` (`None`: an operand is missing).
pub open spec fn reg_then<T>(ops: Seq<Seq<char>>, g: spec_fn(Seq<char>) -> Result<T, Seq<char>>) -> Option<
    Result<(u8, T), Seq<char>>,
> {
    match first_reg(ops) {
        None => None,
        Some(Err(e)) => Some(Err(e)),
        Some(Ok(ra)) => if ops.len() < 2 {
            None
        } else {
            match g(ops[1]) {
                Ok(v) => Some(Ok((ra, v))),
                Err(e) => Some(Err(e)),
            }
        },
    }
}

/// The message for an instruction that no byte of the decode ROM encodes.
pub open spec fn unsupported(mn: Seq<char>, ra: u8, rb: u8) -> Seq<char> {
    "Unsupported "@ + mn + " encoding: r"@ + decimal(ra as nat) + ",r"@ + decimal(rb as nat)
}

/// `opcode ra,rb` as the byte the decode ROM has for it, followed by `rest`; refused where
/// the ROM has none.
pub open spec fn isa_emit(mn: Seq<char>, opcode: Opcode, ra: u8, rb: u8, rest: Seq<u8>) -> EmitModel {
    match encoding_of(inst(opcode, ra, rb)) {
        Some(b) => emitted(seq![b] + rest),
        None => refused(unsupported(mn, ra, rb)),
    }
}

/// The little-endian bytes of a 24-bit value.
pub open spec fn le24(v: u32) -> Seq<u8> {
    seq![(v & 0xFF) as u8, ((v >> 8) & 0xFF) as u8, ((v >> 16) & 0xFF) as u8]
}

/// `la ra,imm24`.
pub open spec fn tool_la(ops: Seq<Seq<char>>) -> EmitModel {
    then_emit(
        reg_then(ops, |s: Seq<char>| imm24_of(s)),
        |p: (u8, u32)| isa_emit("la"@, Opcode::La, p.0, 0, le24(p.1)),
    )
}

/// `lc ra,imm8` or `lcu ra,imm8`.
pub open spec fn reg_imm8(ops: Seq<Seq<char>>, op: Opcode, mn: Seq<char>) -> EmitModel {
    then_emit(
        reg_then(ops, |s: Seq<char>| imm8_of(s)),
        |p: (u8, i32)| isa_emit(mn, op, p.0, 0, seq![p.1 as u8]),
    )
}

/// Whether `add`'s second operand is taken as a register.
pub open spec fn names_register(op2: Seq<char>) -> bool {
    let is_reg = starts_with(op2, "r"@) || op2 == "sp"@ || op2 == "fp"@ || op2 == "z"@ || op2
        == "iv"@ || op2 == "ir"@;
    let digit_first = op2.len() > 0 && '0' <= op2[0] <= '9';
    is_reg && !starts_with(op2, "-"@) && !digit_first
}

/// `add ra,op2` once `ra` is known: `add ra,rb` or `add ra,imm8`.
pub open spec fn add_with(ra: u8, op2: Seq<char>) -> EmitModel {
    if names_register(op2) {
        match reg_of(op2) {
            Err(e) => refused(e),
            Ok(rb) => isa_emit("add"@, Opcode::AddReg, ra, rb, Seq::empty()),
        }
    } else {
        match imm8_of(op2) {
            Err(e) => refused(e),
            Ok(imm) => isa_emit("add"@, Opcode::AddImm, ra, 0, seq![imm as u8]),
        }
    }
}

/// `add ra,rb` or `add ra,imm8`.
pub open spec fn tool_add(ops: Seq<Seq<char>>) -> EmitModel {
    then_emit(
        reg_then(ops, |s: Seq<char>| Ok::<Seq<char>, Seq<char>>(trim(s))),
        |p: (u8, Seq<char>)| add_with(p.0, p.1),
    )
}

/// `mov ra,op2` once `ra` is known: `mov ra,c` (the condition flag, encoded as `rb` = 5) or
/// `mov ra,rb`.
pub open spec fn mov_with(ra: u8, op2: Seq<char>) -> EmitModel {
    if op2 == "c"@ {
        isa_emit("mov"@, Opcode::Mov, ra, 5, Seq::empty())
    } else {
        match reg_of(op2) {
            Err(e) => refused(e),
            Ok(rb) => isa_emit("mov"@, Opcode::Mov, ra, rb, Seq::empty()),
        }
    }
}

/// `mov ra,c` or `mov ra,rb`.
pub open spec fn tool_mov(ops: Seq<Seq<char>>) -> EmitModel {
    then_emit(
        reg_then(ops, |s: Seq<char>| Ok::<Seq<char>, Seq<char>>(trim(s))),
        |p: (u8, Seq<char>)| mov_with(p.0, p.1),
    )
}

/// A two-register instruction `op ra,rb` (`sub`, `and`, `ceq`, `clu`).
pub open spec fn tool_two(ops: Seq<Seq<char>>, op: Opcode, mn: Seq<char>) -> EmitModel {
    then_emit(
        reg_then(ops, |s: Seq<char>| reg_of(s)),
        |p: (u8, u8)| isa_emit(mn, op, p.0, p.1, Seq::empty()),
    )
}

/// A memory instruction `op ra,off(rb)` (`sb`, `sw`, `lw`).
pub open spec fn tool_mem(ops: Seq<Seq<char>>, op: Opcode, mn: Seq<char>) -> EmitModel {
    then_emit(
        reg_then(ops, |s: Seq<char>| mem_of(s)),
        |p: (u8, (i32, u8))| isa_emit(mn, op, p.0, p.1.1, seq![p.1.0 as u8]),
    )
}

/// `push ra` or `pop ra` (the stack pointer is the second operand).
pub open spec fn tool_stack(ops: Seq<Seq<char>>, op: Opcode, mn: Seq<char>) -> EmitModel {
    then_emit(first_reg(ops), |ra: u8| isa_emit(mn, op, ra, 4, Seq::empty()))
}

/// A branch with first byte `op` to a label, at output length `len` before the branch.
pub open spec fn branch_with(
    labels: Seq<(Seq<char>, u32)>,
    len: nat,
    ops: Seq<Seq<char>>,
    op: u8,
) -> EmitModel {
    if ops.len() < 1 {
        EmitModel { bytes: seq![op], error: None, panics: true }
    } else {
        let cur = ((len + 1) as i32) + 1;
        if cur > i32::MAX {
            EmitModel { bytes: seq![op], error: None, panics: true }
        } else {
            match label_get(labels, trim(ops[0])) {
                Some(addr) => {
                    let off = (addr as i32) - cur;
                    if off < i32::MIN || off > i32::MAX {
                        EmitModel { bytes: seq![op], error: None, panics: true }
                    } else {
                        emitted(seq![op, (off as i32) as u8])
                    }
                },
                None => EmitModel {
                    bytes: seq![op],
                    error: Some("Undefined: "@ + ops[0]),
                    panics: false,
                },
            }
        }
    }
}

/// A branch `bra`, `brf` or `brt` to a label, at output length `len` before the branch.
pub open spec fn tool_branch(
    labels: Seq<(Seq<char>, u32)>,
    len: nat,
    ops: Seq<Seq<char>>,
    op: Opcode,
    mn: Seq<char>,
) -> EmitModel {
    match encoding_of(inst(op, 0, 0)) {
        Some(b) => branch_with(labels, len, ops, b),
        None => refused(unsupported(mn, 0, 0)),
    }
}

/// The encoding of one line (comment stripped, trimmed, not empty, not a label), with the
/// bytes the decode ROM gives each instruction.
#[verifier::opaque]
pub open spec fn emit_of(m: ToolModel, line: Seq<char>) -> EmitModel {
    let parts = words(line);
    if parts.len() == 0 {
        emitted(Seq::empty())
    } else {
        let mn = fold_case(parts[0]);
        let ops = tool_operands(parts);
        if mn == "la"@ {
            tool_la(ops)
        } else if mn == "lc"@ {
            reg_imm8(ops, Opcode::Lc, mn)
        } else if mn == "lcu"@ {
            reg_imm8(ops, Opcode::Lcu, mn)
        } else if mn == "add"@ {
            tool_add(ops)
        } else if mn == "sub"@ {
            tool_two(ops, Opcode::Sub, mn)
        } else if mn == "mov"@ {
            tool_mov(ops)
        } else if mn == "and"@ {
            tool_two(ops, Opcode::And, mn)
        } else if mn == "sb"@ {
            tool_mem(ops, Opcode::Sb, mn)
        } else if mn == "sw"@ {
            tool_mem(ops, Opcode::Sw, mn)
        } else if mn == "lw"@ {
            tool_mem(ops, Opcode::Lw, mn)
        } else if mn == "ceq"@ {
            tool_two(ops, Opcode::Ceq, mn)
        } else if mn == "clu"@ {
            tool_two(ops, Opcode::Clu, mn)
        } else if mn == "bra"@ {
            tool_branch(m.labels, m.output.len(), ops, Opcode::Bra, mn)
        } else if mn == "brf"@ {
            tool_branch(m.labels, m.output.len(), ops, Opcode::Brf, mn)
        } else if mn == "brt"@ {
            tool_branch(m.labels, m.output.len(), ops, Opcode::Brt, mn)
        } else if mn == "push"@ {
            tool_stack(ops, Opcode::Push, mn)
        } else if mn == "pop"@ {
            tool_stack(ops, Opcode::Pop, mn)
        } else if mn == "halt"@ {
            isa_emit(mn, Opcode::La, 7, 0, seq![0u8, 0u8, 0u8])
        } else {
            refused("Unknown: "@ + mn)
        }
    }
}

// ---------------------------------------------------------------- passes

/// A line without its comment, trimmed.
pub open spec fn code_part(line: Seq<char>) -> Seq<char> {
    trim(
        match find(line, ';') {
            Some(p) => line.take(p),
            None => line,
        },
    )
}

/// The label a code line defines: the text before a final `:`, trimmed.
pub open spec fn label_def(t: Seq<char>) -> Option<Seq<char>> {
    if t.len() > 0 && t.last() == ':' {
        Some(trim(t.drop_last()))
    } else {
        None
    }
}

/// The size the first pass assumes for an instruction line: the size of its encoding
/// (`add` with a register operand takes one byte, with an immediate two).
pub open spec fn size_estimate(t: Seq<char>) -> u32 {
    let parts = words(t);
    if parts.len() == 0 {
        0
    } else {
        let m = fold_case(parts[0]);
        let ops = tool_operands(parts);
        if m == "la"@ || m == "halt"@ {
            4
        } else if m == "push"@ || m == "pop"@ || m == "mov"@ || m == "and"@ || m == "ceq"@ || m
            == "clu"@ || m == "cls"@ || m == "sub"@ {
            1
        } else if m == "add"@ && ops.len() >= 2 && names_register(trim(ops[1])) {
            1
        } else {
            2
        }
    }
}

/// The first pass over the first `k` lines: the symbol table, the estimated address, and
/// whether the address stayed within `u32`.
pub open spec fn pass1(labels: Seq<(Seq<char>, u32)>, ls: Seq<Seq<char>>, k: int) -> (
    Seq<(Seq<char>, u32)>,
    u32,
    bool,
)
    decreases k,
{
    if k <= 0 {
        (labels, 0, true)
    } else {
        let (lb, addr, ok) = pass1(labels, ls, k - 1);
        let t = code_part(ls[k - 1]);
        if t.len() == 0 {
            (lb, addr, ok)
        } else {
            match label_def(t) {
                Some(l) => (label_insert(lb, l, addr), addr, ok),
                None => {
                    let e = size_estimate(t);
                    if addr + e > u32::MAX {
                        (lb, addr, false)
                    } else {
                        (lb, (addr + e) as u32, ok)
                    }
                },
            }
        }
    }
}

/// Where the second pass stands: the state, the first error, and whether a computation
/// failed.
pub struct PassModel {
    pub m: ToolModel,
    pub error: Option<Seq<char>>,
    pub panics: bool,
}

/// The second pass on one line.
#[verifier::opaque]
pub open spec fn line_pass(m: ToolModel, orig: Seq<char>) -> PassModel {
    let t = code_part(orig);
    if t.len() == 0 {
        PassModel {
            m: ToolModel { listing: m.listing.push("                    "@ + orig), ..m },
            error: None,
            panics: false,
        }
    } else if t.last() == ':' {
        PassModel {
            m: ToolModel {
                listing: m.listing.push(
                    hex_upper(m.output.len(), 4) + ":               "@ + orig,
                ),
                ..m
            },
            error: None,
            panics: false,
        }
    } else {
        let e = emit_of(m, t);
        let m1 = ToolModel { output: m.output + e.bytes, ..m };
        if e.panics || e.error is Some {
            PassModel { m: m1, error: e.error, panics: e.panics }
        } else {
            PassModel {
                m: ToolModel {
                    listing: m1.listing.push(
                        hex_upper(m.output.len(), 4) + ": "@ + pad_right(hex_bytes(e.bytes), 14, ' ')
                            + " "@ + orig,
                    ),
                    ..m1
                },
                error: None,
                panics: false,
            }
        }
    }
}

/// The second pass over the first `k` lines, stopping at the first error.
pub open spec fn pass2(m: ToolModel, ls: Seq<Seq<char>>, k: int) -> PassModel
    decreases k,
{
    if k <= 0 {
        PassModel { m, error: None, panics: false }
    } else {
        let p = pass2(m, ls, k - 1);
        if p.error is Some || p.panics {
            p
        } else {
            line_pass(p.m, ls[k - 1])
        }
    }
}

/// Assembling `source` on top of `m`: both passes.
pub open spec fn tool_assembly(m: ToolModel, source: Seq<char>) -> PassModel {
    let ls = lines(source);
    let (labels, _, ok) = pass1(m.labels, ls, ls.len() as int);
    let m1 = ToolModel { labels, ..m };
    if !ok {
        PassModel { m: m1, error: None, panics: true }
    } else {
        pass2(m1, ls, ls.len() as int)
    }
}

/// Once the first pass has overflowed, it stays so.
pub proof fn lemma_pass1_overflow_stays(labels: Seq<(Seq<char>, u32)>, ls: Seq<Seq<char>>, j: int, k: int)
    requires
        0 <= j <= k,
        !pass1(labels, ls, j).2,
    ensures
        !pass1(labels, ls, k).2,
    decreases k,
{
    if k > j {
        lemma_pass1_overflow_stays(labels, ls, j, k - 1);
    }
}

/// Once the second pass has stopped, later lines change nothing.
pub proof fn lemma_pass2_stops(m: ToolModel, ls: Seq<Seq<char>>, j: int, k: int)
    requires
        0 <= j <= k,
        pass2(m, ls, j).error is Some || pass2(m, ls, j).panics,
    ensures
        pass2(m, ls, k) == pass2(m, ls, j),
    decreases k,
{
    if k > j {
        lemma_pass2_stops(m, ls, j, k - 1);
    }
}

/// An instruction encoded without an error takes one byte and the bytes after it.
proof fn lemma_isa_len(mn: Seq<char>, op: Opcode, ra: u8, rb: u8, rest: Seq<u8>)
    requires
        isa_emit(mn, op, ra, rb, rest).error is None,
    ensures
        isa_emit(mn, op, ra, rb, rest).bytes.len() == 1 + rest.len(),
{
}

/// The sizes of the encodings that succeed, by form.
proof fn lemma_form_lengths(m: ToolModel, ops: Seq<Seq<char>>, op: Opcode, mn: Seq<char>)
    ensures
        tool_la(ops).error is None && !tool_la(ops).panics ==> tool_la(ops).bytes.len() == 4,
        reg_imm8(ops, op, mn).error is None && !reg_imm8(ops, op, mn).panics ==> reg_imm8(ops, op, mn).bytes.len() == 2,
        tool_mov(ops).error is None && !tool_mov(ops).panics ==> tool_mov(ops).bytes.len() == 1,
        tool_two(ops, op, mn).error is None && !tool_two(ops, op, mn).panics ==> tool_two(ops, op, mn).bytes.len() == 1,
        tool_mem(ops, op, mn).error is None && !tool_mem(ops, op, mn).panics ==> tool_mem(ops, op, mn).bytes.len() == 2,
        tool_stack(ops, op, mn).error is None && !tool_stack(ops, op, mn).panics ==> tool_stack(ops, op, mn).bytes.len() == 1,
        tool_branch(m.labels, m.output.len(), ops, op, mn).error is None && !tool_branch(m.labels, m.output.len(), ops, op, mn).panics
            ==> tool_branch(m.labels, m.output.len(), ops, op, mn).bytes.len() == 2,
        tool_add(ops).error is None && !tool_add(ops).panics ==> tool_add(ops).bytes.len() == (if names_register(trim(ops[1])) { 1int } else { 2int }),
{
}

/// The letters of the mnemonics the runner's assembler knows.
proof fn lemma_mnemonic_letters()
    ensures
        "la"@.len() == 2,
        "la"@[0] == 'l',
        "la"@[1] == 'a',
        "halt"@.len() == 4,
        "halt"@[0] == 'h',
        "halt"@[1] == 'a',
        "halt"@[2] == 'l',
        "halt"@[3] == 't',
        "push"@.len() == 4,
        "push"@[0] == 'p',
        "push"@[1] == 'u',
        "push"@[2] == 's',
        "push"@[3] == 'h',
        "pop"@.len() == 3,
        "pop"@[0] == 'p',
        "pop"@[1] == 'o',
        "pop"@[2] == 'p',
        "mov"@.len() == 3,
        "mov"@[0] == 'm',
        "mov"@[1] == 'o',
        "mov"@[2] == 'v',
        "and"@.len() == 3,
        "and"@[0] == 'a',
        "and"@[1] == 'n',
        "and"@[2] == 'd',
        "ceq"@.len() == 3,
        "ceq"@[0] == 'c',
        "ceq"@[1] == 'e',
        "ceq"@[2] == 'q',
        "clu"@.len() == 3,
        "clu"@[0] == 'c',
        "clu"@[1] == 'l',
        "clu"@[2] == 'u',
        "cls"@.len() == 3,
        "cls"@[0] == 'c',
        "cls"@[1] == 'l',
        "cls"@[2] == 's',
        "sub"@.len() == 3,
        "sub"@[0] == 's',
        "sub"@[1] == 'u',
        "sub"@[2] == 'b',
        "add"@.len() == 3,
        "add"@[0] == 'a',
        "add"@[1] == 'd',
        "add"@[2] == 'd',
        "lc"@.len() == 2,
        "lc"@[0] == 'l',
        "lc"@[1] == 'c',
        "lcu"@.len() == 3,
        "lcu"@[0] == 'l',
        "lcu"@[1] == 'c',
        "lcu"@[2] == 'u',
        "sb"@.len() == 2,
        "sb"@[0] == 's',
        "sb"@[1] == 'b',
        "sw"@.len() == 2,
        "sw"@[0] == 's',
        "sw"@[1] == 'w',
        "lw"@.len() == 2,
        "lw"@[0] == 'l',
        "lw"@[1] == 'w',
        "bra"@.len() == 3,
        "bra"@[0] == 'b',
        "bra"@[1] == 'r',
        "bra"@[2] == 'a',
        "brf"@.len() == 3,
        "brf"@[0] == 'b',
        "brf"@[1] == 'r',
        "brf"@[2] == 'f',
        "brt"@.len() == 3,
        "brt"@[0] == 'b',
        "brt"@[1] == 'r',
        "brt"@[2] == 't',
{
    reveal_strlit("la");
    reveal_strlit("halt");
    reveal_strlit("push");
    reveal_strlit("pop");
    reveal_strlit("mov");
    reveal_strlit("and");
    reveal_strlit("ceq");
    reveal_strlit("clu");
    reveal_strlit("cls");
    reveal_strlit("sub");
    reveal_strlit("add");
    reveal_strlit("lc");
    reveal_strlit("lcu");
    reveal_strlit("sb");
    reveal_strlit("sw");
    reveal_strlit("lw");
    reveal_strlit("bra");
    reveal_strlit("brf");
    reveal_strlit("brt");
}

/// The first pass's size estimate of an instruction line is the number of bytes the second
/// pass emits for it, wherever the line assembles: so labels get the addresses of the code
/// after them.
pub proof fn lemma_size_estimate_exact(m: ToolModel, t: Seq<char>)
    requires
        emit_of(m, t).error is None,
        !emit_of(m, t).panics,
    ensures
        size_estimate(t) == emit_of(m, t).bytes.len(),
{
    reveal(emit_of);
    lemma_mnemonic_letters();
    let parts = words(t);
    if parts.len() > 0 {
        let mn = fold_case(parts[0]);
        let ops = tool_operands(parts);
        if mn == "la"@ || mn == "add"@ || mn == "mov"@ {
            lemma_form_lengths(m, ops, Opcode::La, mn);
            if mn == "add"@ {
                assert(ops.len() >= 2);
            }
        } else if mn == "lc"@ {
            lemma_form_lengths(m, ops, Opcode::Lc, mn);
        } else if mn == "lcu"@ {
            lemma_form_lengths(m, ops, Opcode::Lcu, mn);
        } else if mn == "sub"@ {
            lemma_form_lengths(m, ops, Opcode::Sub, mn);
        } else if mn == "and"@ {
            lemma_form_lengths(m, ops, Opcode::And, mn);
        } else if mn == "sb"@ {
            lemma_form_lengths(m, ops, Opcode::Sb, mn);
        } else if mn == "sw"@ {
            lemma_form_lengths(m, ops, Opcode::Sw, mn);
        } else if mn == "lw"@ {
            lemma_form_lengths(m, ops, Opcode::Lw, mn);
        } else if mn == "ceq"@ {
            lemma_form_lengths(m, ops, Opcode::Ceq, mn);
        } else if mn == "clu"@ {
            lemma_form_lengths(m, ops, Opcode::Clu, mn);
        } else if mn == "bra"@ {
            lemma_form_lengths(m, ops, Opcode::Bra, mn);
        } else if mn == "brf"@ {
            lemma_form_lengths(m, ops, Opcode::Brf, mn);
        } else if mn == "brt"@ {
            lemma_form_lengths(m, ops, Opcode::Brt, mn);
        } else if mn == "push"@ {
            lemma_form_lengths(m, ops, Opcode::Push, mn);
        } else if mn == "pop"@ {
            lemma_form_lengths(m, ops, Opcode::Pop, mn);
        } else if mn == "halt"@ {
            lemma_isa_len(mn, Opcode::La, 7, 0, seq![0u8, 0u8, 0u8]);
        }
    }
}

/// The opcode the first byte of an encoded form decodes to.
proof fn lemma_first_la(m: ToolModel, ops: Seq<Seq<char>>, op: Opcode, mn: Seq<char>)
    requires
        tool_la(ops).error is None,
        !tool_la(ops).panics,
    ensures
        ({
            let e = tool_la(ops);
            &&& e.bytes.len() > 0
            &&& rom_spec(e.bytes[0]) != INVALID_ENTRY
            &&& decoded_spec(rom_spec(e.bytes[0])).opcode == Opcode::La
        }),
{
    lemma_encodings_decode();
}

proof fn lemma_first_imm8(m: ToolModel, ops: Seq<Seq<char>>, op: Opcode, mn: Seq<char>)
    requires
        reg_imm8(ops, op, mn).error is None,
        !reg_imm8(ops, op, mn).panics,
    ensures
        ({
            let e = reg_imm8(ops, op, mn);
            &&& e.bytes.len() > 0
            &&& rom_spec(e.bytes[0]) != INVALID_ENTRY
            &&& decoded_spec(rom_spec(e.bytes[0])).opcode == op
        }),
{
    lemma_encodings_decode();
}

proof fn lemma_first_add(m: ToolModel, ops: Seq<Seq<char>>, op: Opcode, mn: Seq<char>)
    requires
        tool_add(ops).error is None,
        !tool_add(ops).panics,
    ensures
        ({
            let e = tool_add(ops);
            &&& e.bytes.len() > 0
            &&& rom_spec(e.bytes[0]) != INVALID_ENTRY
            &&& (decoded_spec(rom_spec(e.bytes[0])).opcode == Opcode::AddReg || decoded_spec(rom_spec(e.bytes[0])).opcode == Opcode::AddImm)
        }),
{
    lemma_encodings_decode();
}

proof fn lemma_first_mov(m: ToolModel, ops: Seq<Seq<char>>, op: Opcode, mn: Seq<char>)
    requires
        tool_mov(ops).error is None,
        !tool_mov(ops).panics,
    ensures
        ({
            let e = tool_mov(ops);
            &&& e.bytes.len() > 0
            &&& rom_spec(e.bytes[0]) != INVALID_ENTRY
            &&& decoded_spec(rom_spec(e.bytes[0])).opcode == Opcode::Mov
        }),
{
    lemma_encodings_decode();
}

proof fn lemma_first_two(m: ToolModel, ops: Seq<Seq<char>>, op: Opcode, mn: Seq<char>)
    requires
        tool_two(ops, op, mn).error is None,
        !tool_two(ops, op, mn).panics,
    ensures
        ({
            let e = tool_two(ops, op, mn);
            &&& e.bytes.len() > 0
            &&& rom_spec(e.bytes[0]) != INVALID_ENTRY
            &&& decoded_spec(rom_spec(e.bytes[0])).opcode == op
        }),
{
    lemma_encodings_decode();
}

proof fn lemma_first_mem(m: ToolModel, ops: Seq<Seq<char>>, op: Opcode, mn: Seq<char>)
    requires
        tool_mem(ops, op, mn).error is None,
        !tool_mem(ops, op, mn).panics,
    ensures
        ({
            let e = tool_mem(ops, op, mn);
            &&& e.bytes.len() > 0
            &&& rom_spec(e.bytes[0]) != INVALID_ENTRY
            &&& decoded_spec(rom_spec(e.bytes[0])).opcode == op
        }),
{
    lemma_encodings_decode();
}

proof fn lemma_first_stack(m: ToolModel, ops: Seq<Seq<char>>, op: Opcode, mn: Seq<char>)
    requires
        tool_stack(ops, op, mn).error is None,
        !tool_stack(ops, op, mn).panics,
    ensures
        ({
            let e = tool_stack(ops, op, mn);
            &&& e.bytes.len() > 0
            &&& rom_spec(e.bytes[0]) != INVALID_ENTRY
            &&& decoded_spec(rom_spec(e.bytes[0])).opcode == op
        }),
{
    lemma_encodings_decode();
}

proof fn lemma_first_branch(m: ToolModel, ops: Seq<Seq<char>>, op: Opcode, mn: Seq<char>)
    requires
        tool_branch(m.labels, m.output.len(), ops, op, mn).error is None,
        !tool_branch(m.labels, m.output.len(), ops, op, mn).panics,
    ensures
        ({
            let e = tool_branch(m.labels, m.output.len(), ops, op, mn);
            &&& e.bytes.len() > 0
            &&& rom_spec(e.bytes[0]) != INVALID_ENTRY
            &&& decoded_spec(rom_spec(e.bytes[0])).opcode == op
        }),
{
    lemma_encodings_decode();
}

/// Each line the runner's assembler encodes starts with a byte that the decode ROM decodes
/// to an instruction of the line's mnemonic (`lcu` to `lcu`, `add` to one of the two `add`
/// forms, ...), and `halt` to `la ir`.
#[verifier::rlimit(100)]
#[verifier::spinoff_prover]
pub proof fn lemma_emit_names_opcode(m: ToolModel, t: Seq<char>)
    requires
        emit_of(m, t).error is None,
        !emit_of(m, t).panics,
        words(t).len() > 0,
    ensures
        emit_of(m, t).bytes.len() > 0,
        rom_spec(emit_of(m, t).bytes[0]) != INVALID_ENTRY,
        fold_case(words(t)[0]) == "halt"@ ==> decoded_spec(rom_spec(emit_of(m, t).bytes[0])).opcode == Opcode::La
            && decoded_spec(rom_spec(emit_of(m, t).bytes[0])).ra == 7,
        fold_case(words(t)[0]) != "halt"@ ==> mnemonic_text(decoded_spec(rom_spec(emit_of(m, t).bytes[0])).opcode)
            == fold_case(words(t)[0]),
{
    reveal(emit_of);
    lemma_mnemonic_letters();
    lemma_encodings_decode();
    let parts = words(t);
    let mn = fold_case(parts[0]);
    let ops = tool_operands(parts);
    if mn == "la"@ {
        lemma_first_la(m, ops, Opcode::La, mn);
    } else if mn == "add"@ {
        lemma_first_add(m, ops, Opcode::La, mn);
    } else if mn == "mov"@ {
        lemma_first_mov(m, ops, Opcode::La, mn);
    } else if mn == "lc"@ {
        lemma_first_imm8(m, ops, Opcode::Lc, mn);
    } else if mn == "lcu"@ {
        lemma_first_imm8(m, ops, Opcode::Lcu, mn);
    } else if mn == "sub"@ {
        lemma_first_two(m, ops, Opcode::Sub, mn);
    } else if mn == "and"@ {
        lemma_first_two(m, ops, Opcode::And, mn);
    } else if mn == "sb"@ {
        lemma_first_mem(m, ops, Opcode::Sb, mn);
    } else if mn == "sw"@ {
        lemma_first_mem(m, ops, Opcode::Sw, mn);
    } else if mn == "lw"@ {
        lemma_first_mem(m, ops, Opcode::Lw, mn);
    } else if mn == "ceq"@ {
        lemma_first_two(m, ops, Opcode::Ceq, mn);
    } else if mn == "clu"@ {
        lemma_first_two(m, ops, Opcode::Clu, mn);
    } else if mn == "bra"@ {
        lemma_first_branch(m, ops, Opcode::Bra, mn);
    } else if mn == "brf"@ {
        lemma_first_branch(m, ops, Opcode::Brf, mn);
    } else if mn == "brt"@ {
        lemma_first_branch(m, ops, Opcode::Brt, mn);
    } else if mn == "push"@ {
        lemma_first_stack(m, ops, Opcode::Push, mn);
    } else if mn == "pop"@ {
        lemma_first_stack(m, ops, Opcode::Pop, mn);
    } else if mn == "halt"@ {
        lemma_isa_len(mn, Opcode::La, 7, 0, seq![0u8, 0u8, 0u8]);
    }
}

/// The letters of the register names.
proof fn lemma_register_letters()
    ensures
        "r0"@.len() == 2,
        "r0"@[0] == 'r',
        "r0"@[1] == '0',
        "r1"@.len() == 2,
        "r1"@[0] == 'r',
        "r1"@[1] == '1',
        "r2"@.len() == 2,
        "r2"@[0] == 'r',
        "r2"@[1] == '2',
        "r3"@.len() == 2,
        "r3"@[0] == 'r',
        "r3"@[1] == '3',
        "r4"@.len() == 2,
        "r4"@[0] == 'r',
        "r4"@[1] == '4',
        "r5"@.len() == 2,
        "r5"@[0] == 'r',
        "r5"@[1] == '5',
        "r6"@.len() == 2,
        "r6"@[0] == 'r',
        "r6"@[1] == '6',
        "r7"@.len() == 2,
        "r7"@[0] == 'r',
        "r7"@[1] == '7',
        "fp"@.len() == 2,
        "fp"@[0] == 'f',
        "fp"@[1] == 'p',
        "sp"@.len() == 2,
        "sp"@[0] == 's',
        "sp"@[1] == 'p',
        "z"@.len() == 1,
        "z"@[0] == 'z',
        "c"@.len() == 1,
        "c"@[0] == 'c',
        "iv"@.len() == 2,
        "iv"@[0] == 'i',
        "iv"@[1] == 'v',
        "ir"@.len() == 2,
        "ir"@[0] == 'i',
        "ir"@[1] == 'r',
{
    reveal_strlit("r0");
    reveal_strlit("r1");
    reveal_strlit("r2");
    reveal_strlit("r3");
    reveal_strlit("r4");
    reveal_strlit("r5");
    reveal_strlit("r6");
    reveal_strlit("r7");
    reveal_strlit("fp");
    reveal_strlit("sp");
    reveal_strlit("z");
    reveal_strlit("c");
    reveal_strlit("iv");
    reveal_strlit("ir");
}

/// Register names as the instruction set reference gives them: `r0` to `r7` name registers 0
/// to 7, and the aliases `fp`, `sp`, `z`, `iv`, `ir` name r3 to r7; the name the
/// disassembler prints for a register (`reg_name`) names that register again.
pub proof fn lemma_register_names(r: u8)
    requires
        r < 8,
    ensures
        tool_register(seq!['r', ((r + 0x30) as u32) as char]) == Some(r),
        tool_register(reg_name_text(r)) == Some(r),
        tool_register("fp"@) == Some(3u8),
        tool_register("sp"@) == Some(4u8),
        tool_register("z"@) == Some(5u8),
        tool_register("iv"@) == Some(6u8),
        tool_register("ir"@) == Some(7u8),
{
    lemma_register_letters();
    reveal_strlit("r6");
    reveal_strlit("r7");
    let name = seq!['r', ((r + 0x30) as u32) as char];
    if r == 0 { assert(name =~= "r0"@); }
    else if r == 1 { assert(name =~= "r1"@); }
    else if r == 2 { assert(name =~= "r2"@); }
    else if r == 3 { assert(name =~= "r3"@); }
    else if r == 4 { assert(name =~= "r4"@); }
    else if r == 5 { assert(name =~= "r5"@); }
    else if r == 6 { assert(name =~= "r6"@); }
    else { assert(name =~= "r7"@); }
}

/// A branch to a label gets its first byte and then the distance from the address after the
/// branch (two bytes on from where it starts) to the label, modulo 256.
pub proof fn lemma_branch_offset(labels: Seq<(Seq<char>, u32)>, len: nat, ops: Seq<Seq<char>>, op: u8)
    requires
        branch_with(labels, len, ops, op).error is None,
        !branch_with(labels, len, ops, op).panics,
        len + 2 <= 0x7FFF_FFFF,
    ensures
        ({
            let e = branch_with(labels, len, ops, op);
            let target = label_get(labels, trim(ops[0])).unwrap();
            &&& e.bytes.len() == 2
            &&& e.bytes[0] == op
            &&& (e.bytes[1] as int) == ((target as i32) as int - (len + 2)) % 256
        }),
{
    let e = branch_with(labels, len, ops, op);
    let target = label_get(labels, trim(ops[0])).unwrap();
    let d: int = (target as i32) as int - (len + 2);
    assert(((len + 1) as i32) + 1 == len + 2);
    assert(i32::MIN <= d <= i32::MAX);
    let off: i32 = d as i32;
    assert(off as int == d);
    assert(e.bytes[1] == off as u8);
    assert(((off as u8) as int) == (off as int) % 256) by (bit_vector);
}

} // verus!
