//! The demo board: a minimal COR24 machine with 64 KB of RAM, an LED register at
//! `IO_LEDSWDAT` and the part of the instruction set its assembler emits, decoded with the
//! decode ROM.
//!
//! A step reports what the board shows: each new LED value written, and an opcode it does
//! not know (which halts it).

use vstd::prelude::*;
use crate::cpu::decode_rom::{decode_rom_entry, rom_spec, INVALID_ENTRY};
use crate::cpu::encode::{encoding_of, inst, lemma_encode_decode};
use crate::cpu::instruction::{decoded_spec, format_of, format_size, DecodedInstruction, Opcode};
use crate::cpu::state::{lemma_low3, lemma_mask24, sext8};
use crate::runner::program::isa_emit;
use crate::text::{hex_upper, push_hex, push_str, string_of};

verus! {

/// Memory-mapped I/O address of the LEDs.
pub const IO_LEDSWDAT: u32 = 0xFF0000;

/// Size of the board's RAM.
pub const BOARD_MEMORY: usize = 65536;

/// The board as plain values.
pub struct BoardView {
    pub pc: u32,
    pub regs: Seq<u32>,
    pub c: bool,
    pub mem: Seq<u8>,
    pub halted: bool,
    pub leds: u8,
    pub prev_leds: u8,
    pub cycles: u64,
}

/// What one step did: the board after it, whether it may go on, the LED values it displayed
/// and the opcode it did not know (with the program counter it was found at).
pub struct StepModel {
    pub state: BoardView,
    pub running: bool,
    pub leds: Seq<u8>,
    pub unknown: Option<(u8, u32)>,
}

/// The low 24 bits.
pub open spec fn m24(v: u32) -> u32 {
    v & 0xFFFFFF
}

/// A byte sign-extended to 24 bits.
pub open spec fn sx8(v: u8) -> u32 {
    if v & 0x80 != 0 {
        0xFFFF00 | (v as u32)
    } else {
        v as u32
    }
}

/// The byte read at an address: the I/O page reads as zero, RAM repeats every
/// RAM-length bytes.
pub open spec fn board_read(s: BoardView, addr: u32) -> u8 {
    let a = addr & 0xFFFFFF;
    if (a & 0xFF0000) == 0xFF0000 {
        0
    } else {
        s.mem[(a as int) % (s.mem.len() as int)]
    }
}

/// A byte write: to the LED register (reporting the value when it changes what is shown),
/// to RAM, or to another I/O address (ignored).
pub open spec fn board_write(s: BoardView, addr: u32, val: u8) -> (BoardView, Seq<u8>) {
    let a = addr & 0xFFFFFF;
    if a == IO_LEDSWDAT {
        if val != s.prev_leds {
            (BoardView { leds: val, prev_leds: val, ..s }, seq![val])
        } else {
            (BoardView { leds: val, ..s }, Seq::empty())
        }
    } else if (a & 0xFF0000) != 0xFF0000 {
        (BoardView { mem: s.mem.update((a as int) % (s.mem.len() as int), val), ..s }, Seq::empty())
    } else {
        (s, Seq::empty())
    }
}

/// Register `r`: `z` (r5) reads as zero.
pub open spec fn board_reg(s: BoardView, r: u8) -> u32 {
    if r == 5 {
        0
    } else {
        s.regs[(r & 7) as int] & 0xFFFFFF
    }
}

/// The board with register `r` set to the low 24 bits of `v` (writes to `z` are ignored).
pub open spec fn with_reg(s: BoardView, r: u8, v: u32) -> BoardView {
    if r != 5 {
        BoardView { regs: s.regs.update((r & 7) as int, v & 0xFFFFFF), ..s }
    } else {
        s
    }
}

/// The little-endian 24-bit value in the three bytes after `p`.
pub open spec fn imm24_after(s: BoardView, p: u32) -> u32 {
    (board_read(s, (p + 1) as u32) as u32) | ((board_read(s, (p + 2) as u32) as u32) << 8) | ((
    board_read(s, (p + 3) as u32) as u32) << 16)
}

/// The little-endian 24-bit value in the three bytes from `a` on.
pub open spec fn word_from(s: BoardView, a: u32) -> u32 {
    (board_read(s, a) as u32) | ((board_read(s, (a + 1) as u32) as u32) << 8) | ((board_read(
        s,
        (a + 2) as u32,
    ) as u32) << 16)
}

/// Write the low three bytes of `v` from `a` on.
pub open spec fn write_word(s: BoardView, a: u32, v: u32) -> (BoardView, Seq<u8>) {
    let (s1, e1) = board_write(s, a, (v & 0xFF) as u8);
    let (s2, e2) = board_write(s1, (a + 1) as u32, ((v >> 8) & 0xFF) as u8);
    let (s3, e3) = board_write(s2, (a + 2) as u32, ((v >> 16) & 0xFF) as u8);
    (s3, e1 + e2 + e3)
}

/// The instructions the board carries out; it reports the decode ROM's other instructions
/// as unknown.
pub open spec fn board_runs(op: Opcode) -> bool {
    match op {
        Opcode::La | Opcode::Lc | Opcode::Lcu | Opcode::AddReg | Opcode::AddImm | Opcode::Sub
        | Opcode::Mov | Opcode::And | Opcode::Sb | Opcode::Sw | Opcode::Lw | Opcode::Ceq
        | Opcode::Clu | Opcode::Bra | Opcode::Brf | Opcode::Brt | Opcode::Push | Opcode::Pop => true,
        _ => false,
    }
}

/// The instruction the decode ROM gives first byte `b0`, where the board runs it.
pub open spec fn board_decode(b0: u8) -> Option<DecodedInstruction> {
    if rom_spec(b0) != INVALID_ENTRY && board_runs(decoded_spec(rom_spec(b0)).opcode) {
        Some(decoded_spec(rom_spec(b0)))
    } else {
        None
    }
}

/// The size of an instruction.
pub open spec fn inst_size(d: DecodedInstruction) -> u32 {
    format_size(format_of(d.opcode))
}

/// How far past the program counter an instruction computes addresses: its size (the jump
/// `la ir` reads three bytes past it and computes no next address).
pub open spec fn inst_reach(d: DecodedInstruction) -> int {
    if d.opcode == Opcode::La && d.ra == 7 {
        3
    } else {
        inst_size(d) as int
    }
}

/// How far past the program counter the instruction with first byte `b0` computes.
pub open spec fn pc_reach(b0: u8) -> int {
    match board_decode(b0) {
        Some(d) => inst_reach(d),
        None => 0,
    }
}

/// A step computes no address or counter beyond its integer range.
pub open spec fn board_step_fits(s: BoardView) -> bool {
    s.halted || (s.cycles < u64::MAX && s.pc + pc_reach(board_read(s, s.pc)) <= u32::MAX)
}

/// A step that goes on, with the program counter set.
pub open spec fn next(s: BoardView, pc: u32, leds: Seq<u8>) -> StepModel {
    StepModel { state: BoardView { pc, ..s }, running: true, leds, unknown: None }
}

/// The effect of instruction `d` at `s.pc` (cycle already counted), with the meaning the
/// instruction set gives it. `la ir,0` halts the board, and `sub` also sets the condition
/// flag when the difference is positive (as a 24-bit signed number), so that `brt` after it
/// branches while a count is above zero.
pub open spec fn board_do(s: BoardView, d: DecodedInstruction) -> StepModel {
    let pc = s.pc;
    let ra = d.ra;
    let rb = d.rb;
    let a = board_reg(s, ra);
    let b = board_reg(s, rb);
    let imm = board_read(s, (pc + 1) as u32);
    let next_pc = m24((pc + inst_size(d)) as u32);
    let addr = m24(b.wrapping_add(sx8(imm)));
    match d.opcode {
        Opcode::La => {
            let v = imm24_after(s, pc);
            if ra == 7 {
                if v == 0 {
                    StepModel {
                        state: BoardView { halted: true, ..s },
                        running: false,
                        leds: Seq::empty(),
                        unknown: None,
                    }
                } else {
                    next(s, v, Seq::empty())
                }
            } else {
                next(with_reg(s, ra, v), next_pc, Seq::empty())
            }
        },
        Opcode::Lc => next(with_reg(s, ra, sx8(imm)), next_pc, Seq::empty()),
        Opcode::Lcu => next(with_reg(s, ra, imm as u32), next_pc, Seq::empty()),
        Opcode::AddReg => next(with_reg(s, ra, m24(a.wrapping_add(b))), next_pc, Seq::empty()),
        Opcode::AddImm => next(with_reg(s, ra, m24(a.wrapping_add(sx8(imm)))), next_pc, Seq::empty()),
        Opcode::Sub => {
            let result = m24(a.wrapping_sub(b));
            let s1 = with_reg(s, ra, result);
            next(BoardView { c: result != 0 && (result & 0x800000) == 0, ..s1 }, next_pc, Seq::empty())
        },
        Opcode::Mov => next(
            with_reg(s, ra, if rb == 5 { if s.c { 1 } else { 0 } } else { b }),
            next_pc,
            Seq::empty(),
        ),
        Opcode::And => next(with_reg(s, ra, a & b), next_pc, Seq::empty()),
        Opcode::Sb => {
            let (s1, e) = board_write(s, addr, a as u8);
            next(s1, next_pc, e)
        },
        Opcode::Sw => {
            let (s1, e) = write_word(s, addr, a);
            next(s1, next_pc, e)
        },
        Opcode::Lw => next(with_reg(s, ra, word_from(s, addr)), next_pc, Seq::empty()),
        Opcode::Ceq => next(BoardView { c: a == b, ..s }, next_pc, Seq::empty()),
        Opcode::Clu => next(BoardView { c: a < b, ..s }, next_pc, Seq::empty()),
        Opcode::Bra | Opcode::Brf | Opcode::Brt => {
            let target = m24(next_pc.wrapping_add(sx8(imm)));
            let taken = d.opcode == Opcode::Bra || (d.opcode == Opcode::Brf && !s.c) || (d.opcode
                == Opcode::Brt && s.c);
            next(s, if taken { target } else { next_pc }, Seq::empty())
        },
        Opcode::Push => {
            let sp = m24(board_reg(s, 4).wrapping_sub(3));
            let s1 = with_reg(s, 4, sp);
            let (s2, e) = write_word(s1, sp, board_reg(s1, ra));
            next(s2, next_pc, e)
        },
        Opcode::Pop => {
            let sp = board_reg(s, 4);
            let s1 = with_reg(s, ra, word_from(s, sp));
            next(with_reg(s1, 4, sp.wrapping_add(3)), next_pc, Seq::empty())
        },
        _ => next(s, pc, Seq::empty()),
    }
}

/// The byte the assembler emits for an instruction the board runs decodes, on the board, to
/// that instruction.
pub proof fn lemma_board_decodes_encoding(op: Opcode, ra: u8, rb: u8)
    requires
        board_runs(op),
        encoding_of(inst(op, ra, rb)) is Some,
    ensures
        board_decode(encoding_of(inst(op, ra, rb)).unwrap()) == Some(inst(op, ra, rb)),
{
    lemma_encode_decode(inst(op, ra, rb));
}

/// What the runner's assembler emits for an instruction the board runs is carried out by the
/// board's next step: with the emitted first byte at the program counter (and the bytes after
/// it following), a running board counts the cycle and does what `op ra,rb` means.
pub proof fn lemma_board_runs_emitted(
    s: BoardView,
    mn: Seq<char>,
    op: Opcode,
    ra: u8,
    rb: u8,
    rest: Seq<u8>,
)
    requires
        !s.halted,
        board_runs(op),
        isa_emit(mn, op, ra, rb, rest).error is None,
        board_read(s, s.pc) == isa_emit(mn, op, ra, rb, rest).bytes[0],
    ensures
        board_step(s) == board_do(BoardView { cycles: (s.cycles + 1) as u64, ..s }, inst(op, ra, rb)),
{
    lemma_board_decodes_encoding(op, ra, rb);
}

/// One step of the board: fetch, decode with the decode ROM, carry out; a byte that is no
/// instruction the board runs halts it and is reported.
pub open spec fn board_step(s: BoardView) -> StepModel {
    if s.halted {
        StepModel { state: s, running: false, leds: Seq::empty(), unknown: None }
    } else {
        let b0 = board_read(s, s.pc);
        let s1 = BoardView { cycles: (s.cycles + 1) as u64, ..s };
        match board_decode(b0) {
            Some(d) => board_do(s1, d),
            None => StepModel {
                state: BoardView { halted: true, ..s1 },
                running: false,
                leds: Seq::empty(),
                unknown: Some((b0, s.pc)),
            },
        }
    }
}

/// The low 24 bits of a 32-bit value are its remainder modulo 2^24.
proof fn lemma_m24_mod(x: u32)
    ensures
        m24(x) == x % 0x1000000,
{
    assert(x & 0xFFFFFF == x % 0x1000000) by (bit_vector);
}

/// The board's sign extension is the instruction set's.
proof fn lemma_sx8_is_sext8(v: u8)
    ensures
        sx8(v) == sext8(v),
        sx8(v) < 0x1000000,
{
    assert(v & 0x80 != 0 <==> v >= 0x80) by (bit_vector);
    assert(v >= 0x80 ==> (0xFFFF00u32 | (v as u32)) == 0xFFFF00 + v) by (bit_vector);
}

/// 24-bit sums and differences on the board are taken modulo 2^24.
proof fn lemma_board_arith(a: u32, b: u32)
    requires
        a < 0x1000000,
        b < 0x1000000,
    ensures
        m24(a.wrapping_add(b)) == (a + b) % 0x1000000,
        m24(a.wrapping_sub(b)) == (a - b) % 0x1000000,
{
    lemma_m24_mod(a.wrapping_add(b));
    lemma_m24_mod(a.wrapping_sub(b));
    assert(a.wrapping_add(b) == a + b);
    if a >= b {
        assert(a.wrapping_sub(b) == a - b);
    } else {
        assert(a.wrapping_sub(b) == a - b + 0x1_0000_0000);
        assert((a - b + 0x1_0000_0000) % 0x1000000 == (a - b) % 0x1000000);
    }
}

/// Three bytes combined by shifts and `|` are their little-endian value.
proof fn lemma_board_bytes(b0: u8, b1: u8, b2: u8)
    ensures
        (b0 as u32) | ((b1 as u32) << 8) | ((b2 as u32) << 16) == b0 + 256 * b1 + 65536 * b2,
{
    assert((b0 as u32) | ((b1 as u32) << 8) | ((b2 as u32) << 16) == b0 + 256 * b1 + 65536 * b2) by (bit_vector);
}

/// A board register holds 24 bits.
proof fn lemma_board_reg_bound(s: BoardView, r: u8)
    ensures
        board_reg(s, r) < 0x1000000,
{
    lemma_m24_mod(s.regs[(r & 7) as int]);
}

/// Writing board register `r` (below 8): it reads back as the low 24 bits (`z` as 0), and
/// every other register keeps its value.
proof fn lemma_board_writes_only(s: BoardView, r: u8, v: u32)
    requires
        s.regs.len() == 8,
        r < 8,
    ensures
        board_reg(with_reg(s, r, v), r) == (if r == 5 { 0 } else { v % 0x1000000 }),
        forall|q: u8| q < 8 && q != r ==> #[trigger] board_reg(with_reg(s, r, v), q) == board_reg(s, q),
        with_reg(s, r, v).regs.len() == 8,
{
    lemma_low3(r);
    lemma_m24_mod(v);
    lemma_m24_mod(m24(v));
    assert forall|q: u8| q < 8 && q != r implies #[trigger] board_reg(with_reg(s, r, v), q) == board_reg(s, q) by {
        lemma_low3(q);
    }
}

/// `add ra,rb` on the board: ra becomes the 24-bit sum of ra and rb (z stays 0); nothing else changes but the program counter.
#[verifier::rlimit(60)]
#[verifier::spinoff_prover]
pub proof fn lemma_board_add_reg(s: BoardView)
    requires
        s.regs.len() == 8,
        !s.halted,
        board_step_fits(s),
        board_decode(board_read(s, s.pc)) matches Some(d) && d.opcode == Opcode::AddReg,
    ensures
        ({
            let d = board_decode(board_read(s, s.pc)).unwrap();
            let st = board_step(s);
            let t = st.state;
            let a = board_reg(s, d.ra);
            let b = board_reg(s, d.rb);
            let dd = board_read(s, (s.pc + 1) as u32);
            &&& st.running
            &&& st.unknown is None
            &&& t.cycles == s.cycles + 1
            &&& board_reg(t, d.ra) == (if d.ra == 5 { 0 } else { (a + b) % 0x1000000 })
            &&& forall|q: u8| q < 8 && q != d.ra ==> #[trigger] board_reg(t, q) == board_reg(s, q)
            &&& t.pc == (s.pc + 1) % 0x1000000
            &&& t.mem == s.mem
            &&& t.c == s.c
        }),
{
    let d = board_decode(board_read(s, s.pc)).unwrap();
    let a = board_reg(s, d.ra);
    let b = board_reg(s, d.rb);
    let dd = board_read(s, (s.pc + 1) as u32);
    let s1 = BoardView { cycles: (s.cycles + 1) as u64, ..s };
    assert(board_step(s) == board_do(s1, d));
    assert(board_reg(s1, d.ra) == a && board_reg(s1, d.rb) == b);
    lemma_board_reg_bound(s, d.ra);
    lemma_board_reg_bound(s, d.rb);
    lemma_m24_mod((s.pc + 1) as u32);
    lemma_board_arith(a, b);
    lemma_board_writes_only(s1, d.ra, m24(a.wrapping_add(b)));
    let t = board_step(s).state;
    assert(board_reg(t, d.ra) == board_reg(with_reg(s1, d.ra, m24(a.wrapping_add(b))), d.ra));
    assert forall|q: u8| q < 8 && q != d.ra implies #[trigger] board_reg(t, q) == board_reg(s, q) by {
        assert(board_reg(t, q) == board_reg(with_reg(s1, d.ra, m24(a.wrapping_add(b))), q));
    }

}

/// `add ra,dd` on the board: ra becomes ra plus the sign-extended dd, in 24 bits.
#[verifier::rlimit(60)]
#[verifier::spinoff_prover]
pub proof fn lemma_board_add_imm(s: BoardView)
    requires
        s.regs.len() == 8,
        !s.halted,
        board_step_fits(s),
        board_decode(board_read(s, s.pc)) matches Some(d) && d.opcode == Opcode::AddImm,
    ensures
        ({
            let d = board_decode(board_read(s, s.pc)).unwrap();
            let st = board_step(s);
            let t = st.state;
            let a = board_reg(s, d.ra);
            let b = board_reg(s, d.rb);
            let dd = board_read(s, (s.pc + 1) as u32);
            &&& st.running
            &&& st.unknown is None
            &&& t.cycles == s.cycles + 1
            &&& board_reg(t, d.ra) == (if d.ra == 5 { 0 } else { (a + sext8(dd)) % 0x1000000 })
            &&& forall|q: u8| q < 8 && q != d.ra ==> #[trigger] board_reg(t, q) == board_reg(s, q)
            &&& t.pc == (s.pc + 2) % 0x1000000
            &&& t.mem == s.mem
            &&& t.c == s.c
        }),
{
    let d = board_decode(board_read(s, s.pc)).unwrap();
    let a = board_reg(s, d.ra);
    let b = board_reg(s, d.rb);
    let dd = board_read(s, (s.pc + 1) as u32);
    let s1 = BoardView { cycles: (s.cycles + 1) as u64, ..s };
    assert(board_step(s) == board_do(s1, d));
    assert(board_reg(s1, d.ra) == a && board_reg(s1, d.rb) == b);
    lemma_board_reg_bound(s, d.ra);
    lemma_board_reg_bound(s, d.rb);
    lemma_m24_mod((s.pc + 2) as u32);
    lemma_sx8_is_sext8(dd);
    lemma_board_arith(a, sx8(dd));
    lemma_board_writes_only(s1, d.ra, m24(a.wrapping_add(sx8(dd))));
    let t = board_step(s).state;
    assert(board_reg(t, d.ra) == board_reg(with_reg(s1, d.ra, m24(a.wrapping_add(sx8(dd)))), d.ra));
    assert forall|q: u8| q < 8 && q != d.ra implies #[trigger] board_reg(t, q) == board_reg(s, q) by {
        assert(board_reg(t, q) == board_reg(with_reg(s1, d.ra, m24(a.wrapping_add(sx8(dd)))), q));
    }

}

/// `and ra,rb` on the board: ra becomes the bitwise and of ra and rb.
#[verifier::rlimit(60)]
#[verifier::spinoff_prover]
pub proof fn lemma_board_and(s: BoardView)
    requires
        s.regs.len() == 8,
        !s.halted,
        board_step_fits(s),
        board_decode(board_read(s, s.pc)) matches Some(d) && d.opcode == Opcode::And,
    ensures
        ({
            let d = board_decode(board_read(s, s.pc)).unwrap();
            let st = board_step(s);
            let t = st.state;
            let a = board_reg(s, d.ra);
            let b = board_reg(s, d.rb);
            let dd = board_read(s, (s.pc + 1) as u32);
            &&& st.running
            &&& st.unknown is None
            &&& t.cycles == s.cycles + 1
            &&& board_reg(t, d.ra) == (if d.ra == 5 { 0 } else { a & b })
            &&& forall|q: u8| q < 8 && q != d.ra ==> #[trigger] board_reg(t, q) == board_reg(s, q)
            &&& t.pc == (s.pc + 1) % 0x1000000
            &&& t.mem == s.mem
            &&& t.c == s.c
        }),
{
    let d = board_decode(board_read(s, s.pc)).unwrap();
    let a = board_reg(s, d.ra);
    let b = board_reg(s, d.rb);
    let dd = board_read(s, (s.pc + 1) as u32);
    let s1 = BoardView { cycles: (s.cycles + 1) as u64, ..s };
    assert(board_step(s) == board_do(s1, d));
    assert(board_reg(s1, d.ra) == a && board_reg(s1, d.rb) == b);
    lemma_board_reg_bound(s, d.ra);
    lemma_board_reg_bound(s, d.rb);
    lemma_m24_mod((s.pc + 1) as u32);
    assert(a & b < 0x1000000) by (bit_vector) requires a < 0x1000000;
    lemma_board_writes_only(s1, d.ra, a & b);
    let t = board_step(s).state;
    assert(board_reg(t, d.ra) == board_reg(with_reg(s1, d.ra, a & b), d.ra));
    assert forall|q: u8| q < 8 && q != d.ra implies #[trigger] board_reg(t, q) == board_reg(s, q) by {
        assert(board_reg(t, q) == board_reg(with_reg(s1, d.ra, a & b), q));
    }

}

/// `mov ra,rb` on the board: ra becomes rb, or with rb = 5 (`mov ra,c`) the condition flag as 0 or 1.
#[verifier::rlimit(60)]
#[verifier::spinoff_prover]
pub proof fn lemma_board_mov(s: BoardView)
    requires
        s.regs.len() == 8,
        !s.halted,
        board_step_fits(s),
        board_decode(board_read(s, s.pc)) matches Some(d) && d.opcode == Opcode::Mov,
    ensures
        ({
            let d = board_decode(board_read(s, s.pc)).unwrap();
            let st = board_step(s);
            let t = st.state;
            let a = board_reg(s, d.ra);
            let b = board_reg(s, d.rb);
            let dd = board_read(s, (s.pc + 1) as u32);
            &&& st.running
            &&& st.unknown is None
            &&& t.cycles == s.cycles + 1
            &&& board_reg(t, d.ra) == (if d.ra == 5 { 0 } else { (if d.rb == 5 { if s.c { 1int } else { 0int } } else { b as int }) })
            &&& forall|q: u8| q < 8 && q != d.ra ==> #[trigger] board_reg(t, q) == board_reg(s, q)
            &&& t.pc == (s.pc + 1) % 0x1000000
            &&& t.mem == s.mem
            &&& t.c == s.c
        }),
{
    let d = board_decode(board_read(s, s.pc)).unwrap();
    let a = board_reg(s, d.ra);
    let b = board_reg(s, d.rb);
    let dd = board_read(s, (s.pc + 1) as u32);
    let s1 = BoardView { cycles: (s.cycles + 1) as u64, ..s };
    assert(board_step(s) == board_do(s1, d));
    assert(board_reg(s1, d.ra) == a && board_reg(s1, d.rb) == b);
    lemma_board_reg_bound(s, d.ra);
    lemma_board_reg_bound(s, d.rb);
    lemma_m24_mod((s.pc + 1) as u32);
    lemma_board_writes_only(s1, d.ra, (if d.rb == 5 { if s1.c { 1u32 } else { 0u32 } } else { b }));
    let t = board_step(s).state;
    assert(board_reg(t, d.ra) == board_reg(with_reg(s1, d.ra, (if d.rb == 5 { if s1.c { 1u32 } else { 0u32 } } else { b })), d.ra));
    assert forall|q: u8| q < 8 && q != d.ra implies #[trigger] board_reg(t, q) == board_reg(s, q) by {
        assert(board_reg(t, q) == board_reg(with_reg(s1, d.ra, (if d.rb == 5 { if s1.c { 1u32 } else { 0u32 } } else { b })), q));
    }

}

/// `lc ra,dd` on the board: ra becomes dd sign-extended to 24 bits.
#[verifier::rlimit(60)]
#[verifier::spinoff_prover]
pub proof fn lemma_board_lc(s: BoardView)
    requires
        s.regs.len() == 8,
        !s.halted,
        board_step_fits(s),
        board_decode(board_read(s, s.pc)) matches Some(d) && d.opcode == Opcode::Lc,
    ensures
        ({
            let d = board_decode(board_read(s, s.pc)).unwrap();
            let st = board_step(s);
            let t = st.state;
            let a = board_reg(s, d.ra);
            let b = board_reg(s, d.rb);
            let dd = board_read(s, (s.pc + 1) as u32);
            &&& st.running
            &&& st.unknown is None
            &&& t.cycles == s.cycles + 1
            &&& board_reg(t, d.ra) == (if d.ra == 5 { 0 } else { sext8(dd) as int })
            &&& forall|q: u8| q < 8 && q != d.ra ==> #[trigger] board_reg(t, q) == board_reg(s, q)
            &&& t.pc == (s.pc + 2) % 0x1000000
            &&& t.mem == s.mem
            &&& t.c == s.c
        }),
{
    let d = board_decode(board_read(s, s.pc)).unwrap();
    let a = board_reg(s, d.ra);
    let b = board_reg(s, d.rb);
    let dd = board_read(s, (s.pc + 1) as u32);
    let s1 = BoardView { cycles: (s.cycles + 1) as u64, ..s };
    assert(board_step(s) == board_do(s1, d));
    assert(board_reg(s1, d.ra) == a && board_reg(s1, d.rb) == b);
    lemma_board_reg_bound(s, d.ra);
    lemma_board_reg_bound(s, d.rb);
    lemma_m24_mod((s.pc + 2) as u32);
    lemma_sx8_is_sext8(dd);
    lemma_board_writes_only(s1, d.ra, sx8(dd));
    let t = board_step(s).state;
    assert(board_reg(t, d.ra) == board_reg(with_reg(s1, d.ra, sx8(dd)), d.ra));
    assert forall|q: u8| q < 8 && q != d.ra implies #[trigger] board_reg(t, q) == board_reg(s, q) by {
        assert(board_reg(t, q) == board_reg(with_reg(s1, d.ra, sx8(dd)), q));
    }

}

/// `lcu ra,dd` on the board: ra becomes dd, zero-extended.
#[verifier::rlimit(60)]
#[verifier::spinoff_prover]
pub proof fn lemma_board_lcu(s: BoardView)
    requires
        s.regs.len() == 8,
        !s.halted,
        board_step_fits(s),
        board_decode(board_read(s, s.pc)) matches Some(d) && d.opcode == Opcode::Lcu,
    ensures
        ({
            let d = board_decode(board_read(s, s.pc)).unwrap();
            let st = board_step(s);
            let t = st.state;
            let a = board_reg(s, d.ra);
            let b = board_reg(s, d.rb);
            let dd = board_read(s, (s.pc + 1) as u32);
            &&& st.running
            &&& st.unknown is None
            &&& t.cycles == s.cycles + 1
            &&& board_reg(t, d.ra) == (if d.ra == 5 { 0 } else { dd as int })
            &&& forall|q: u8| q < 8 && q != d.ra ==> #[trigger] board_reg(t, q) == board_reg(s, q)
            &&& t.pc == (s.pc + 2) % 0x1000000
            &&& t.mem == s.mem
            &&& t.c == s.c
        }),
{
    let d = board_decode(board_read(s, s.pc)).unwrap();
    let a = board_reg(s, d.ra);
    let b = board_reg(s, d.rb);
    let dd = board_read(s, (s.pc + 1) as u32);
    let s1 = BoardView { cycles: (s.cycles + 1) as u64, ..s };
    assert(board_step(s) == board_do(s1, d));
    assert(board_reg(s1, d.ra) == a && board_reg(s1, d.rb) == b);
    lemma_board_reg_bound(s, d.ra);
    lemma_board_reg_bound(s, d.rb);
    lemma_m24_mod((s.pc + 2) as u32);
    lemma_board_writes_only(s1, d.ra, dd as u32);
    let t = board_step(s).state;
    assert(board_reg(t, d.ra) == board_reg(with_reg(s1, d.ra, dd as u32), d.ra));
    assert forall|q: u8| q < 8 && q != d.ra implies #[trigger] board_reg(t, q) == board_reg(s, q) by {
        assert(board_reg(t, q) == board_reg(with_reg(s1, d.ra, dd as u32), q));
    }

}

/// `la ra,dddddd` (ra not ir) on the board: ra becomes the little-endian 24-bit word after the opcode.
#[verifier::rlimit(60)]
#[verifier::spinoff_prover]
pub proof fn lemma_board_la(s: BoardView)
    requires
        s.regs.len() == 8,
        !s.halted,
        board_step_fits(s),
        board_decode(board_read(s, s.pc)) matches Some(d) && d.opcode == Opcode::La,
        board_decode(board_read(s, s.pc)).unwrap().ra != 7,
    ensures
        ({
            let d = board_decode(board_read(s, s.pc)).unwrap();
            let st = board_step(s);
            let t = st.state;
            let a = board_reg(s, d.ra);
            let b = board_reg(s, d.rb);
            let dd = board_read(s, (s.pc + 1) as u32);
            &&& st.running
            &&& st.unknown is None
            &&& t.cycles == s.cycles + 1
            &&& board_reg(t, d.ra) == (if d.ra == 5 { 0 } else { board_read(s, (s.pc + 1) as u32) + 256 * board_read(s, (s.pc + 2) as u32) + 65536 * board_read(s, (s.pc + 3) as u32) })
            &&& forall|q: u8| q < 8 && q != d.ra ==> #[trigger] board_reg(t, q) == board_reg(s, q)
            &&& t.pc == (s.pc + 4) % 0x1000000
            &&& t.mem == s.mem
            &&& t.c == s.c
        }),
{
    let d = board_decode(board_read(s, s.pc)).unwrap();
    let a = board_reg(s, d.ra);
    let b = board_reg(s, d.rb);
    let dd = board_read(s, (s.pc + 1) as u32);
    let s1 = BoardView { cycles: (s.cycles + 1) as u64, ..s };
    assert(board_step(s) == board_do(s1, d));
    assert(board_reg(s1, d.ra) == a && board_reg(s1, d.rb) == b);
    lemma_board_reg_bound(s, d.ra);
    lemma_board_reg_bound(s, d.rb);
    lemma_m24_mod((s.pc + 4) as u32);
    lemma_board_bytes(board_read(s, (s.pc + 1) as u32), board_read(s, (s.pc + 2) as u32), board_read(s, (s.pc + 3) as u32));
    lemma_board_writes_only(s1, d.ra, imm24_after(s1, s1.pc));
    let t = board_step(s).state;
    assert(board_reg(t, d.ra) == board_reg(with_reg(s1, d.ra, imm24_after(s1, s1.pc)), d.ra));
    assert forall|q: u8| q < 8 && q != d.ra implies #[trigger] board_reg(t, q) == board_reg(s, q) by {
        assert(board_reg(t, q) == board_reg(with_reg(s1, d.ra, imm24_after(s1, s1.pc)), q));
    }

}

/// `sub ra,rb` on the board: ra becomes ra minus rb in 24 bits, and C is set exactly when that difference is positive as a 24-bit two's complement number.
#[verifier::rlimit(60)]
#[verifier::spinoff_prover]
pub proof fn lemma_board_sub(s: BoardView)
    requires
        s.regs.len() == 8,
        !s.halted,
        board_step_fits(s),
        board_decode(board_read(s, s.pc)) matches Some(d) && d.opcode == Opcode::Sub,
    ensures
        ({
            let d = board_decode(board_read(s, s.pc)).unwrap();
            let st = board_step(s);
            let t = st.state;
            let a = board_reg(s, d.ra);
            let b = board_reg(s, d.rb);
            let dd = board_read(s, (s.pc + 1) as u32);
            &&& st.running
            &&& st.unknown is None
            &&& t.cycles == s.cycles + 1
            &&& board_reg(t, d.ra) == (if d.ra == 5 { 0 } else { (a - b) % 0x1000000 })
            &&& forall|q: u8| q < 8 && q != d.ra ==> #[trigger] board_reg(t, q) == board_reg(s, q)
            &&& t.pc == (s.pc + 1) % 0x1000000
            &&& t.mem == s.mem
            &&& t.c == ((a - b) % 0x1000000 != 0 && (a - b) % 0x1000000 < 0x800000)
        }),
{
    let d = board_decode(board_read(s, s.pc)).unwrap();
    let a = board_reg(s, d.ra);
    let b = board_reg(s, d.rb);
    let dd = board_read(s, (s.pc + 1) as u32);
    let s1 = BoardView { cycles: (s.cycles + 1) as u64, ..s };
    assert(board_step(s) == board_do(s1, d));
    assert(board_reg(s1, d.ra) == a && board_reg(s1, d.rb) == b);
    lemma_board_reg_bound(s, d.ra);
    lemma_board_reg_bound(s, d.rb);
    lemma_m24_mod((s.pc + 1) as u32);
    lemma_board_arith(a, b);
    let r = m24(a.wrapping_sub(b));
    assert(r & 0x800000 == 0 <==> r < 0x800000) by (bit_vector) requires r < 0x1000000;
    lemma_board_writes_only(s1, d.ra, r);
    let t = board_step(s).state;
    assert(board_reg(t, d.ra) == board_reg(with_reg(s1, d.ra, r), d.ra));
    assert forall|q: u8| q < 8 && q != d.ra implies #[trigger] board_reg(t, q) == board_reg(s, q) by {
        assert(board_reg(t, q) == board_reg(with_reg(s1, d.ra, r), q));
    }

}

/// `clu ra,rb` on the board: C becomes whether ra is below rb as unsigned numbers (ra first); registers and memory are kept.
#[verifier::rlimit(60)]
#[verifier::spinoff_prover]
pub proof fn lemma_board_clu(s: BoardView)
    requires
        s.regs.len() == 8,
        !s.halted,
        board_step_fits(s),
        board_decode(board_read(s, s.pc)) matches Some(d) && d.opcode == Opcode::Clu,
    ensures
        ({
            let d = board_decode(board_read(s, s.pc)).unwrap();
            let st = board_step(s);
            let t = st.state;
            let a = board_reg(s, d.ra);
            let b = board_reg(s, d.rb);
            let dd = board_read(s, (s.pc + 1) as u32);
            &&& st.running
            &&& st.unknown is None
            &&& t.cycles == s.cycles + 1
            &&& t.c == (a < b)
            &&& t.regs == s.regs
            &&& t.mem == s.mem
            &&& t.pc == (s.pc + 1) % 0x1000000
        }),
{
    let d = board_decode(board_read(s, s.pc)).unwrap();
    let a = board_reg(s, d.ra);
    let b = board_reg(s, d.rb);
    let dd = board_read(s, (s.pc + 1) as u32);
    let s1 = BoardView { cycles: (s.cycles + 1) as u64, ..s };
    assert(board_step(s) == board_do(s1, d));
    assert(board_reg(s1, d.ra) == a && board_reg(s1, d.rb) == b);
    lemma_board_reg_bound(s, d.ra);
    lemma_board_reg_bound(s, d.rb);
    lemma_m24_mod((s.pc + 1) as u32);

}

/// `ceq ra,rb` on the board: C becomes whether ra equals rb.
#[verifier::rlimit(60)]
#[verifier::spinoff_prover]
pub proof fn lemma_board_ceq(s: BoardView)
    requires
        s.regs.len() == 8,
        !s.halted,
        board_step_fits(s),
        board_decode(board_read(s, s.pc)) matches Some(d) && d.opcode == Opcode::Ceq,
    ensures
        ({
            let d = board_decode(board_read(s, s.pc)).unwrap();
            let st = board_step(s);
            let t = st.state;
            let a = board_reg(s, d.ra);
            let b = board_reg(s, d.rb);
            let dd = board_read(s, (s.pc + 1) as u32);
            &&& st.running
            &&& st.unknown is None
            &&& t.cycles == s.cycles + 1
            &&& t.c == (a == b)
            &&& t.regs == s.regs
            &&& t.mem == s.mem
            &&& t.pc == (s.pc + 1) % 0x1000000
        }),
{
    let d = board_decode(board_read(s, s.pc)).unwrap();
    let a = board_reg(s, d.ra);
    let b = board_reg(s, d.rb);
    let dd = board_read(s, (s.pc + 1) as u32);
    let s1 = BoardView { cycles: (s.cycles + 1) as u64, ..s };
    assert(board_step(s) == board_do(s1, d));
    assert(board_reg(s1, d.ra) == a && board_reg(s1, d.rb) == b);
    lemma_board_reg_bound(s, d.ra);
    lemma_board_reg_bound(s, d.rb);
    lemma_m24_mod((s.pc + 1) as u32);

}

/// `bra dd` on the board: the program counter becomes the address after the branch plus the sign-extended dd.
#[verifier::rlimit(60)]
#[verifier::spinoff_prover]
pub proof fn lemma_board_bra(s: BoardView)
    requires
        s.regs.len() == 8,
        !s.halted,
        board_step_fits(s),
        board_decode(board_read(s, s.pc)) matches Some(d) && d.opcode == Opcode::Bra,
    ensures
        ({
            let d = board_decode(board_read(s, s.pc)).unwrap();
            let st = board_step(s);
            let t = st.state;
            let a = board_reg(s, d.ra);
            let b = board_reg(s, d.rb);
            let dd = board_read(s, (s.pc + 1) as u32);
            &&& st.running
            &&& st.unknown is None
            &&& t.cycles == s.cycles + 1
            &&& t.pc == ((s.pc + 2) % 0x1000000 + sext8(dd)) % 0x1000000
            &&& t.regs == s.regs
            &&& t.mem == s.mem
            &&& t.c == s.c
        }),
{
    let d = board_decode(board_read(s, s.pc)).unwrap();
    let a = board_reg(s, d.ra);
    let b = board_reg(s, d.rb);
    let dd = board_read(s, (s.pc + 1) as u32);
    let s1 = BoardView { cycles: (s.cycles + 1) as u64, ..s };
    assert(board_step(s) == board_do(s1, d));
    assert(board_reg(s1, d.ra) == a && board_reg(s1, d.rb) == b);
    lemma_board_reg_bound(s, d.ra);
    lemma_board_reg_bound(s, d.rb);
    lemma_m24_mod((s.pc + 2) as u32);
    lemma_sx8_is_sext8(dd);
    lemma_board_arith(m24((s.pc + 2) as u32), sx8(dd));
    lemma_m24_mod((s.pc + 2) as u32);

}

/// `brf dd` on the board: branches as `bra` when C is clear, else goes on after it.
#[verifier::rlimit(60)]
#[verifier::spinoff_prover]
pub proof fn lemma_board_brf(s: BoardView)
    requires
        s.regs.len() == 8,
        !s.halted,
        board_step_fits(s),
        board_decode(board_read(s, s.pc)) matches Some(d) && d.opcode == Opcode::Brf,
    ensures
        ({
            let d = board_decode(board_read(s, s.pc)).unwrap();
            let st = board_step(s);
            let t = st.state;
            let a = board_reg(s, d.ra);
            let b = board_reg(s, d.rb);
            let dd = board_read(s, (s.pc + 1) as u32);
            &&& st.running
            &&& st.unknown is None
            &&& t.cycles == s.cycles + 1
            &&& t.pc == (if s.c { (s.pc + 2) % 0x1000000 } else { ((s.pc + 2) % 0x1000000 + sext8(dd)) % 0x1000000 })
            &&& t.regs == s.regs
            &&& t.mem == s.mem
        }),
{
    let d = board_decode(board_read(s, s.pc)).unwrap();
    let a = board_reg(s, d.ra);
    let b = board_reg(s, d.rb);
    let dd = board_read(s, (s.pc + 1) as u32);
    let s1 = BoardView { cycles: (s.cycles + 1) as u64, ..s };
    assert(board_step(s) == board_do(s1, d));
    assert(board_reg(s1, d.ra) == a && board_reg(s1, d.rb) == b);
    lemma_board_reg_bound(s, d.ra);
    lemma_board_reg_bound(s, d.rb);
    lemma_m24_mod((s.pc + 2) as u32);
    lemma_sx8_is_sext8(dd);
    lemma_board_arith(m24((s.pc + 2) as u32), sx8(dd));
    lemma_m24_mod((s.pc + 2) as u32);

}

/// `brt dd` on the board: branches as `bra` when C is set, else goes on after it.
#[verifier::rlimit(60)]
#[verifier::spinoff_prover]
pub proof fn lemma_board_brt(s: BoardView)
    requires
        s.regs.len() == 8,
        !s.halted,
        board_step_fits(s),
        board_decode(board_read(s, s.pc)) matches Some(d) && d.opcode == Opcode::Brt,
    ensures
        ({
            let d = board_decode(board_read(s, s.pc)).unwrap();
            let st = board_step(s);
            let t = st.state;
            let a = board_reg(s, d.ra);
            let b = board_reg(s, d.rb);
            let dd = board_read(s, (s.pc + 1) as u32);
            &&& st.running
            &&& st.unknown is None
            &&& t.cycles == s.cycles + 1
            &&& t.pc == (if s.c { ((s.pc + 2) % 0x1000000 + sext8(dd)) % 0x1000000 } else { (s.pc + 2) % 0x1000000 })
            &&& t.regs == s.regs
            &&& t.mem == s.mem
        }),
{
    let d = board_decode(board_read(s, s.pc)).unwrap();
    let a = board_reg(s, d.ra);
    let b = board_reg(s, d.rb);
    let dd = board_read(s, (s.pc + 1) as u32);
    let s1 = BoardView { cycles: (s.cycles + 1) as u64, ..s };
    assert(board_step(s) == board_do(s1, d));
    assert(board_reg(s1, d.ra) == a && board_reg(s1, d.rb) == b);
    lemma_board_reg_bound(s, d.ra);
    lemma_board_reg_bound(s, d.rb);
    lemma_m24_mod((s.pc + 2) as u32);
    lemma_sx8_is_sext8(dd);
    lemma_board_arith(m24((s.pc + 2) as u32), sx8(dd));
    lemma_m24_mod((s.pc + 2) as u32);

}

/// `lw ra,dd(rb)` on the board: ra becomes the little-endian word read at rb plus the sign-extended dd (24 bits).
#[verifier::rlimit(60)]
#[verifier::spinoff_prover]
pub proof fn lemma_board_lw(s: BoardView)
    requires
        s.regs.len() == 8,
        !s.halted,
        board_step_fits(s),
        board_decode(board_read(s, s.pc)) matches Some(d) && d.opcode == Opcode::Lw,
    ensures
        ({
            let d = board_decode(board_read(s, s.pc)).unwrap();
            let st = board_step(s);
            let t = st.state;
            let a = board_reg(s, d.ra);
            let b = board_reg(s, d.rb);
            let dd = board_read(s, (s.pc + 1) as u32);
            &&& st.running
            &&& st.unknown is None
            &&& t.cycles == s.cycles + 1
            &&& board_reg(t, d.ra) == (if d.ra == 5 { 0 } else { board_read(s, ((b + sext8(dd)) % 0x1000000) as u32) + 256 * board_read(s, (((b + sext8(dd)) % 0x1000000) + 1) as u32) + 65536 * board_read(s, (((b + sext8(dd)) % 0x1000000) + 2) as u32) })
            &&& forall|q: u8| q < 8 && q != d.ra ==> #[trigger] board_reg(t, q) == board_reg(s, q)
            &&& t.pc == (s.pc + 2) % 0x1000000
            &&& t.mem == s.mem
            &&& t.c == s.c
        }),
{
    let d = board_decode(board_read(s, s.pc)).unwrap();
    let a = board_reg(s, d.ra);
    let b = board_reg(s, d.rb);
    let dd = board_read(s, (s.pc + 1) as u32);
    let s1 = BoardView { cycles: (s.cycles + 1) as u64, ..s };
    assert(board_step(s) == board_do(s1, d));
    assert(board_reg(s1, d.ra) == a && board_reg(s1, d.rb) == b);
    lemma_board_reg_bound(s, d.ra);
    lemma_board_reg_bound(s, d.rb);
    lemma_m24_mod((s.pc + 2) as u32);
    lemma_sx8_is_sext8(dd);
    lemma_board_arith(b, sx8(dd));
    lemma_board_bytes(board_read(s, m24(b.wrapping_add(sx8(dd)))), board_read(s, (m24(b.wrapping_add(sx8(dd))) + 1) as u32), board_read(s, (m24(b.wrapping_add(sx8(dd))) + 2) as u32));
    lemma_board_writes_only(s1, d.ra, word_from(s1, m24(b.wrapping_add(sx8(dd)))));
    let t = board_step(s).state;
    assert(board_reg(t, d.ra) == board_reg(with_reg(s1, d.ra, word_from(s1, m24(b.wrapping_add(sx8(dd))))), d.ra));
    assert forall|q: u8| q < 8 && q != d.ra implies #[trigger] board_reg(t, q) == board_reg(s, q) by {
        assert(board_reg(t, q) == board_reg(with_reg(s1, d.ra, word_from(s1, m24(b.wrapping_add(sx8(dd))))), q));
    }

}

/// `pop ra` (ra not sp) on the board: ra becomes the little-endian word at sp, and sp goes up by 3 (24 bits).
#[verifier::rlimit(60)]
#[verifier::spinoff_prover]
pub proof fn lemma_board_pop(s: BoardView)
    requires
        s.regs.len() == 8,
        !s.halted,
        board_step_fits(s),
        board_decode(board_read(s, s.pc)) matches Some(d) && d.opcode == Opcode::Pop,
        board_decode(board_read(s, s.pc)).unwrap().ra != 4,
    ensures
        ({
            let d = board_decode(board_read(s, s.pc)).unwrap();
            let st = board_step(s);
            let t = st.state;
            let a = board_reg(s, d.ra);
            let b = board_reg(s, d.rb);
            let dd = board_read(s, (s.pc + 1) as u32);
            &&& st.running
            &&& st.unknown is None
            &&& t.cycles == s.cycles + 1
            &&& board_reg(t, d.ra) == (if d.ra == 5 { 0 } else { board_read(s, board_reg(s, 4)) + 256 * board_read(s, (board_reg(s, 4) + 1) as u32) + 65536 * board_read(s, (board_reg(s, 4) + 2) as u32) })
            &&& board_reg(t, 4) == (board_reg(s, 4) + 3) % 0x1000000
            &&& t.pc == (s.pc + 1) % 0x1000000
            &&& t.mem == s.mem
        }),
{
    let d = board_decode(board_read(s, s.pc)).unwrap();
    let a = board_reg(s, d.ra);
    let b = board_reg(s, d.rb);
    let dd = board_read(s, (s.pc + 1) as u32);
    let s1 = BoardView { cycles: (s.cycles + 1) as u64, ..s };
    assert(board_step(s) == board_do(s1, d));
    assert(board_reg(s1, d.ra) == a && board_reg(s1, d.rb) == b);
    lemma_m24_mod((s.pc + 1) as u32);
    let sp = board_reg(s, 4);
    lemma_board_reg_bound(s, 4);
    lemma_board_bytes(board_read(s, sp), board_read(s, (sp + 1) as u32), board_read(s, (sp + 2) as u32));
    let s2 = with_reg(s1, d.ra, word_from(s1, sp));
    lemma_board_writes_only(s1, d.ra, word_from(s1, sp));
    lemma_board_writes_only(s2, 4, sp.wrapping_add(3));
    let t = board_step(s).state;
    assert(board_reg(t, 4) == board_reg(with_reg(s2, 4, sp.wrapping_add(3)), 4));
    assert(board_reg(t, d.ra) == board_reg(with_reg(s2, 4, sp.wrapping_add(3)), d.ra));
    assert(sp.wrapping_add(3) == sp + 3);

}

/// An address below the I/O page is its own low 24 bits and lies outside the page.
proof fn lemma_ram_address(x: u32)
    by (bit_vector)
    requires
        x < 0xFF0000,
    ensures
        x & 0xFFFFFF == x,
        x & 0xFF0000 != 0xFF0000,
{
}

/// A byte written to RAM (below the I/O page) is read back at that address; nothing is shown.
proof fn lemma_board_ram_write(s: BoardView, addr: u32, val: u8)
    requires
        s.mem.len() > 0,
        addr < 0xFF0000,
    ensures
        board_write(s, addr, val).1 == Seq::<u8>::empty(),
        board_read(board_write(s, addr, val).0, addr) == val,
        board_write(s, addr, val).0 == (BoardView { mem: board_write(s, addr, val).0.mem, ..s }),
        board_write(s, addr, val).0.mem.len() == s.mem.len(),
{
    lemma_ram_address(addr);
}

/// `sb ra,dd(rb)` on the board: the low byte of ra is written at rb plus the sign-extended dd; in RAM it reads back there, at the LED address it becomes the LED value and is shown when it changes what the LEDs show.
#[verifier::rlimit(60)]
#[verifier::spinoff_prover]
pub proof fn lemma_board_sb(s: BoardView)
    requires
        s.regs.len() == 8,
        !s.halted,
        board_step_fits(s),
        board_decode(board_read(s, s.pc)) matches Some(d) && d.opcode == Opcode::Sb,
        s.mem.len() > 0,
    ensures
        ({
            let d = board_decode(board_read(s, s.pc)).unwrap();
            let st = board_step(s);
            let t = st.state;
            let a = board_reg(s, d.ra);
            let b = board_reg(s, d.rb);
            let dd = board_read(s, (s.pc + 1) as u32);
            &&& st.running
            &&& st.unknown is None
            &&& t.cycles == s.cycles + 1
            &&& ((b + sext8(dd)) % 0x1000000) < 0xFF0000 ==> board_read(t, ((b + sext8(dd)) % 0x1000000) as u32) == (a % 256) as u8 && st.leds.len() == 0
            &&& ((b + sext8(dd)) % 0x1000000) == 0xFF0000 ==> t.leds == (a % 256) as u8 && st.leds == (if (a % 256) as u8 != s.prev_leds { seq![(a % 256) as u8] } else { Seq::<u8>::empty() })
            &&& t.regs == s.regs
            &&& t.pc == (s.pc + 2) % 0x1000000
        }),
{
    let d = board_decode(board_read(s, s.pc)).unwrap();
    let a = board_reg(s, d.ra);
    let b = board_reg(s, d.rb);
    let dd = board_read(s, (s.pc + 1) as u32);
    let s1 = BoardView { cycles: (s.cycles + 1) as u64, ..s };
    assert(board_step(s) == board_do(s1, d));
    assert(board_reg(s1, d.ra) == a && board_reg(s1, d.rb) == b);
    lemma_board_reg_bound(s, d.ra);
    lemma_board_reg_bound(s, d.rb);
    lemma_m24_mod((s.pc + 2) as u32);
    lemma_sx8_is_sext8(dd);
    lemma_board_arith(b, sx8(dd));
    let addr = m24(b.wrapping_add(sx8(dd)));
    assert((a as u8) == (a % 256) as u8) by (bit_vector);
    if addr < 0xFF0000 {
        lemma_board_ram_write(s1, addr, a as u8);
    } else if addr == 0xFF0000 {
        lemma_m24_mod(addr);
    }

}

/// A word written to RAM (below the I/O page) of a full-size board is read back there,
/// little-endian; nothing is shown and only the memory changes.
proof fn lemma_board_ram_word(s: BoardView, addr: u32, v: u32)
    requires
        s.mem.len() == BOARD_MEMORY,
        addr + 2 < 0xFF0000,
    ensures
        ({
            let (t, e) = write_word(s, addr, v);
            &&& e == Seq::<u8>::empty()
            &&& t == (BoardView { mem: t.mem, ..s })
            &&& t.mem.len() == s.mem.len()
            &&& board_read(t, addr) + 256 * board_read(t, (addr + 1) as u32) + 65536 * board_read(t, (addr + 2)
                as u32) == v % 0x1000000
        }),
{
    let b0 = (v & 0xFF) as u8;
    let b1 = ((v >> 8) & 0xFF) as u8;
    let b2 = ((v >> 16) & 0xFF) as u8;
    lemma_board_ram_write(s, addr, b0);
    let s1 = board_write(s, addr, b0).0;
    lemma_board_ram_write(s1, (addr + 1) as u32, b1);
    let s2 = board_write(s1, (addr + 1) as u32, b1).0;
    lemma_board_ram_write(s2, (addr + 2) as u32, b2);
    let s3 = board_write(s2, (addr + 2) as u32, b2).0;
    lemma_ram_address(addr);
    lemma_ram_address((addr + 1) as u32);
    lemma_ram_address((addr + 2) as u32);
    let i0 = (addr as int) % 65536;
    let i1 = (addr + 1) % 65536;
    let i2 = (addr + 2) % 65536;
    assert(i0 != i1 && i0 != i2 && i1 != i2);
    assert(s1.mem == s.mem.update(i0, b0));
    assert(s2.mem == s1.mem.update(i1, b1));
    assert(s3.mem == s2.mem.update(i2, b2));
    assert(s3.mem[i0] == b0);
    assert(s3.mem[i1] == b1);
    assert(s3.mem[i2] == b2);
    assert(board_read(s3, addr) == b0);
    assert(board_read(s3, (addr + 1) as u32) == b1);
    assert(board_read(s3, (addr + 2) as u32) == b2);
    assert(b0 + 256 * b1 + 65536 * b2 == v % 0x1000000) by (bit_vector)
        requires
            b0 == (v & 0xFF) as u8,
            b1 == ((v >> 8) & 0xFF) as u8,
            b2 == ((v >> 16) & 0xFF) as u8,
    ;
}

/// `sw ra,dd(rb)` on a full-size board: ra is written as a little-endian word at rb plus the sign-extended dd and, in RAM, reads back there.
#[verifier::rlimit(60)]
#[verifier::spinoff_prover]
pub proof fn lemma_board_sw(s: BoardView)
    requires
        s.regs.len() == 8,
        !s.halted,
        board_step_fits(s),
        board_decode(board_read(s, s.pc)) matches Some(d) && d.opcode == Opcode::Sw,
        s.mem.len() == BOARD_MEMORY,
    ensures
        ({
            let d = board_decode(board_read(s, s.pc)).unwrap();
            let st = board_step(s);
            let t = st.state;
            let a = board_reg(s, d.ra);
            let b = board_reg(s, d.rb);
            let dd = board_read(s, (s.pc + 1) as u32);
            &&& st.running
            &&& st.unknown is None
            &&& t.cycles == s.cycles + 1
            &&& ((b + sext8(dd)) % 0x1000000) + 2 < 0xFF0000 ==> board_read(t, ((b + sext8(dd)) % 0x1000000) as u32) + 256 * board_read(t, (((b + sext8(dd)) % 0x1000000) + 1) as u32) + 65536 * board_read(t, (((b + sext8(dd)) % 0x1000000) + 2) as u32) == a && st.leds.len() == 0
            &&& t.regs == s.regs
            &&& t.pc == (s.pc + 2) % 0x1000000
        }),
{
    let d = board_decode(board_read(s, s.pc)).unwrap();
    let a = board_reg(s, d.ra);
    let b = board_reg(s, d.rb);
    let dd = board_read(s, (s.pc + 1) as u32);
    let s1 = BoardView { cycles: (s.cycles + 1) as u64, ..s };
    assert(board_step(s) == board_do(s1, d));
    assert(board_reg(s1, d.ra) == a && board_reg(s1, d.rb) == b);
    lemma_board_reg_bound(s, d.ra);
    lemma_board_reg_bound(s, d.rb);
    lemma_m24_mod((s.pc + 2) as u32);
    lemma_sx8_is_sext8(dd);
    lemma_board_arith(b, sx8(dd));
    let addr = m24(b.wrapping_add(sx8(dd)));
    if addr + 2 < 0xFF0000 {
        lemma_board_ram_word(s1, addr, a);
    }

}

/// `push ra` (ra not sp or z) on a full-size board: sp goes down by 3 (24 bits) and ra is written at the new sp, reading back there in RAM.
#[verifier::rlimit(100)]
#[verifier::spinoff_prover]
pub proof fn lemma_board_push(s: BoardView)
    requires
        s.regs.len() == 8,
        !s.halted,
        board_step_fits(s),
        board_decode(board_read(s, s.pc)) matches Some(d) && d.opcode == Opcode::Push,
        s.mem.len() == BOARD_MEMORY,
        board_decode(board_read(s, s.pc)).unwrap().ra != 4,
        board_decode(board_read(s, s.pc)).unwrap().ra != 5,
    ensures
        ({
            let d = board_decode(board_read(s, s.pc)).unwrap();
            let st = board_step(s);
            let t = st.state;
            let a = board_reg(s, d.ra);
            let b = board_reg(s, d.rb);
            let dd = board_read(s, (s.pc + 1) as u32);
            &&& st.running
            &&& st.unknown is None
            &&& t.cycles == s.cycles + 1
            &&& board_reg(t, 4) == ((board_reg(s, 4) - 3) % 0x1000000)
            &&& ((board_reg(s, 4) - 3) % 0x1000000) + 2 < 0xFF0000 ==> board_read(t, ((board_reg(s, 4) - 3) % 0x1000000) as u32) + 256 * board_read(t, (((board_reg(s, 4) - 3) % 0x1000000) + 1) as u32) + 65536 * board_read(t, (((board_reg(s, 4) - 3) % 0x1000000) + 2) as u32) == a
            &&& t.pc == (s.pc + 1) % 0x1000000
        }),
{
    let d = board_decode(board_read(s, s.pc)).unwrap();
    let a = board_reg(s, d.ra);
    let b = board_reg(s, d.rb);
    let dd = board_read(s, (s.pc + 1) as u32);
    let s1 = BoardView { cycles: (s.cycles + 1) as u64, ..s };
    assert(board_step(s) == board_do(s1, d));
    assert(board_reg(s1, d.ra) == a && board_reg(s1, d.rb) == b);
    lemma_board_reg_bound(s, d.ra);
    lemma_board_reg_bound(s, d.rb);
    lemma_m24_mod((s.pc + 1) as u32);
    lemma_board_reg_bound(s, 4);
    let sp0 = board_reg(s, 4);
    lemma_board_arith(sp0, 3);
    let sp = m24(sp0.wrapping_sub(3));
    let s2 = with_reg(s1, 4, sp);
    lemma_board_writes_only(s1, 4, sp);
    assert(board_reg(s2, d.ra) == a);
    assert(sp < 0x1000000);
    if sp + 2 < 0xFF0000 {
        lemma_board_ram_word(s2, sp, a);
    }

}

/// `la ir,dddddd` on the board: with the address 0 (`halt`) the board halts and stops,
/// keeping everything else; with another address it jumps there.
pub proof fn lemma_board_la_ir(s: BoardView)
    requires
        !s.halted,
        board_step_fits(s),
        board_decode(board_read(s, s.pc)) matches Some(d) && d.opcode == Opcode::La && d.ra == 7,
    ensures
        ({
            let st = board_step(s);
            let target = board_read(s, (s.pc + 1) as u32) + 256 * board_read(s, (s.pc + 2) as u32) + 65536
                * board_read(s, (s.pc + 3) as u32);
            &&& target == 0 ==> !st.running && st.state.halted && st.unknown is None && st.state.pc == s.pc
                && st.state.regs == s.regs && st.state.mem == s.mem
            &&& target != 0 ==> st.running && st.state.pc == target && st.state.regs == s.regs
        }),
{
    lemma_board_bytes(board_read(s, (s.pc + 1) as u32), board_read(s, (s.pc + 2) as u32), board_read(s, (s.pc + 3) as u32));
}

/// What a step of the board reported.
pub struct StepOutcome {
    /// The board may go on.
    pub running: bool,
    /// The LED values it displayed, in order.
    pub leds: Vec<u8>,
    /// An opcode it does not know, with the program counter it was found at.
    pub unknown_opcode: Option<(u8, u32)>,
}

/// The demo board.
pub struct Cpu {
    pub pc: u32,
    pub regs: [u32; 8],
    pub c: bool,
    pub mem: Vec<u8>,
    pub halted: bool,
    pub leds: u8,
    pub prev_leds: u8,
    pub cycles: u64,
}

impl View for Cpu {
    type V = BoardView;

    open spec fn view(&self) -> BoardView {
        BoardView {
            pc: self.pc,
            regs: self.regs@,
            c: self.c,
            mem: self.mem@,
            halted: self.halted,
            leds: self.leds,
            prev_leds: self.prev_leds,
            cycles: self.cycles,
        }
    }
}

impl Cpu {
    /// The RAM is not empty.
    pub open spec fn wf(&self) -> bool {
        self.mem@.len() > 0
    }

    /// A board with cleared RAM, the stack pointer just below the I/O region and no LED value
    /// shown yet.
    pub fn new() -> (r: Self)
        ensures
            r.wf(),
            r@.pc == 0,
            r@.regs == seq![0u32, 0, 0, 0, 0xFE00, 0, 0, 0],
            !r@.c,
            r@.mem == Seq::new(BOARD_MEMORY as nat, |i: int| 0u8),
            !r@.halted,
            r@.leds == 0,
            r@.prev_leds == 0xFF,
            r@.cycles == 0,
    {
        let mut cpu = Self {
            pc: 0,
            regs: [0; 8],
            c: false,
            mem: vec![0; BOARD_MEMORY],
            halted: false,
            leds: 0,
            prev_leds: 0xFF,
            cycles: 0,
        };
        cpu.regs[4] = 0xFE00;
        assert(cpu.regs@ =~= seq![0u32, 0, 0, 0, 0xFE00, 0, 0, 0]);
        assert(cpu.mem@ =~= Seq::new(BOARD_MEMORY as nat, |i: int| 0u8));
        cpu
    }

    /// The low 24 bits of a value.
    pub fn mask24(v: u32) -> (r: u32)
        ensures
            r == m24(v),
            r < 0x1000000,
    {
        proof {
            lemma_mask24(v);
        }
        v & 0xFFFFFF
    }

    /// A byte sign-extended to 24 bits.
    pub fn sign_ext8(v: u8) -> (r: u32)
        ensures
            r == sx8(v),
    {
        if v & 0x80 != 0 {
            0xFFFF00 | (v as u32)
        } else {
            v as u32
        }
    }

    /// Read a byte.
    pub fn read_byte(&self, addr: u32) -> (r: u8)
        requires
            self.wf(),
        ensures
            r == board_read(self@, addr),
    {
        let addr = addr & 0xFFFFFF;
        if (addr & 0xFF0000) == 0xFF0000 {
            0
        } else {
            self.mem[(addr as usize) % self.mem.len()]
        }
    }

    /// Write a byte; the LED value when the write changes what the LEDs show.
    pub fn write_byte(&mut self, addr: u32, val: u8) -> (r: Option<u8>)
        requires
            old(self).wf(),
        ensures
            final(self).wf(),
            (final(self)@, match r {
                Some(v) => seq![v],
                None => Seq::empty(),
            }) == board_write(old(self)@, addr, val),
    {
        let addr = addr & 0xFFFFFF;
        if addr == IO_LEDSWDAT {
            self.leds = val;
            if self.leds != self.prev_leds {
                self.prev_leds = self.leds;
                return Some(val);
            }
            None
        } else if (addr & 0xFF0000) != 0xFF0000 {
            let len = self.mem.len();
            self.mem.set((addr as usize) % len, val);
            None
        } else {
            None
        }
    }

    /// Read a register.
    pub fn get_reg(&self, r: u8) -> (v: u32)
        ensures
            v == board_reg(self@, r),
            v < 0x1000000,
    {
        if r == 5 {
            0
        } else {
            proof {
                lemma_low3(r);
                lemma_mask24(self.regs@[(r & 7) as int]);
            }
            self.regs[(r & 7) as usize] & 0xFFFFFF
        }
    }

    /// Write a register.
    pub fn set_reg(&mut self, r: u8, v: u32)
        ensures
            final(self)@ == with_reg(old(self)@, r, v),
    {
        if r != 5 {
            proof {
                lemma_low3(r);
            }
            self.regs[(r & 7) as usize] = v & 0xFFFFFF;
        }
    }

    /// Load a program from address 0; bytes beyond the RAM are dropped.
    pub fn load_program(&mut self, data: &[u8])
        requires
            old(self).wf(),
        ensures
            final(self).wf(),
            final(self)@ == (BoardView {
                mem: Seq::new(
                    old(self)@.mem.len(),
                    |i: int| if i < data@.len() { data@[i] } else { old(self)@.mem[i] },
                ),
                ..old(self)@
            }),
    {
        let ghost m0 = self@;
        let mut i: usize = 0;
        assert(self.mem@ =~= Seq::new(
            m0.mem.len(),
            |j: int| if j < i && j < data@.len() { data@[j] } else { m0.mem[j] },
        ));
        while i < data.len()
            invariant
                i <= data@.len(),
                self.wf(),
                self@ == (BoardView {
                    mem: Seq::new(
                        m0.mem.len(),
                        |j: int| if j < i && j < data@.len() { data@[j] } else { m0.mem[j] },
                    ),
                    ..m0
                }),
                m0 == old(self)@,
            decreases data@.len() - i,
        {
            if i < self.mem.len() {
                self.mem.set(i, data[i]);
            }
            i += 1;
            assert(self.mem@ =~= Seq::new(
                m0.mem.len(),
                |j: int| if j < i && j < data@.len() { data@[j] } else { m0.mem[j] },
            ));
        }
        assert(self.mem@ =~= Seq::new(
            m0.mem.len(),
            |j: int| if j < data@.len() { data@[j] } else { m0.mem[j] },
        ));
    }

    /// Write the low three bytes of `v` from `a` on, collecting the LED values shown.
    fn write_word(&mut self, a: u32, v: u32, leds: &mut Vec<u8>)
        requires
            old(self).wf(),
            a + 2 <= u32::MAX,
        ensures
            final(self).wf(),
            (final(self)@, final(leds)@.skip(old(leds)@.len() as int)) == write_word(old(self)@, a, v),
            final(leds)@.take(old(leds)@.len() as int) == old(leds)@,
    {
        let ghost l0 = leds@;
        if let Some(x) = self.write_byte(a, (v & 0xFF) as u8) {
            leds.push(x);
        }
        if let Some(x) = self.write_byte(a + 1, ((v >> 8) & 0xFF) as u8) {
            leds.push(x);
        }
        if let Some(x) = self.write_byte(a + 2, ((v >> 16) & 0xFF) as u8) {
            leds.push(x);
        }
        let ghost (s1, e1) = board_write(old(self)@, a, (v & 0xFF) as u8);
        let ghost (s2, e2) = board_write(s1, (a + 1) as u32, ((v >> 8) & 0xFF) as u8);
        let ghost (s3, e3) = board_write(s2, (a + 2) as u32, ((v >> 16) & 0xFF) as u8);
        assert(leds@ =~= l0 + e1 + e2 + e3);
        assert(leds@.skip(l0.len() as int) =~= e1 + e2 + e3);
        assert(leds@.take(l0.len() as int) =~= l0);
    }

    /// The little-endian 24-bit value in the three bytes from `a` on.
    fn read_word(&self, a: u32) -> (r: u32)
        requires
            self.wf(),
            a + 2 <= u32::MAX,
        ensures
            r == word_from(self@, a),
    {
        self.read_byte(a) as u32 | ((self.read_byte(a + 1) as u32) << 8) | ((self.read_byte(a + 2) as u32) << 16)
    }

    /// Carry out instruction `d` at the program counter (its cycle already counted).
    #[verifier::rlimit(80)]
    fn execute(&mut self, d: DecodedInstruction) -> (r: StepOutcome)
        requires
            old(self).wf(),
            board_runs(d.opcode),
            d.ra < 8,
            d.rb < 8,
            old(self).pc + inst_reach(d) <= u32::MAX,
        ensures
            final(self).wf(),
            final(self)@ == board_do(old(self)@, d).state,
            r.running == board_do(old(self)@, d).running,
            r.leds@ == board_do(old(self)@, d).leds,
            r.unknown_opcode == board_do(old(self)@, d).unknown,
    {
        let mut leds: Vec<u8> = Vec::new();
        let ghost s = self@;
        let pc = self.pc;
        let ra = d.ra;
        let rb = d.rb;
        proof {
            assert(leds@ =~= Seq::<u8>::empty());
        }
        match d.opcode {
            Opcode::La => {
                let v = self.read_byte(pc + 1) as u32 | ((self.read_byte(pc + 2) as u32) << 8)
                    | ((self.read_byte(pc + 3) as u32) << 16);
                if ra == 7 {
                    if v == 0 {
                        self.halted = true;
                        return StepOutcome { running: false, leds, unknown_opcode: None };
                    }
                    self.pc = v;
                } else {
                    self.set_reg(ra, v);
                    self.pc = Self::mask24(pc + 4);
                }
            },
            Opcode::Lc => {
                let imm = self.read_byte(pc + 1);
                self.set_reg(ra, Self::sign_ext8(imm));
                self.pc = Self::mask24(pc + 2);
            },
            Opcode::Lcu => {
                let imm = self.read_byte(pc + 1);
                self.set_reg(ra, imm as u32);
                self.pc = Self::mask24(pc + 2);
            },
            Opcode::AddReg => {
                let v = Self::mask24(self.get_reg(ra).wrapping_add(self.get_reg(rb)));
                self.set_reg(ra, v);
                self.pc = Self::mask24(pc + 1);
            },
            Opcode::AddImm => {
                let imm = self.read_byte(pc + 1);
                let v = Self::mask24(self.get_reg(ra).wrapping_add(Self::sign_ext8(imm)));
                self.set_reg(ra, v);
                self.pc = Self::mask24(pc + 2);
            },
            Opcode::Sub => {
                let result = Self::mask24(self.get_reg(ra).wrapping_sub(self.get_reg(rb)));
                self.set_reg(ra, result);
                self.c = result != 0 && (result & 0x800000) == 0;
                self.pc = Self::mask24(pc + 1);
            },
            Opcode::Mov => {
                let v: u32 = if rb == 5 {
                    if self.c { 1 } else { 0 }
                } else {
                    self.get_reg(rb)
                };
                self.set_reg(ra, v);
                self.pc = Self::mask24(pc + 1);
            },
            Opcode::And => {
                let v = self.get_reg(ra) & self.get_reg(rb);
                self.set_reg(ra, v);
                self.pc = Self::mask24(pc + 1);
            },
            Opcode::Sb => {
                let imm = self.read_byte(pc + 1);
                let addr = Self::mask24(self.get_reg(rb).wrapping_add(Self::sign_ext8(imm)));
                let v = #[verifier::truncate] (self.get_reg(ra) as u8);
                if let Some(x) = self.write_byte(addr, v) {
                    leds.push(x);
                }
                self.pc = Self::mask24(pc + 2);
                proof {
                    let (s1, e) = board_write(s, addr, v);
                    assert(leds@ =~= e);
                }
            },
            Opcode::Sw => {
                let imm = self.read_byte(pc + 1);
                let addr = Self::mask24(self.get_reg(rb).wrapping_add(Self::sign_ext8(imm)));
                let v = self.get_reg(ra);
                self.write_word(addr, v, &mut leds);
                self.pc = Self::mask24(pc + 2);
                assert(leds@ =~= leds@.skip(0));
            },
            Opcode::Lw => {
                let imm = self.read_byte(pc + 1);
                let addr = Self::mask24(self.get_reg(rb).wrapping_add(Self::sign_ext8(imm)));
                let v = self.read_word(addr);
                self.set_reg(ra, v);
                self.pc = Self::mask24(pc + 2);
            },
            Opcode::Ceq => {
                self.c = self.get_reg(ra) == self.get_reg(rb);
                self.pc = Self::mask24(pc + 1);
            },
            Opcode::Clu => {
                self.c = self.get_reg(ra) < self.get_reg(rb);
                self.pc = Self::mask24(pc + 1);
            },
            Opcode::Bra | Opcode::Brf | Opcode::Brt => {
                let imm = self.read_byte(pc + 1);
                let next = Self::mask24(pc + 2);
                let taken = d.opcode == Opcode::Bra || (d.opcode == Opcode::Brf && !self.c) || (
                d.opcode == Opcode::Brt && self.c);
                if taken {
                    self.pc = Self::mask24(next.wrapping_add(Self::sign_ext8(imm)));
                } else {
                    self.pc = next;
                }
            },
            Opcode::Push => {
                let sp = Self::mask24(self.get_reg(4).wrapping_sub(3));
                self.set_reg(4, sp);
                let v = self.get_reg(ra);
                self.write_word(sp, v, &mut leds);
                self.pc = Self::mask24(pc + 1);
                assert(leds@ =~= leds@.skip(0));
            },
            Opcode::Pop => {
                let sp = self.get_reg(4);
                let v = self.read_word(sp);
                self.set_reg(ra, v);
                self.set_reg(4, sp.wrapping_add(3));
                self.pc = Self::mask24(pc + 1);
            },
            _ => {},
        }
        StepOutcome { running: true, leds, unknown_opcode: None }
    }

    /// The instruction the board runs for first byte `b0`, if any.
    fn decode(b0: u8) -> (r: Option<DecodedInstruction>)
        ensures
            r == board_decode(b0),
            r matches Some(d) ==> d.ra < 8 && d.rb < 8,
    {
        let v = decode_rom_entry(b0);
        if v == INVALID_ENTRY {
            return None;
        }
        let d = DecodedInstruction::from_decoded(v);
        let runs = match d.opcode {
            Opcode::La | Opcode::Lc | Opcode::Lcu | Opcode::AddReg | Opcode::AddImm | Opcode::Sub
            | Opcode::Mov | Opcode::And | Opcode::Sb | Opcode::Sw | Opcode::Lw | Opcode::Ceq
            | Opcode::Clu | Opcode::Bra | Opcode::Brf | Opcode::Brt | Opcode::Push | Opcode::Pop => true,
            _ => false,
        };
        if runs {
            Some(d)
        } else {
            None
        }
    }

    /// Execute one instruction.
    pub fn step(&mut self) -> (r: StepOutcome)
        requires
            old(self).wf(),
            board_step_fits(old(self)@),
        ensures
            final(self).wf(),
            final(self)@ == board_step(old(self)@).state,
            r.running == board_step(old(self)@).running,
            r.leds@ == board_step(old(self)@).leds,
            r.unknown_opcode == board_step(old(self)@).unknown,
    {
        if self.halted {
            return StepOutcome { running: false, leds: Vec::new(), unknown_opcode: None };
        }
        let b0 = self.read_byte(self.pc);
        self.cycles += 1;
        match Self::decode(b0) {
            Some(d) => self.execute(d),
            None => {
                self.halted = true;
                StepOutcome { running: false, leds: Vec::new(), unknown_opcode: Some((b0, self.pc)) }
            },
        }
    }

    /// Whether the next step computes every address and counter within range.
    pub fn step_fits(&self) -> (r: bool)
        requires
            self.wf(),
        ensures
            r == board_step_fits(self@),
    {
        if self.halted {
            return true;
        }
        let b0 = self.read_byte(self.pc);
        let reach: u32 = match Self::decode(b0) {
            Some(d) => if d.opcode == Opcode::La && d.ra == 7 {
                3
            } else {
                match d.opcode {
                    Opcode::La => 4,
                    Opcode::Lc | Opcode::Lcu | Opcode::AddImm | Opcode::Sb | Opcode::Sw | Opcode::Lw
                    | Opcode::Bra | Opcode::Brf | Opcode::Brt => 2,
                    _ => 1,
                }
            },
            None => 0,
        };
        self.cycles < u64::MAX && self.pc <= u32::MAX - reach
    }
}

/// The lamp for one LED: lit (a red dot) or dark (a circle).
pub open spec fn lamp(lit: bool) -> Seq<char> {
    if lit {
        "\x1b[91m●\x1b[0m"@
    } else {
        "○"@
    }
}

/// The lamps for bits `k - 1` down to 0 of `leds`.
pub open spec fn lamps(leds: u8, k: nat) -> Seq<char>
    decreases k,
{
    if k == 0 {
        Seq::empty()
    } else {
        lamp((leds >> ((k - 1) as u8)) & 1 == 1) + lamps(leds, (k - 1) as nat)
    }
}

/// The LED line: a carriage return, the eight lamps from bit 7 down, and the value in hex.
pub open spec fn led_text(leds: u8) -> Seq<char> {
    "\rLEDs: "@ + lamps(leds, 8) + "  (0x"@ + hex_upper(leds as nat, 2) + ")  "@
}

/// The text that shows an LED value.
pub fn led_display(leds: u8) -> (r: String)
    ensures
        r@ == led_text(leds),
{
    let mut out: Vec<char> = Vec::new();
    push_str(&mut out, "\rLEDs: ");
    let ghost start = out@;
    let mut i: u8 = 8;
    while i > 0
        invariant
            i <= 8,
            start + lamps(leds, 8) == out@ + lamps(leds, i as nat),
        decreases i,
    {
        let bit = (leds >> (i - 1)) & 1 == 1;
        let ghost before = out@;
        if bit {
            push_str(&mut out, "\x1b[91m●\x1b[0m");
        } else {
            push_str(&mut out, "○");
        }
        proof {
            assert(lamps(leds, i as nat) == lamp(bit) + lamps(leds, (i - 1) as nat));
            assert(out@ + lamps(leds, (i - 1) as nat) =~= before + lamps(leds, i as nat));
        }
        i -= 1;
    }
    assert(out@ + lamps(leds, 0) =~= out@);
    push_str(&mut out, "  (0x");
    push_hex(&mut out, leds as u64, 2);
    push_str(&mut out, ")  ");
    string_of(&out)
}

/// Instructions per batch at a given speed: a hundredth of a second's worth (at least one),
/// or 10000 at unlimited speed (0).
pub fn batch_size(speed: u64) -> (r: u64)
    ensures
        r == (if speed == 0 {
            10000
        } else if speed / 100 >= 1 {
            speed / 100
        } else {
            1
        }),
{
    if speed == 0 {
        10000
    } else {
        let b = speed / 100;
        if b >= 1 {
            b
        } else {
            1
        }
    }
}

} // verus!
