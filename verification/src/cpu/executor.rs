//! COR24 instruction execution

use vstd::prelude::*;
use super::decode_rom::{rom_spec, rom_table, INVALID_ENTRY};
use super::instruction::{
    decoded_spec, format_of, format_size, DecodedInstruction, InstructionFormat, Opcode,
};
use super::state::{MEMORY_SIZE, lemma_reg_update_read, lemma_store_word_read, lemma_store_byte_read, 
    byte_at, cell, lemma_cell_wrap, lemma_mask24, reg_update, reg_value, sext8, store_byte,
    store_word, word_at, wrap24, CpuState, CpuView, DecodeRom,
};

verus! {

/// Execute result
#[derive(Debug, Clone, Copy, PartialEq, Eq, Structural)]
pub enum ExecuteResult {
    /// Instruction executed successfully
    Executed,
    /// CPU halted
    Halted,
    /// Invalid instruction
    InvalidInstruction(u8),
    /// Memory access error
    MemoryError(u32),
}

/// A 24-bit value read as a two's complement number.
pub open spec fn sx24(v: u32) -> int {
    if v >= 0x800000 {
        v - 0x1000000
    } else {
        v as int
    }
}

/// When a step executes nothing: a halted CPU stays as it is and reports `Halted`; the byte
/// 0x00 at address 0 halts it; a byte the decode ROM does not know is reported as an invalid
/// instruction and changes nothing.
pub proof fn lemma_step_stops(s: CpuView)
    ensures
        s.halted ==> step_spec(s) == (s, ExecuteResult::Halted),
        (!s.halted && s.pc == 0 && byte_at(s.mem, 0) == 0) ==> step_spec(s) == (CpuView { halted: true, ..s }, ExecuteResult::Halted),
        (!s.halted && !(s.pc == 0 && byte_at(s.mem, 0) == 0) && rom_spec(byte_at(s.mem, s.pc as int)) == INVALID_ENTRY)
            ==> step_spec(s) == (s, ExecuteResult::InvalidInstruction(byte_at(s.mem, s.pc as int))),
{
}

/// Sign extension keeps a byte's two's complement value: as a 24-bit signed number, the
/// extended byte is the byte read as a signed 8-bit number.
pub proof fn lemma_sext8_keeps_value(v: u8)
    ensures
        sx24(sext8(v)) == (if v >= 128 { v - 256 } else { v as int }),
{
}

/// Arithmetic right shift of a 24-bit value, as the hardware computes it on 32 bits.
pub open spec fn sra24(v: u32, shift: u32) -> u32 {
    let signed_val: u32 = if v & 0x800000 != 0 {
        v | 0xFF000000
    } else {
        v
    };
    (((signed_val as i32) >> shift) as u32) & 0xFFFFFF
}

/// The byte at the program counter.
pub open spec fn fetched_byte(s: CpuView) -> u8 {
    byte_at(s.mem, s.pc as int)
}

/// The instruction at the program counter, as the decode ROM reads it.
pub open spec fn fetched_instruction(s: CpuView) -> DecodedInstruction {
    decoded_spec(rom_spec(fetched_byte(s)))
}

/// The CPU stops when it is told to run the byte 0x00 at address 0.
pub open spec fn at_halt(s: CpuView) -> bool {
    fetched_byte(s) == 0 && s.pc == 0
}

/// The instruction at the program counter is `la ir,0`: the jump to address 0 that the
/// assembler writes for `halt`, which stops the CPU.
pub open spec fn halt_jump(s: CpuView) -> bool {
    &&& fetched_instruction(s).opcode == Opcode::La
    &&& fetched_instruction(s).ra == 7
    &&& word_at(s.mem, s.pc + 1) == 0
}

/// A step executes an instruction (and counts it) exactly when the CPU is running, is not at
/// the halt address, and the byte at the program counter decodes to an instruction.
pub open spec fn executes(s: CpuView) -> bool {
    &&& !s.halted
    &&& !at_halt(s)
    &&& rom_spec(fetched_byte(s)) != INVALID_ENTRY
    &&& fetched_instruction(s).opcode != Opcode::Invalid
}

/// The effective address `rb + sign_extend(dd)` of a load or store.
pub open spec fn effective_address(s: CpuView, rb: u8, imm8: u8) -> u32 {
    wrap24(reg_value(s.regs, rb) + sext8(imm8))
}

/// The state after writing register `ra` and moving on to `next_pc`.
pub open spec fn load_reg(s: CpuView, ra: u8, next_pc: u32, v: u32) -> CpuView {
    CpuView { regs: reg_update(s.regs, ra, v), pc: next_pc, ..s }
}

/// The state after a jump.
pub open spec fn goto(s: CpuView, target: u32) -> CpuView {
    CpuView { pc: target, ..s }
}

/// The low 24 bits of a product.
#[verifier::opaque]
pub open spec fn mul24(a: u32, b: u32) -> u32 {
    wrap24(a * b)
}

/// The state after an instruction has taken effect, given its 8-bit and 24-bit immediates and the
/// address of the next instruction. Counters are not included.
#[verifier::opaque]
pub open spec fn effect(
    s: CpuView,
    inst: DecodedInstruction,
    imm8: u8,
    imm24: u32,
    next_pc: u32,
) -> CpuView {
    let ra = inst.ra;
    let rb = inst.rb;
    let a = reg_value(s.regs, ra);
    let b = reg_value(s.regs, rb);
    let shift = b & 0x1F;
    match inst.opcode {
        Opcode::AddReg => load_reg(s, ra, next_pc, wrap24(a + b)),
        Opcode::AddImm => load_reg(s, ra, next_pc, wrap24(a + sext8(imm8))),
        Opcode::And => load_reg(s, ra, next_pc, a & b),
        Opcode::Bra => goto(s, wrap24(next_pc + sext8(imm8))),
        Opcode::Brf => goto(s, if !s.c { wrap24(next_pc + sext8(imm8)) } else { next_pc }),
        Opcode::Brt => goto(s, if s.c { wrap24(next_pc + sext8(imm8)) } else { next_pc }),
        Opcode::Ceq => CpuView { c: a == b, pc: next_pc, ..s },
        Opcode::Cls => CpuView { c: sx24(a) < sx24(b), pc: next_pc, ..s },
        Opcode::Clu => CpuView { c: a < b, pc: next_pc, ..s },
        Opcode::Jal => CpuView { regs: reg_update(s.regs, ra, next_pc), pc: b, ..s },
        Opcode::Jmp => goto(s, a),
        Opcode::La => if ra == 7 { goto(s, imm24) } else { load_reg(s, ra, next_pc, imm24) },
        Opcode::Lb => load_reg(s, ra, next_pc, sext8(byte_at(s.mem, effective_address(s, rb, imm8) as int))),
        Opcode::Lbu => load_reg(s, ra, next_pc, byte_at(s.mem, effective_address(s, rb, imm8) as int) as u32),
        Opcode::Lc => load_reg(s, ra, next_pc, sext8(imm8)),
        Opcode::Lcu => load_reg(s, ra, next_pc, imm8 as u32),
        Opcode::Lw => load_reg(s, ra, next_pc, word_at(s.mem, effective_address(s, rb, imm8) as int)),
        Opcode::Mov => load_reg(s, ra, next_pc, 
            if rb == 5 {
                if s.c { 1 } else { 0 }
            } else {
                b
            },
        ),
        Opcode::Mul => load_reg(s, ra, next_pc, mul24(a, b)),
        Opcode::Or => load_reg(s, ra, next_pc, a | b),
        Opcode::Pop => {
            let sp = reg_value(s.regs, 4);
            let regs1 = reg_update(s.regs, ra, word_at(s.mem, sp as int));
            CpuView { regs: reg_update(regs1, 4, wrap24(sp + 3)), pc: next_pc, ..s }
        },
        Opcode::Push => {
            let new_sp = wrap24(reg_value(s.regs, 4) - 3);
            let regs1 = reg_update(s.regs, 4, new_sp);
            CpuView {
                regs: regs1,
                mem: store_word(s.mem, new_sp as int, reg_value(regs1, ra)),
                pc: next_pc,
                ..s
            }
        },
        Opcode::Sb => CpuView {
            mem: store_byte(s.mem, effective_address(s, rb, imm8) as int, (a % 256) as u8),
            pc: next_pc,
            ..s
        },
        Opcode::Shl => load_reg(s, ra, next_pc, (a << shift) & 0xFFFFFF),
        Opcode::Sra => load_reg(s, ra, next_pc, sra24(a, shift)),
        Opcode::Srl => load_reg(s, ra, next_pc, a >> shift),
        Opcode::Sub => load_reg(s, ra, next_pc, wrap24(a - b)),
        Opcode::SubSp => CpuView {
            regs: reg_update(s.regs, 4, wrap24(reg_value(s.regs, 4) - imm24)),
            pc: next_pc,
            ..s
        },
        Opcode::Sw => CpuView {
            mem: store_word(s.mem, effective_address(s, rb, imm8) as int, a),
            pc: next_pc,
            ..s
        },
        Opcode::Sxt => load_reg(s, ra, next_pc, sext8((b % 256) as u8)),
        Opcode::Xor => load_reg(s, ra, next_pc, a ^ b),
        Opcode::Zxt => load_reg(s, ra, next_pc, b % 256),
        Opcode::Invalid => s,
    }
}

/// An instruction's effect leaves the counters and the halted flag alone.
pub proof fn lemma_effect_frame(
    s: CpuView,
    inst: DecodedInstruction,
    imm8: u8,
    imm24: u32,
    next_pc: u32,
)
    ensures
        effect(s, inst, imm8, imm24, next_pc).cycles == s.cycles,
        effect(s, inst, imm8, imm24, next_pc).instructions == s.instructions,
        effect(s, inst, imm8, imm24, next_pc).halted == s.halted,
        s.mem.len() >= MEMORY_SIZE ==> effect(s, inst, imm8, imm24, next_pc).mem.len() == s.mem.len(),
{
    reveal(effect);
}

/// A halted CPU stays as it is: a step reports `Halted` and changes nothing.
pub proof fn lemma_halted_stays(s: CpuView)
    requires
        s.halted,
    ensures
        step_spec(s) == (s, ExecuteResult::Halted),
        run_spec(s, 1) == (s, ExecuteResult::Halted),
{
}

/// `pop rb` right after `push ra` gives `rb` the pushed value and puts the stack pointer back
/// where it was (neither register being the stack pointer).
#[verifier::rlimit(60)]
#[verifier::spinoff_prover]
pub proof fn lemma_push_pop(s: CpuView, ra: u8, rb: u8, next1: u32, next2: u32)
    requires
        s.mem.len() >= MEMORY_SIZE,
        s.regs.len() == 8,
        ra % 8 != 4,
        rb % 8 != 4,
    ensures
        ({
            let s1 = effect(s, DecodedInstruction { opcode: Opcode::Push, ra, rb: 4 }, 0, 0, next1);
            let s2 = effect(s1, DecodedInstruction { opcode: Opcode::Pop, ra: rb, rb: 4 }, 0, 0, next2);
            &&& reg_value(s2.regs, rb) == reg_value(s.regs, ra)
            &&& reg_value(s2.regs, 4) == reg_value(s.regs, 4)
            &&& s2.pc == next2
        }),
{
    reveal(effect);
    let sp = reg_value(s.regs, 4);
    let new_sp = wrap24(sp - 3);
    let regs1 = reg_update(s.regs, 4, new_sp);
    lemma_reg_update_read(s.regs, 4, ra, new_sp);
    lemma_reg_update_read(s.regs, 4, 4, new_sp);
    let v = reg_value(regs1, ra);
    let mem1 = store_word(s.mem, new_sp as int, v);
    lemma_store_word_read(s.mem, new_sp as int, new_sp as int, v);
    let w = word_at(mem1, new_sp as int);
    let regs2 = reg_update(regs1, rb, w);
    lemma_reg_update_read(regs1, rb, rb, w);
    lemma_reg_update_read(regs1, rb, 4, w);
    lemma_reg_update_read(regs2, 4, rb, wrap24(new_sp + 3));
    lemma_reg_update_read(regs2, 4, 4, wrap24(new_sp + 3));
    assert(v < 0x1000000);
    assert(sp < 0x1000000);
    assert(wrap24(new_sp + 3) == sp);
}

/// A step never changes the size of the memory.
pub proof fn lemma_step_keeps_memory_size(s: CpuView)
    requires
        s.mem.len() >= MEMORY_SIZE,
    ensures
        step_spec(s).0.mem.len() == s.mem.len(),
{
    let byte = fetched_byte(s);
    if !s.halted && !at_halt(s) && executes(s) {
        let inst = fetched_instruction(s);
        let format = format_of(inst.opcode);
        let imm8 = if format == InstructionFormat::SingleByte {
            0u8
        } else {
            byte_at(s.mem, s.pc + 1)
        };
        let imm24 = if format == InstructionFormat::FourBytes {
            word_at(s.mem, s.pc + 1)
        } else {
            0u32
        };
        let next_pc = wrap24(s.pc + format_size(format));
        lemma_effect_frame(s, inst, imm8, imm24, next_pc);
    }
}

/// A run never changes the size of the memory.
pub proof fn lemma_run_keeps_memory_size(s: CpuView, n: nat)
    requires
        s.mem.len() >= MEMORY_SIZE,
    ensures
        run_spec(s, n).0.mem.len() == s.mem.len(),
    decreases n,
{
    if n > 0 {
        lemma_step_keeps_memory_size(s);
        let (t, r) = step_spec(s);
        if r == ExecuteResult::Executed {
            lemma_run_keeps_memory_size(t, (n - 1) as nat);
        }
    }
}

/// Subtraction in 32-bit wrapping arithmetic agrees with integer subtraction modulo 2^24.
pub proof fn lemma_wrapping_sub_mod24(a: u32, b: u32)
    ensures
        a.wrapping_sub(b) % 0x1000000 == (a - b) % 0x1000000,
{
    if a < b {
        vstd::arithmetic::div_mod::lemma_mod_multiples_vanish(256, a - b, 0x1000000);
        assert(a.wrapping_sub(b) == 0x1000000 * 256 + (a - b));
    }
}

/// One step of the machine: the state after it and the result it reports.
pub open spec fn step_spec(s: CpuView) -> (CpuView, ExecuteResult) {
    let byte = fetched_byte(s);
    if s.halted {
        (s, ExecuteResult::Halted)
    } else if at_halt(s) {
        (CpuView { halted: true, ..s }, ExecuteResult::Halted)
    } else if !executes(s) {
        (s, ExecuteResult::InvalidInstruction(byte))
    } else if halt_jump(s) {
        (CpuView { halted: true, ..s }, ExecuteResult::Halted)
    } else {
        let inst = fetched_instruction(s);
        let format = format_of(inst.opcode);
        let imm8 = if format == InstructionFormat::SingleByte {
            0u8
        } else {
            byte_at(s.mem, s.pc + 1)
        };
        let imm24 = if format == InstructionFormat::FourBytes {
            word_at(s.mem, s.pc + 1)
        } else {
            0u32
        };
        let next_pc = wrap24(s.pc + format_size(format));
        let t = effect(s, inst, imm8, imm24, next_pc);
        (
            CpuView { cycles: (s.cycles + 1) as u64, instructions: (s.instructions + 1) as u64, ..t },
            ExecuteResult::Executed,
        )
    }
}

/// A step can count the instruction it executes without overflowing the counters.
pub open spec fn step_counts_fit(s: CpuView) -> bool {
    executes(s) ==> s.cycles < u64::MAX && s.instructions < u64::MAX
}

/// Running for at most `n` more counted steps: the state reached and the result reported.
pub open spec fn run_spec(s: CpuView, n: nat) -> (CpuView, ExecuteResult)
    decreases n,
{
    if n == 0 {
        (s, ExecuteResult::Executed)
    } else {
        let (t, r) = step_spec(s);
        if r == ExecuteResult::Executed {
            run_spec(t, (n - 1) as nat)
        } else {
            (t, r)
        }
    }
}

/// None of the steps of a run of at most `n` steps overflows a counter.
pub open spec fn run_counts_fit(s: CpuView, n: nat) -> bool
    decreases n,
{
    n == 0 || (step_counts_fit(s) && (step_spec(s).1 == ExecuteResult::Executed ==> run_counts_fit(
        step_spec(s).0,
        (n - 1) as nat,
    )))
}

/// A run of at most `n` steps from counters at most `u64::MAX - n` never overflows them.
pub proof fn lemma_run_counts_fit(s: CpuView, n: nat)
    requires
        s.cycles + n <= u64::MAX,
        s.instructions + n <= u64::MAX,
    ensures
        run_counts_fit(s, n),
    decreases n,
{
    if n > 0 {
        let (t, r) = step_spec(s);
        if r == ExecuteResult::Executed {
            assert(t.cycles == s.cycles + 1 && t.instructions == s.instructions + 1);
            lemma_run_counts_fit(t, (n - 1) as nat);
        }
    }
}

/// The instruction counter never passes the cycle counter: a step counts both or neither.
pub proof fn lemma_step_keeps_counts_ordered(s: CpuView)
    requires
        s.instructions <= s.cycles,
        step_counts_fit(s),
    ensures
        step_spec(s).0.instructions <= step_spec(s).0.cycles,
{
}

/// For a machine whose instruction count is at most its cycle count (every machine started
/// by `new` and run by `step` and `run`), room for `n` more cycles is all a run of at most `n`
/// steps needs.
pub proof fn lemma_run_fits_by_cycles(s: CpuView, n: nat)
    requires
        s.instructions <= s.cycles,
        s.cycles + n <= u64::MAX,
    ensures
        run_counts_fit(s, n),
{
    lemma_run_counts_fit(s, n);
}

/// A run of at most `n` steps: with no step allowed it changes nothing and reports
/// `Executed`; it never counts more than `n` cycles, and it reports `Executed` exactly when it
/// counted all `n` (every other result ends it early).
pub proof fn lemma_run_cycles(s: CpuView, n: nat)
    requires
        run_counts_fit(s, n),
    ensures
        n == 0 ==> run_spec(s, n) == (s, ExecuteResult::Executed),
        run_spec(s, n).0.cycles <= s.cycles + n,
        run_spec(s, n).1 == ExecuteResult::Executed <==> run_spec(s, n).0.cycles == s.cycles + n,
    decreases n,
{
    if n > 0 {
        let (t, r) = step_spec(s);
        if r == ExecuteResult::Executed {
            assert(t.cycles == s.cycles + 1);
            lemma_run_cycles(t, (n - 1) as nat);
        } else {
            assert(t.cycles == s.cycles);
        }
    }
}

/// A running CPU at a `halt` (the bytes C7 00 00 00, `la ir,0`) stops there: a run of at least one step halts it,
/// reports `Halted` and changes nothing else, counters included.
pub proof fn lemma_halt_stops(s: CpuView, n: nat)
    requires
        !s.halted,
        n > 0,
        fetched_byte(s) == 0xC7,
        word_at(s.mem, s.pc + 1) == 0,
    ensures
        run_spec(s, n) == (CpuView { halted: true, ..s }, ExecuteResult::Halted),
{
    reveal(rom_spec);
    assert(rom_spec(0xC7) == 0x0B * 64 + 7 * 8);
    assert(decoded_spec(rom_spec(0xC7)).opcode == Opcode::La);
    assert(halt_jump(s));
    assert(fetched_instruction(s).opcode != Opcode::Invalid);
    if at_halt(s) {
    } else {
        assert(executes(s));
    }
}

/// The 8-bit operand an executed instruction reads: the byte after its opcode.
pub open spec fn operand8(s: CpuView) -> u8 {
    byte_at(s.mem, s.pc + 1)
}

/// The 24-bit operand an executed instruction reads: the word after its opcode.
pub open spec fn operand24(s: CpuView) -> u32 {
    word_at(s.mem, s.pc + 1)
}

/// The effective address of a load or store: rb plus the sign-extended operand, in 24 bits.
pub open spec fn operand_address(s: CpuView) -> int {
    (reg_value(s.regs, fetched_instruction(s).rb) + sext8(operand8(s))) % 0x1000000
}

/// An executed step counts one instruction and is the instruction's effect.
proof fn lemma_executed(s: CpuView)
    requires
        executes(s),
        !halt_jump(s),
    ensures
        step_spec(s).1 == ExecuteResult::Executed,
        step_spec(s).0 == (CpuView {
            cycles: (s.cycles + 1) as u64,
            instructions: (s.instructions + 1) as u64,
            ..effect(
                s,
                fetched_instruction(s),
                if format_of(fetched_instruction(s).opcode) == InstructionFormat::SingleByte { 0u8 } else { operand8(s) },
                if format_of(fetched_instruction(s).opcode) == InstructionFormat::FourBytes { operand24(s) } else { 0u32 },
                wrap24(s.pc + format_size(format_of(fetched_instruction(s).opcode))),
            )
        }),
{
}

/// Writing register `r` changes only register `r`, which reads back as the low 24 bits.
proof fn lemma_writes_only(regs: Seq<u32>, r: u8, v: u32)
    requires
        regs.len() == 8,
    ensures
        reg_value(reg_update(regs, r, v), r) == v % 0x1000000,
        forall|q: u8| q % 8 != r % 8 ==> #[trigger] reg_value(reg_update(regs, r, v), q) == reg_value(regs, q),
{
    lemma_reg_update_read(regs, r, r, v);
    assert forall|q: u8| q % 8 != r % 8 implies #[trigger] reg_value(reg_update(regs, r, v), q) == reg_value(regs, q) by {
        lemma_reg_update_read(regs, r, q, v);
    }
}

/// `add ra,rb`: ra becomes the sum of ra and rb in 24 bits; nothing else changes but the program counter, which moves one byte on.
#[verifier::rlimit(60)]
#[verifier::spinoff_prover]
pub proof fn lemma_add_reg(s: CpuView)
    requires
        s.regs.len() == 8,
        executes(s),
        fetched_instruction(s).opcode == Opcode::AddReg,
    ensures
        ({
            let i = fetched_instruction(s);
            let t = step_spec(s).0;
            let a = reg_value(s.regs, i.ra);
            let b = reg_value(s.regs, i.rb);
            &&& step_spec(s).1 == ExecuteResult::Executed
            &&& reg_value(t.regs, i.ra) == (a + b) % 0x1000000
            &&& forall|q: u8| q % 8 != i.ra % 8 ==> #[trigger] reg_value(t.regs, q) == reg_value(s.regs, q)
            &&& t.pc == (s.pc + 1) % 0x1000000
            &&& t.mem == s.mem
            &&& t.c == s.c
        }),
{
    lemma_executed(s);
    reveal(effect);
    let i = fetched_instruction(s);
    let a = reg_value(s.regs, i.ra);
    let b = reg_value(s.regs, i.rb);
    lemma_writes_only(s.regs, i.ra, wrap24(a + b));

}

/// `add ra,dd`: ra becomes ra plus the sign-extended byte dd, in 24 bits; the program counter moves two bytes on.
#[verifier::rlimit(60)]
#[verifier::spinoff_prover]
pub proof fn lemma_add_imm(s: CpuView)
    requires
        s.regs.len() == 8,
        executes(s),
        fetched_instruction(s).opcode == Opcode::AddImm,
    ensures
        ({
            let i = fetched_instruction(s);
            let t = step_spec(s).0;
            let a = reg_value(s.regs, i.ra);
            let b = reg_value(s.regs, i.rb);
            &&& step_spec(s).1 == ExecuteResult::Executed
            &&& reg_value(t.regs, i.ra) == (a + sext8(operand8(s))) % 0x1000000
            &&& forall|q: u8| q % 8 != i.ra % 8 ==> #[trigger] reg_value(t.regs, q) == reg_value(s.regs, q)
            &&& t.pc == (s.pc + 2) % 0x1000000
            &&& t.mem == s.mem
            &&& t.c == s.c
        }),
{
    lemma_executed(s);
    reveal(effect);
    let i = fetched_instruction(s);
    let a = reg_value(s.regs, i.ra);
    let b = reg_value(s.regs, i.rb);
    lemma_writes_only(s.regs, i.ra, wrap24(a + sext8(operand8(s))));

}

/// `sub ra,rb`: ra becomes ra minus rb in 24 bits (wrapping below zero).
#[verifier::rlimit(60)]
#[verifier::spinoff_prover]
pub proof fn lemma_sub(s: CpuView)
    requires
        s.regs.len() == 8,
        executes(s),
        fetched_instruction(s).opcode == Opcode::Sub,
    ensures
        ({
            let i = fetched_instruction(s);
            let t = step_spec(s).0;
            let a = reg_value(s.regs, i.ra);
            let b = reg_value(s.regs, i.rb);
            &&& step_spec(s).1 == ExecuteResult::Executed
            &&& reg_value(t.regs, i.ra) == (a - b) % 0x1000000
            &&& forall|q: u8| q % 8 != i.ra % 8 ==> #[trigger] reg_value(t.regs, q) == reg_value(s.regs, q)
            &&& t.pc == (s.pc + 1) % 0x1000000
            &&& t.mem == s.mem
            &&& t.c == s.c
        }),
{
    lemma_executed(s);
    reveal(effect);
    let i = fetched_instruction(s);
    let a = reg_value(s.regs, i.ra);
    let b = reg_value(s.regs, i.rb);
    lemma_writes_only(s.regs, i.ra, wrap24(a - b));

}

/// `mul ra,rb`: ra becomes the low 24 bits of the product of ra and rb.
#[verifier::rlimit(60)]
#[verifier::spinoff_prover]
pub proof fn lemma_mul(s: CpuView)
    requires
        s.regs.len() == 8,
        executes(s),
        fetched_instruction(s).opcode == Opcode::Mul,
    ensures
        ({
            let i = fetched_instruction(s);
            let t = step_spec(s).0;
            let a = reg_value(s.regs, i.ra);
            let b = reg_value(s.regs, i.rb);
            &&& step_spec(s).1 == ExecuteResult::Executed
            &&& reg_value(t.regs, i.ra) == (a * b) % 0x1000000
            &&& forall|q: u8| q % 8 != i.ra % 8 ==> #[trigger] reg_value(t.regs, q) == reg_value(s.regs, q)
            &&& t.pc == (s.pc + 1) % 0x1000000
            &&& t.mem == s.mem
            &&& t.c == s.c
        }),
{
    lemma_executed(s);
    reveal(effect);
    let i = fetched_instruction(s);
    let a = reg_value(s.regs, i.ra);
    let b = reg_value(s.regs, i.rb);
    lemma_writes_only(s.regs, i.ra, mul24(a, b));
    reveal(mul24);

}

/// `and ra,rb`: ra becomes the bitwise and of ra and rb.
#[verifier::rlimit(60)]
#[verifier::spinoff_prover]
pub proof fn lemma_and(s: CpuView)
    requires
        s.regs.len() == 8,
        executes(s),
        fetched_instruction(s).opcode == Opcode::And,
    ensures
        ({
            let i = fetched_instruction(s);
            let t = step_spec(s).0;
            let a = reg_value(s.regs, i.ra);
            let b = reg_value(s.regs, i.rb);
            &&& step_spec(s).1 == ExecuteResult::Executed
            &&& reg_value(t.regs, i.ra) == a & b
            &&& forall|q: u8| q % 8 != i.ra % 8 ==> #[trigger] reg_value(t.regs, q) == reg_value(s.regs, q)
            &&& t.pc == (s.pc + 1) % 0x1000000
            &&& t.mem == s.mem
            &&& t.c == s.c
        }),
{
    lemma_executed(s);
    reveal(effect);
    let i = fetched_instruction(s);
    let a = reg_value(s.regs, i.ra);
    let b = reg_value(s.regs, i.rb);
    lemma_writes_only(s.regs, i.ra, a & b);
    assert(a & b < 0x1000000 && a | b < 0x1000000 && a ^ b < 0x1000000) by (bit_vector)
        requires
            a < 0x1000000,
            b < 0x1000000,
    ;

}

/// `or ra,rb`: ra becomes the bitwise or of ra and rb.
#[verifier::rlimit(60)]
#[verifier::spinoff_prover]
pub proof fn lemma_or(s: CpuView)
    requires
        s.regs.len() == 8,
        executes(s),
        fetched_instruction(s).opcode == Opcode::Or,
    ensures
        ({
            let i = fetched_instruction(s);
            let t = step_spec(s).0;
            let a = reg_value(s.regs, i.ra);
            let b = reg_value(s.regs, i.rb);
            &&& step_spec(s).1 == ExecuteResult::Executed
            &&& reg_value(t.regs, i.ra) == a | b
            &&& forall|q: u8| q % 8 != i.ra % 8 ==> #[trigger] reg_value(t.regs, q) == reg_value(s.regs, q)
            &&& t.pc == (s.pc + 1) % 0x1000000
            &&& t.mem == s.mem
            &&& t.c == s.c
        }),
{
    lemma_executed(s);
    reveal(effect);
    let i = fetched_instruction(s);
    let a = reg_value(s.regs, i.ra);
    let b = reg_value(s.regs, i.rb);
    lemma_writes_only(s.regs, i.ra, a | b);
    assert(a & b < 0x1000000 && a | b < 0x1000000 && a ^ b < 0x1000000) by (bit_vector)
        requires
            a < 0x1000000,
            b < 0x1000000,
    ;

}

/// `xor ra,rb`: ra becomes the bitwise exclusive or of ra and rb.
#[verifier::rlimit(60)]
#[verifier::spinoff_prover]
pub proof fn lemma_xor(s: CpuView)
    requires
        s.regs.len() == 8,
        executes(s),
        fetched_instruction(s).opcode == Opcode::Xor,
    ensures
        ({
            let i = fetched_instruction(s);
            let t = step_spec(s).0;
            let a = reg_value(s.regs, i.ra);
            let b = reg_value(s.regs, i.rb);
            &&& step_spec(s).1 == ExecuteResult::Executed
            &&& reg_value(t.regs, i.ra) == a ^ b
            &&& forall|q: u8| q % 8 != i.ra % 8 ==> #[trigger] reg_value(t.regs, q) == reg_value(s.regs, q)
            &&& t.pc == (s.pc + 1) % 0x1000000
            &&& t.mem == s.mem
            &&& t.c == s.c
        }),
{
    lemma_executed(s);
    reveal(effect);
    let i = fetched_instruction(s);
    let a = reg_value(s.regs, i.ra);
    let b = reg_value(s.regs, i.rb);
    lemma_writes_only(s.regs, i.ra, a ^ b);
    assert(a & b < 0x1000000 && a | b < 0x1000000 && a ^ b < 0x1000000) by (bit_vector)
        requires
            a < 0x1000000,
            b < 0x1000000,
    ;

}

/// `lc ra,dd`: ra becomes the byte dd sign-extended to 24 bits.
#[verifier::rlimit(60)]
#[verifier::spinoff_prover]
pub proof fn lemma_lc(s: CpuView)
    requires
        s.regs.len() == 8,
        executes(s),
        fetched_instruction(s).opcode == Opcode::Lc,
    ensures
        ({
            let i = fetched_instruction(s);
            let t = step_spec(s).0;
            let a = reg_value(s.regs, i.ra);
            let b = reg_value(s.regs, i.rb);
            &&& step_spec(s).1 == ExecuteResult::Executed
            &&& reg_value(t.regs, i.ra) == sext8(operand8(s))
            &&& forall|q: u8| q % 8 != i.ra % 8 ==> #[trigger] reg_value(t.regs, q) == reg_value(s.regs, q)
            &&& t.pc == (s.pc + 2) % 0x1000000
            &&& t.mem == s.mem
            &&& t.c == s.c
        }),
{
    lemma_executed(s);
    reveal(effect);
    let i = fetched_instruction(s);
    let a = reg_value(s.regs, i.ra);
    let b = reg_value(s.regs, i.rb);
    lemma_writes_only(s.regs, i.ra, sext8(operand8(s)));

}

/// `lcu ra,dd`: ra becomes the byte dd, zero-extended.
#[verifier::rlimit(60)]
#[verifier::spinoff_prover]
pub proof fn lemma_lcu(s: CpuView)
    requires
        s.regs.len() == 8,
        executes(s),
        fetched_instruction(s).opcode == Opcode::Lcu,
    ensures
        ({
            let i = fetched_instruction(s);
            let t = step_spec(s).0;
            let a = reg_value(s.regs, i.ra);
            let b = reg_value(s.regs, i.rb);
            &&& step_spec(s).1 == ExecuteResult::Executed
            &&& reg_value(t.regs, i.ra) == operand8(s) as u32
            &&& forall|q: u8| q % 8 != i.ra % 8 ==> #[trigger] reg_value(t.regs, q) == reg_value(s.regs, q)
            &&& t.pc == (s.pc + 2) % 0x1000000
            &&& t.mem == s.mem
            &&& t.c == s.c
        }),
{
    lemma_executed(s);
    reveal(effect);
    let i = fetched_instruction(s);
    let a = reg_value(s.regs, i.ra);
    let b = reg_value(s.regs, i.rb);
    lemma_writes_only(s.regs, i.ra, operand8(s) as u32);

}

/// `la ra,dddddd` (ra not ir): ra becomes the 24-bit word after the opcode; the program counter moves four bytes on.
#[verifier::rlimit(60)]
#[verifier::spinoff_prover]
pub proof fn lemma_la(s: CpuView)
    requires
        s.regs.len() == 8,
        executes(s),
        fetched_instruction(s).opcode == Opcode::La,
        fetched_instruction(s).ra != 7,
    ensures
        ({
            let i = fetched_instruction(s);
            let t = step_spec(s).0;
            let a = reg_value(s.regs, i.ra);
            let b = reg_value(s.regs, i.rb);
            &&& step_spec(s).1 == ExecuteResult::Executed
            &&& reg_value(t.regs, i.ra) == operand24(s)
            &&& forall|q: u8| q % 8 != i.ra % 8 ==> #[trigger] reg_value(t.regs, q) == reg_value(s.regs, q)
            &&& t.pc == (s.pc + 4) % 0x1000000
            &&& t.mem == s.mem
            &&& t.c == s.c
        }),
{
    lemma_executed(s);
    reveal(effect);
    let i = fetched_instruction(s);
    let a = reg_value(s.regs, i.ra);
    let b = reg_value(s.regs, i.rb);
    lemma_writes_only(s.regs, i.ra, operand24(s));
    assert(operand24(s) < 0x1000000);

}

/// `mov ra,rb`: ra becomes the value of rb; with rb = 5 (`mov ra,c`), the condition flag as 0 or 1.
#[verifier::rlimit(60)]
#[verifier::spinoff_prover]
pub proof fn lemma_mov(s: CpuView)
    requires
        s.regs.len() == 8,
        executes(s),
        fetched_instruction(s).opcode == Opcode::Mov,
    ensures
        ({
            let i = fetched_instruction(s);
            let t = step_spec(s).0;
            let a = reg_value(s.regs, i.ra);
            let b = reg_value(s.regs, i.rb);
            &&& step_spec(s).1 == ExecuteResult::Executed
            &&& reg_value(t.regs, i.ra) == (if i.rb == 5 { if s.c { 1u32 } else { 0u32 } } else { b })
            &&& forall|q: u8| q % 8 != i.ra % 8 ==> #[trigger] reg_value(t.regs, q) == reg_value(s.regs, q)
            &&& t.pc == (s.pc + 1) % 0x1000000
            &&& t.mem == s.mem
            &&& t.c == s.c
        }),
{
    lemma_executed(s);
    reveal(effect);
    let i = fetched_instruction(s);
    let a = reg_value(s.regs, i.ra);
    let b = reg_value(s.regs, i.rb);
    lemma_writes_only(s.regs, i.ra, (if i.rb == 5 { if s.c { 1u32 } else { 0u32 } } else { b }));

}

/// `sxt ra,rb`: ra becomes the low byte of rb sign-extended.
#[verifier::rlimit(60)]
#[verifier::spinoff_prover]
pub proof fn lemma_sxt(s: CpuView)
    requires
        s.regs.len() == 8,
        executes(s),
        fetched_instruction(s).opcode == Opcode::Sxt,
    ensures
        ({
            let i = fetched_instruction(s);
            let t = step_spec(s).0;
            let a = reg_value(s.regs, i.ra);
            let b = reg_value(s.regs, i.rb);
            &&& step_spec(s).1 == ExecuteResult::Executed
            &&& reg_value(t.regs, i.ra) == sext8((b % 256) as u8)
            &&& forall|q: u8| q % 8 != i.ra % 8 ==> #[trigger] reg_value(t.regs, q) == reg_value(s.regs, q)
            &&& t.pc == (s.pc + 1) % 0x1000000
            &&& t.mem == s.mem
            &&& t.c == s.c
        }),
{
    lemma_executed(s);
    reveal(effect);
    let i = fetched_instruction(s);
    let a = reg_value(s.regs, i.ra);
    let b = reg_value(s.regs, i.rb);
    lemma_writes_only(s.regs, i.ra, sext8((b % 256) as u8));

}

/// `zxt ra,rb`: ra becomes the low byte of rb.
#[verifier::rlimit(60)]
#[verifier::spinoff_prover]
pub proof fn lemma_zxt(s: CpuView)
    requires
        s.regs.len() == 8,
        executes(s),
        fetched_instruction(s).opcode == Opcode::Zxt,
    ensures
        ({
            let i = fetched_instruction(s);
            let t = step_spec(s).0;
            let a = reg_value(s.regs, i.ra);
            let b = reg_value(s.regs, i.rb);
            &&& step_spec(s).1 == ExecuteResult::Executed
            &&& reg_value(t.regs, i.ra) == b % 256
            &&& forall|q: u8| q % 8 != i.ra % 8 ==> #[trigger] reg_value(t.regs, q) == reg_value(s.regs, q)
            &&& t.pc == (s.pc + 1) % 0x1000000
            &&& t.mem == s.mem
            &&& t.c == s.c
        }),
{
    lemma_executed(s);
    reveal(effect);
    let i = fetched_instruction(s);
    let a = reg_value(s.regs, i.ra);
    let b = reg_value(s.regs, i.rb);
    lemma_writes_only(s.regs, i.ra, b % 256);

}

/// `ceq ra,rb`: C becomes whether ra equals rb; registers and memory are kept.
#[verifier::rlimit(60)]
#[verifier::spinoff_prover]
pub proof fn lemma_ceq(s: CpuView)
    requires
        s.regs.len() == 8,
        executes(s),
        fetched_instruction(s).opcode == Opcode::Ceq,
    ensures
        ({
            let i = fetched_instruction(s);
            let t = step_spec(s).0;
            let a = reg_value(s.regs, i.ra);
            let b = reg_value(s.regs, i.rb);
            &&& step_spec(s).1 == ExecuteResult::Executed
            &&& t.c == (a == b)
            &&& t.regs == s.regs
            &&& t.mem == s.mem
            &&& t.pc == (s.pc + 1) % 0x1000000
        }),
{
    lemma_executed(s);
    reveal(effect);
    let i = fetched_instruction(s);
    let a = reg_value(s.regs, i.ra);
    let b = reg_value(s.regs, i.rb);

}

/// `clu ra,rb`: C becomes whether ra is below rb, unsigned; registers and memory are kept.
#[verifier::rlimit(60)]
#[verifier::spinoff_prover]
pub proof fn lemma_clu(s: CpuView)
    requires
        s.regs.len() == 8,
        executes(s),
        fetched_instruction(s).opcode == Opcode::Clu,
    ensures
        ({
            let i = fetched_instruction(s);
            let t = step_spec(s).0;
            let a = reg_value(s.regs, i.ra);
            let b = reg_value(s.regs, i.rb);
            &&& step_spec(s).1 == ExecuteResult::Executed
            &&& t.c == (a < b)
            &&& t.regs == s.regs
            &&& t.mem == s.mem
            &&& t.pc == (s.pc + 1) % 0x1000000
        }),
{
    lemma_executed(s);
    reveal(effect);
    let i = fetched_instruction(s);
    let a = reg_value(s.regs, i.ra);
    let b = reg_value(s.regs, i.rb);

}

/// `cls ra,rb`: C becomes whether ra is below rb as 24-bit two's complement numbers.
#[verifier::rlimit(60)]
#[verifier::spinoff_prover]
pub proof fn lemma_cls(s: CpuView)
    requires
        s.regs.len() == 8,
        executes(s),
        fetched_instruction(s).opcode == Opcode::Cls,
    ensures
        ({
            let i = fetched_instruction(s);
            let t = step_spec(s).0;
            let a = reg_value(s.regs, i.ra);
            let b = reg_value(s.regs, i.rb);
            &&& step_spec(s).1 == ExecuteResult::Executed
            &&& t.c == (sx24(a) < sx24(b))
            &&& t.regs == s.regs
            &&& t.mem == s.mem
            &&& t.pc == (s.pc + 1) % 0x1000000
        }),
{
    lemma_executed(s);
    reveal(effect);
    let i = fetched_instruction(s);
    let a = reg_value(s.regs, i.ra);
    let b = reg_value(s.regs, i.rb);

}

/// `jmp (ra)`: the program counter becomes the address in ra (not rb); registers, flag and memory are kept.
#[verifier::rlimit(60)]
#[verifier::spinoff_prover]
pub proof fn lemma_jmp(s: CpuView)
    requires
        s.regs.len() == 8,
        executes(s),
        fetched_instruction(s).opcode == Opcode::Jmp,
    ensures
        ({
            let i = fetched_instruction(s);
            let t = step_spec(s).0;
            let a = reg_value(s.regs, i.ra);
            let b = reg_value(s.regs, i.rb);
            &&& step_spec(s).1 == ExecuteResult::Executed
            &&& t.pc == a
            &&& t.regs == s.regs
            &&& t.mem == s.mem
            &&& t.c == s.c
        }),
{
    lemma_executed(s);
    reveal(effect);
    let i = fetched_instruction(s);
    let a = reg_value(s.regs, i.ra);
    let b = reg_value(s.regs, i.rb);

}

/// `jal ra,(rb)`: the program counter becomes the address in rb and ra holds the address after the `jal`.
#[verifier::rlimit(60)]
#[verifier::spinoff_prover]
pub proof fn lemma_jal(s: CpuView)
    requires
        s.regs.len() == 8,
        executes(s),
        fetched_instruction(s).opcode == Opcode::Jal,
    ensures
        ({
            let i = fetched_instruction(s);
            let t = step_spec(s).0;
            let a = reg_value(s.regs, i.ra);
            let b = reg_value(s.regs, i.rb);
            &&& step_spec(s).1 == ExecuteResult::Executed
            &&& t.pc == b
            &&& reg_value(t.regs, i.ra) == (s.pc + 1) % 0x1000000
            &&& forall|q: u8| q % 8 != i.ra % 8 ==> #[trigger] reg_value(t.regs, q) == reg_value(s.regs, q)
            &&& t.mem == s.mem
        }),
{
    lemma_executed(s);
    reveal(effect);
    let i = fetched_instruction(s);
    let a = reg_value(s.regs, i.ra);
    let b = reg_value(s.regs, i.rb);
    lemma_writes_only(s.regs, i.ra, wrap24(s.pc + 1));
}

/// `bra dd`: the program counter becomes the address after the branch plus the sign-extended dd.
#[verifier::rlimit(60)]
#[verifier::spinoff_prover]
pub proof fn lemma_bra(s: CpuView)
    requires
        s.regs.len() == 8,
        executes(s),
        fetched_instruction(s).opcode == Opcode::Bra,
    ensures
        ({
            let i = fetched_instruction(s);
            let t = step_spec(s).0;
            let a = reg_value(s.regs, i.ra);
            let b = reg_value(s.regs, i.rb);
            &&& step_spec(s).1 == ExecuteResult::Executed
            &&& t.pc == ((s.pc + 2) % 0x1000000 + sext8(operand8(s))) % 0x1000000
            &&& t.regs == s.regs
            &&& t.mem == s.mem
            &&& t.c == s.c
        }),
{
    lemma_executed(s);
    reveal(effect);
    let i = fetched_instruction(s);
    let a = reg_value(s.regs, i.ra);
    let b = reg_value(s.regs, i.rb);

}

/// `brf dd`: branches as `bra` when C is clear, else goes on after it.
#[verifier::rlimit(60)]
#[verifier::spinoff_prover]
pub proof fn lemma_brf(s: CpuView)
    requires
        s.regs.len() == 8,
        executes(s),
        fetched_instruction(s).opcode == Opcode::Brf,
    ensures
        ({
            let i = fetched_instruction(s);
            let t = step_spec(s).0;
            let a = reg_value(s.regs, i.ra);
            let b = reg_value(s.regs, i.rb);
            &&& step_spec(s).1 == ExecuteResult::Executed
            &&& t.pc == (if s.c { (s.pc + 2) % 0x1000000 } else { ((s.pc + 2) % 0x1000000 + sext8(operand8(s))) % 0x1000000 })
            &&& t.regs == s.regs
            &&& t.mem == s.mem
        }),
{
    lemma_executed(s);
    reveal(effect);
    let i = fetched_instruction(s);
    let a = reg_value(s.regs, i.ra);
    let b = reg_value(s.regs, i.rb);

}

/// `brt dd`: branches as `bra` when C is set, else goes on after it.
#[verifier::rlimit(60)]
#[verifier::spinoff_prover]
pub proof fn lemma_brt(s: CpuView)
    requires
        s.regs.len() == 8,
        executes(s),
        fetched_instruction(s).opcode == Opcode::Brt,
    ensures
        ({
            let i = fetched_instruction(s);
            let t = step_spec(s).0;
            let a = reg_value(s.regs, i.ra);
            let b = reg_value(s.regs, i.rb);
            &&& step_spec(s).1 == ExecuteResult::Executed
            &&& t.pc == (if s.c { ((s.pc + 2) % 0x1000000 + sext8(operand8(s))) % 0x1000000 } else { (s.pc + 2) % 0x1000000 })
            &&& t.regs == s.regs
            &&& t.mem == s.mem
        }),
{
    lemma_executed(s);
    reveal(effect);
    let i = fetched_instruction(s);
    let a = reg_value(s.regs, i.ra);
    let b = reg_value(s.regs, i.rb);

}

/// `la ir,dddddd` with a nonzero address: a jump to that address.
#[verifier::rlimit(60)]
#[verifier::spinoff_prover]
pub proof fn lemma_la_ir(s: CpuView)
    requires
        s.regs.len() == 8,
        executes(s),
        fetched_instruction(s).opcode == Opcode::La,
        fetched_instruction(s).ra == 7,
        !halt_jump(s),
    ensures
        ({
            let i = fetched_instruction(s);
            let t = step_spec(s).0;
            let a = reg_value(s.regs, i.ra);
            let b = reg_value(s.regs, i.rb);
            &&& step_spec(s).1 == ExecuteResult::Executed
            &&& t.pc == operand24(s)
            &&& t.regs == s.regs
            &&& t.mem == s.mem
        }),
{
    lemma_executed(s);
    reveal(effect);
    let i = fetched_instruction(s);
    let a = reg_value(s.regs, i.ra);
    let b = reg_value(s.regs, i.rb);

}

/// `lw ra,dd(rb)`: ra becomes the little-endian word at rb plus the sign-extended dd.
#[verifier::rlimit(60)]
#[verifier::spinoff_prover]
pub proof fn lemma_lw(s: CpuView)
    requires
        s.regs.len() == 8,
        executes(s),
        fetched_instruction(s).opcode == Opcode::Lw,
        s.mem.len() >= MEMORY_SIZE,
    ensures
        ({
            let i = fetched_instruction(s);
            let t = step_spec(s).0;
            let a = reg_value(s.regs, i.ra);
            let b = reg_value(s.regs, i.rb);
            &&& step_spec(s).1 == ExecuteResult::Executed
            &&& reg_value(t.regs, i.ra) == word_at(s.mem, operand_address(s))
            &&& forall|q: u8| q % 8 != i.ra % 8 ==> #[trigger] reg_value(t.regs, q) == reg_value(s.regs, q)
            &&& t.mem == s.mem
            &&& t.pc == (s.pc + 2) % 0x1000000
        }),
{
    lemma_executed(s);
    reveal(effect);
    let i = fetched_instruction(s);
    let a = reg_value(s.regs, i.ra);
    let b = reg_value(s.regs, i.rb);
    lemma_writes_only(s.regs, i.ra, word_at(s.mem, operand_address(s)));
    assert(word_at(s.mem, operand_address(s)) < 0x1000000);
}

/// `lb ra,dd(rb)`: ra becomes the byte at the effective address, sign-extended.
#[verifier::rlimit(100)]
#[verifier::spinoff_prover]
pub proof fn lemma_lb(s: CpuView)
    requires
        s.regs.len() == 8,
        executes(s),
        fetched_instruction(s).opcode == Opcode::Lb,
        s.mem.len() >= MEMORY_SIZE,
    ensures
        ({
            let i = fetched_instruction(s);
            let t = step_spec(s).0;
            let a = reg_value(s.regs, i.ra);
            let b = reg_value(s.regs, i.rb);
            &&& step_spec(s).1 == ExecuteResult::Executed
            &&& reg_value(t.regs, i.ra) == sext8(byte_at(s.mem, operand_address(s)))
            &&& forall|q: u8| q % 8 != i.ra % 8 ==> #[trigger] reg_value(t.regs, q) == reg_value(s.regs, q)
            &&& t.mem == s.mem
            &&& t.pc == (s.pc + 2) % 0x1000000
        }),
{
    lemma_executed(s);
    reveal(effect);
    let i = fetched_instruction(s);
    let a = reg_value(s.regs, i.ra);
    let b = reg_value(s.regs, i.rb);
    assert(effective_address(s, i.rb, operand8(s)) as int == operand_address(s));
    lemma_writes_only(s.regs, i.ra, sext8(byte_at(s.mem, operand_address(s))));
}

/// `lbu ra,dd(rb)`: ra becomes the byte at the effective address, zero-extended.
#[verifier::rlimit(60)]
#[verifier::spinoff_prover]
pub proof fn lemma_lbu(s: CpuView)
    requires
        s.regs.len() == 8,
        executes(s),
        fetched_instruction(s).opcode == Opcode::Lbu,
        s.mem.len() >= MEMORY_SIZE,
    ensures
        ({
            let i = fetched_instruction(s);
            let t = step_spec(s).0;
            let a = reg_value(s.regs, i.ra);
            let b = reg_value(s.regs, i.rb);
            &&& step_spec(s).1 == ExecuteResult::Executed
            &&& reg_value(t.regs, i.ra) == byte_at(s.mem, operand_address(s)) as u32
            &&& forall|q: u8| q % 8 != i.ra % 8 ==> #[trigger] reg_value(t.regs, q) == reg_value(s.regs, q)
            &&& t.mem == s.mem
            &&& t.pc == (s.pc + 2) % 0x1000000
        }),
{
    lemma_executed(s);
    reveal(effect);
    let i = fetched_instruction(s);
    let a = reg_value(s.regs, i.ra);
    let b = reg_value(s.regs, i.rb);
    lemma_writes_only(s.regs, i.ra, byte_at(s.mem, operand_address(s)) as u32);
}

/// `sw ra,dd(rb)`: the word at the effective address becomes ra; registers are kept.
#[verifier::rlimit(100)]
#[verifier::spinoff_prover]
pub proof fn lemma_sw(s: CpuView)
    requires
        s.regs.len() == 8,
        executes(s),
        fetched_instruction(s).opcode == Opcode::Sw,
        s.mem.len() >= MEMORY_SIZE,
    ensures
        ({
            let i = fetched_instruction(s);
            let t = step_spec(s).0;
            let a = reg_value(s.regs, i.ra);
            let b = reg_value(s.regs, i.rb);
            &&& step_spec(s).1 == ExecuteResult::Executed
            &&& word_at(t.mem, operand_address(s)) == a
            &&& t.regs == s.regs
            &&& t.pc == (s.pc + 2) % 0x1000000
        }),
{
    lemma_executed(s);
    let i = fetched_instruction(s);
    let a = reg_value(s.regs, i.ra);
    lemma_effect_sw(s, i, operand8(s), wrap24(s.pc + 2));
    assert(effective_address(s, i.rb, operand8(s)) as int == operand_address(s));
    lemma_store_word_read(s.mem, operand_address(s), operand_address(s), a);
}

/// `sub sp,dddddd`: sp goes down by the 24-bit word after the opcode, in 24 bits; every other
/// register and memory are kept, and the program counter moves four bytes on.
#[verifier::rlimit(60)]
#[verifier::spinoff_prover]
pub proof fn lemma_sub_sp(s: CpuView)
    requires
        s.regs.len() == 8,
        executes(s),
        fetched_instruction(s).opcode == Opcode::SubSp,
    ensures
        ({
            let t = step_spec(s).0;
            &&& step_spec(s).1 == ExecuteResult::Executed
            &&& reg_value(t.regs, 4) == (reg_value(s.regs, 4) - operand24(s)) % 0x1000000
            &&& forall|q: u8| q % 8 != 4 ==> #[trigger] reg_value(t.regs, q) == reg_value(s.regs, q)
            &&& t.mem == s.mem
            &&& t.pc == (s.pc + 4) % 0x1000000
        }),
{
    lemma_executed(s);
    reveal(effect);
    lemma_writes_only(s.regs, 4, wrap24(reg_value(s.regs, 4) - operand24(s)));
}

/// The effect of a `sw`.
proof fn lemma_effect_sw(s: CpuView, i: DecodedInstruction, imm8: u8, next_pc: u32)
    requires
        i.opcode == Opcode::Sw,
    ensures
        effect(s, i, imm8, 0, next_pc) == (CpuView {
            mem: store_word(s.mem, effective_address(s, i.rb, imm8) as int, reg_value(s.regs, i.ra)),
            pc: next_pc,
            ..s
        }),
{
    reveal(effect);
}

/// `sb ra,dd(rb)`: the byte at the effective address becomes the low byte of ra; registers are kept.
#[verifier::rlimit(60)]
#[verifier::spinoff_prover]
pub proof fn lemma_sb(s: CpuView)
    requires
        s.regs.len() == 8,
        executes(s),
        fetched_instruction(s).opcode == Opcode::Sb,
        s.mem.len() >= MEMORY_SIZE,
    ensures
        ({
            let i = fetched_instruction(s);
            let t = step_spec(s).0;
            let a = reg_value(s.regs, i.ra);
            let b = reg_value(s.regs, i.rb);
            &&& step_spec(s).1 == ExecuteResult::Executed
            &&& byte_at(t.mem, operand_address(s)) == (a % 256) as u8
            &&& t.regs == s.regs
            &&& t.pc == (s.pc + 2) % 0x1000000
        }),
{
    lemma_executed(s);
    reveal(effect);
    let i = fetched_instruction(s);
    let a = reg_value(s.regs, i.ra);
    let b = reg_value(s.regs, i.rb);
    lemma_store_byte_read(s.mem, operand_address(s), operand_address(s), (a % 256) as u8);
}

/// `push ra` (ra not sp): sp goes down by 3 (in 24 bits) and the word at the new sp becomes ra.
#[verifier::rlimit(60)]
#[verifier::spinoff_prover]
pub proof fn lemma_push(s: CpuView)
    requires
        s.regs.len() == 8,
        executes(s),
        fetched_instruction(s).opcode == Opcode::Push,
        s.mem.len() >= MEMORY_SIZE,
        fetched_instruction(s).ra % 8 != 4,
    ensures
        ({
            let i = fetched_instruction(s);
            let t = step_spec(s).0;
            let a = reg_value(s.regs, i.ra);
            let b = reg_value(s.regs, i.rb);
            &&& step_spec(s).1 == ExecuteResult::Executed
            &&& reg_value(t.regs, 4) == (reg_value(s.regs, 4) - 3) % 0x1000000
            &&& word_at(t.mem, (reg_value(s.regs, 4) - 3) % 0x1000000) == a
            &&& t.pc == (s.pc + 1) % 0x1000000
        }),
{
    lemma_executed(s);
    reveal(effect);
    let i = fetched_instruction(s);
    let a = reg_value(s.regs, i.ra);
    let b = reg_value(s.regs, i.rb);
    let new_sp = wrap24(reg_value(s.regs, 4) - 3);
    lemma_reg_update_read(s.regs, 4, 4, new_sp);
    lemma_reg_update_read(s.regs, 4, i.ra, new_sp);
    lemma_store_word_read(s.mem, new_sp as int, new_sp as int, a);
}

/// `pop ra` (ra not sp): ra becomes the word at sp and sp goes up by 3 (in 24 bits).
#[verifier::rlimit(60)]
#[verifier::spinoff_prover]
pub proof fn lemma_pop(s: CpuView)
    requires
        s.regs.len() == 8,
        executes(s),
        fetched_instruction(s).opcode == Opcode::Pop,
        s.mem.len() >= MEMORY_SIZE,
        fetched_instruction(s).ra % 8 != 4,
    ensures
        ({
            let i = fetched_instruction(s);
            let t = step_spec(s).0;
            let a = reg_value(s.regs, i.ra);
            let b = reg_value(s.regs, i.rb);
            &&& step_spec(s).1 == ExecuteResult::Executed
            &&& reg_value(t.regs, i.ra) == word_at(s.mem, reg_value(s.regs, 4) as int)
            &&& reg_value(t.regs, 4) == (reg_value(s.regs, 4) + 3) % 0x1000000
            &&& t.mem == s.mem
            &&& t.pc == (s.pc + 1) % 0x1000000
        }),
{
    lemma_executed(s);
    reveal(effect);
    let i = fetched_instruction(s);
    let a = reg_value(s.regs, i.ra);
    let b = reg_value(s.regs, i.rb);
    let w = word_at(s.mem, reg_value(s.regs, 4) as int);
    let regs1 = reg_update(s.regs, i.ra, w);
    lemma_reg_update_read(s.regs, i.ra, i.ra, w);
    lemma_reg_update_read(regs1, 4, i.ra, wrap24(reg_value(s.regs, 4) + 3));
    lemma_reg_update_read(regs1, 4, 4, wrap24(reg_value(s.regs, 4) + 3));
}

/// COR24 instruction executor
pub struct Executor {
    decode_rom: DecodeRom,
}

impl Clone for Executor {
    fn clone(&self) -> (r: Self) {
        Executor { decode_rom: self.decode_rom.clone() }
    }
}

impl Default for Executor {
    fn default() -> (r: Self) {
        Self::new()
    }
}

impl Executor {
    /// The decode ROM the executor decodes with, indexed by instruction byte.
    pub closed spec fn rom(&self) -> Seq<u16> {
        self.decode_rom.table()
    }

    /// An executor with the COR24 decode ROM.
    pub fn new() -> (r: Self)
        ensures
            r.rom() == rom_table(),
    {
        Self { decode_rom: DecodeRom::new() }
    }

    /// Whether the next step can count its instruction without overflowing a counter.
    pub fn step_fits(&self, cpu: &CpuState) -> (r: bool)
        requires
            cpu.wf(),
        ensures
            r == step_counts_fit(cpu@),
    {
        let byte = cpu.read_byte(cpu.pc);
        let decoded = self.decode_rom.decode(byte);
        let executes = !cpu.halted && !(byte == 0 && cpu.pc == 0) && decoded != INVALID_ENTRY
            && DecodedInstruction::from_decoded(decoded).opcode != Opcode::Invalid;
        !executes || (cpu.cycles < u64::MAX && cpu.instructions < u64::MAX)
    }

    /// Execute a single instruction
    pub fn step(&self, cpu: &mut CpuState) -> (r: ExecuteResult)
        requires
            old(cpu).halted || old(cpu).wf(),
            step_counts_fit(old(cpu)@),
        ensures
            old(cpu).wf() ==> final(cpu).wf(),
            (final(cpu)@, r) == step_spec(old(cpu)@),
    {
        if cpu.halted {
            return ExecuteResult::Halted;
        }
        // Fetch instruction byte

        let inst_byte = cpu.read_byte(cpu.pc);

        // Check for HALT (using 0x00 at address 0 as halt)
        if inst_byte == 0x00 && cpu.pc == 0 {
            cpu.halted = true;
            return ExecuteResult::Halted;
        }
        // Decode instruction

        let decoded_value = self.decode_rom.decode(inst_byte);
        if decoded_value == INVALID_ENTRY {
            return ExecuteResult::InvalidInstruction(inst_byte);
        }
        let inst = DecodedInstruction::from_decoded(decoded_value);
        if inst.opcode == Opcode::Invalid {
            return ExecuteResult::InvalidInstruction(inst_byte);
        }
        let format = inst.opcode.format();

        // Fetch additional bytes based on format
        proof {
            lemma_cell_wrap(cpu.pc, 1);
        }
        let imm8 = match format {
            InstructionFormat::TwoBytes | InstructionFormat::FourBytes => {
                cpu.read_byte(cpu.pc.wrapping_add(1))
            },
            _ => 0,
        };
        let imm24 = match format {
            InstructionFormat::FourBytes => cpu.read_word(cpu.pc.wrapping_add(1)),
            _ => 0,
        };
        proof {
            assert(cell(cpu.pc.wrapping_add(1) as int) == cell(cpu.pc + 1));
            assert(word_at(cpu.memory@, cpu.pc.wrapping_add(1) as int) == word_at(
                cpu.memory@,
                cpu.pc + 1,
            )) by {
                lemma_cell_wrap(cpu.pc, 2);
                assert(cell(cpu.pc.wrapping_add(1) + 1) == cell(cpu.pc + 2)) by {
                    if cpu.pc + 1 > u32::MAX {
                    } else {
                    }
                }
                assert(cell(cpu.pc.wrapping_add(1) + 2) == cell(cpu.pc + 3)) by {
                    if cpu.pc + 1 > u32::MAX {
                    } else {
                    }
                }
            }
        }

        // `la ir,0` (the encoding of `halt`) stops the CPU
        if inst.opcode == Opcode::La && inst.ra == 7 && imm24 == 0 {
            cpu.halted = true;
            return ExecuteResult::Halted;
        }

        // Calculate next PC
        let inst_size: u32 = match format {
            InstructionFormat::SingleByte => 1,
            InstructionFormat::TwoBytes => 2,
            InstructionFormat::FourBytes => 4,
        };
        let next_pc = CpuState::mask_24(cpu.pc.wrapping_add(inst_size));
        proof {
            if cpu.pc + inst_size > u32::MAX {
                assert((cpu.pc + inst_size - 0x1_0000_0000) % 0x1000000 == (cpu.pc + inst_size)
                    % 0x1000000);
            }
        }
        Self::execute(cpu, inst, imm8, imm24, next_pc);
        proof {
            lemma_effect_frame(old(cpu)@, inst, imm8, imm24, next_pc);
        }
        cpu.cycles += 1;
        cpu.instructions += 1;
        ExecuteResult::Executed
    }

    /// Carries out a decoded instruction.
    fn execute(cpu: &mut CpuState, inst: DecodedInstruction, imm8: u8, imm24: u32, next_pc: u32)
        requires
            old(cpu).wf(),
            next_pc < 0x1000000,
        ensures
            final(cpu).wf(),
            final(cpu)@ == effect(old(cpu)@, inst, imm8, imm24, next_pc),
    {
        match inst.opcode {
            Opcode::AddReg | Opcode::AddImm | Opcode::Mul | Opcode::Sub | Opcode::SubSp => {
                match inst.opcode {
            Opcode::AddReg => Self::execute_addreg(cpu, inst, imm8, imm24, next_pc),
            Opcode::AddImm => Self::execute_addimm(cpu, inst, imm8, imm24, next_pc),
            Opcode::Mul => Self::execute_mul(cpu, inst, imm8, imm24, next_pc),
            Opcode::Sub => Self::execute_sub(cpu, inst, imm8, imm24, next_pc),
            Opcode::SubSp => Self::execute_subsp(cpu, inst, imm8, imm24, next_pc),
            _ => {},
                }
            },
            Opcode::And | Opcode::Or | Opcode::Xor | Opcode::Sxt | Opcode::Zxt => {
                match inst.opcode {
            Opcode::And => Self::execute_and(cpu, inst, imm8, imm24, next_pc),
            Opcode::Or => Self::execute_or(cpu, inst, imm8, imm24, next_pc),
            Opcode::Xor => Self::execute_xor(cpu, inst, imm8, imm24, next_pc),
            Opcode::Sxt => Self::execute_sxt(cpu, inst, imm8, imm24, next_pc),
            Opcode::Zxt => Self::execute_zxt(cpu, inst, imm8, imm24, next_pc),
            _ => {},
                }
            },
            Opcode::Bra | Opcode::Brf | Opcode::Brt | Opcode::Ceq | Opcode::Cls | Opcode::Clu | Opcode::Jal | Opcode::Jmp | Opcode::La | Opcode::Mov => {
                Self::execute_control(cpu, inst, imm8, imm24, next_pc);
            },
            Opcode::Lb | Opcode::Lbu | Opcode::Lc | Opcode::Lcu | Opcode::Lw | Opcode::Pop | Opcode::Push | Opcode::Sb | Opcode::Sw => {
                Self::execute_memory(cpu, inst, imm8, imm24, next_pc);
            },
            Opcode::Shl | Opcode::Sra | Opcode::Srl => {
                Self::execute_shift(cpu, inst, imm8, imm24, next_pc);
            },
            Opcode::Invalid => {
                proof {
                    reveal(effect);
                }
            },
        }
    }

    fn execute_addreg(cpu: &mut CpuState, inst: DecodedInstruction, imm8: u8, imm24: u32, next_pc: u32)
        requires
            old(cpu).wf(),
            next_pc < 0x1000000,
            inst.opcode == Opcode::AddReg,
        ensures
            final(cpu).wf(),
            final(cpu)@ == effect(old(cpu)@, inst, imm8, imm24, next_pc),
    {
        proof {
            reveal(effect);
        }
        let ra_val = cpu.get_reg(inst.ra);
        let rb_val = cpu.get_reg(inst.rb);
        let result = CpuState::mask_24(ra_val.wrapping_add(rb_val));
        cpu.set_reg(inst.ra, result);
        cpu.pc = next_pc;
    }

    fn execute_addimm(cpu: &mut CpuState, inst: DecodedInstruction, imm8: u8, imm24: u32, next_pc: u32)
        requires
            old(cpu).wf(),
            next_pc < 0x1000000,
            inst.opcode == Opcode::AddImm,
        ensures
            final(cpu).wf(),
            final(cpu)@ == effect(old(cpu)@, inst, imm8, imm24, next_pc),
    {
        proof {
            reveal(effect);
        }
        let ra_val = cpu.get_reg(inst.ra);
        let imm = CpuState::sign_extend_8(imm8);
        let result = CpuState::mask_24(ra_val.wrapping_add(imm));
        cpu.set_reg(inst.ra, result);
        cpu.pc = next_pc;
    }

    fn execute_mul(cpu: &mut CpuState, inst: DecodedInstruction, imm8: u8, imm24: u32, next_pc: u32)
        requires
            old(cpu).wf(),
            next_pc < 0x1000000,
            inst.opcode == Opcode::Mul,
        ensures
            final(cpu).wf(),
            final(cpu)@ == effect(old(cpu)@, inst, imm8, imm24, next_pc),
    {
        proof {
            reveal(effect);
        }
        let ra_val = cpu.get_reg(inst.ra);
        let rb_val = cpu.get_reg(inst.rb);
        let result = CpuState::mask_24(ra_val.wrapping_mul(rb_val));
        proof {
            reveal(mul24);
            vstd::arithmetic::div_mod::lemma_mod_mod(
                ra_val * rb_val,
                0x1000000,
                256,
            );
        }
        cpu.set_reg(inst.ra, result);
        cpu.pc = next_pc;
    }

    fn execute_sub(cpu: &mut CpuState, inst: DecodedInstruction, imm8: u8, imm24: u32, next_pc: u32)
        requires
            old(cpu).wf(),
            next_pc < 0x1000000,
            inst.opcode == Opcode::Sub,
        ensures
            final(cpu).wf(),
            final(cpu)@ == effect(old(cpu)@, inst, imm8, imm24, next_pc),
    {
        proof {
            reveal(effect);
        }
        let ra_val = cpu.get_reg(inst.ra);
        let rb_val = cpu.get_reg(inst.rb);
        let result = CpuState::mask_24(ra_val.wrapping_sub(rb_val));
        proof {
            lemma_wrapping_sub_mod24(ra_val, rb_val);
        }
        cpu.set_reg(inst.ra, result);
        cpu.pc = next_pc;
    }

    fn execute_subsp(cpu: &mut CpuState, inst: DecodedInstruction, imm8: u8, imm24: u32, next_pc: u32)
        requires
            old(cpu).wf(),
            next_pc < 0x1000000,
            inst.opcode == Opcode::SubSp,
        ensures
            final(cpu).wf(),
            final(cpu)@ == effect(old(cpu)@, inst, imm8, imm24, next_pc),
    {
        proof {
            reveal(effect);
        }
        let sp = cpu.get_reg(4);
        let result = CpuState::mask_24(sp.wrapping_sub(imm24));
        proof {
            lemma_wrapping_sub_mod24(sp, imm24);
        }
        cpu.set_reg(4, result);
        cpu.pc = next_pc;
    }

    fn execute_and(cpu: &mut CpuState, inst: DecodedInstruction, imm8: u8, imm24: u32, next_pc: u32)
        requires
            old(cpu).wf(),
            next_pc < 0x1000000,
            inst.opcode == Opcode::And,
        ensures
            final(cpu).wf(),
            final(cpu)@ == effect(old(cpu)@, inst, imm8, imm24, next_pc),
    {
        proof {
            reveal(effect);
        }
        let ra_val = cpu.get_reg(inst.ra);
        let rb_val = cpu.get_reg(inst.rb);
        proof {
            assert(ra_val < 0x1000000 && rb_val < 0x1000000 ==> (ra_val & rb_val)
                < 0x1000000) by (bit_vector);
        }
        cpu.set_reg(inst.ra, ra_val & rb_val);
        cpu.pc = next_pc;
    }

    fn execute_or(cpu: &mut CpuState, inst: DecodedInstruction, imm8: u8, imm24: u32, next_pc: u32)
        requires
            old(cpu).wf(),
            next_pc < 0x1000000,
            inst.opcode == Opcode::Or,
        ensures
            final(cpu).wf(),
            final(cpu)@ == effect(old(cpu)@, inst, imm8, imm24, next_pc),
    {
        proof {
            reveal(effect);
        }
        let ra_val = cpu.get_reg(inst.ra);
        let rb_val = cpu.get_reg(inst.rb);
        proof {
            assert(ra_val < 0x1000000 && rb_val < 0x1000000 ==> (ra_val | rb_val)
                < 0x1000000) by (bit_vector);
        }
        cpu.set_reg(inst.ra, ra_val | rb_val);
        cpu.pc = next_pc;
    }

    fn execute_xor(cpu: &mut CpuState, inst: DecodedInstruction, imm8: u8, imm24: u32, next_pc: u32)
        requires
            old(cpu).wf(),
            next_pc < 0x1000000,
            inst.opcode == Opcode::Xor,
        ensures
            final(cpu).wf(),
            final(cpu)@ == effect(old(cpu)@, inst, imm8, imm24, next_pc),
    {
        proof {
            reveal(effect);
        }
        let ra_val = cpu.get_reg(inst.ra);
        let rb_val = cpu.get_reg(inst.rb);
        proof {
            assert(ra_val < 0x1000000 && rb_val < 0x1000000 ==> (ra_val ^ rb_val)
                < 0x1000000) by (bit_vector);
        }
        cpu.set_reg(inst.ra, ra_val ^ rb_val);
        cpu.pc = next_pc;
    }

    fn execute_sxt(cpu: &mut CpuState, inst: DecodedInstruction, imm8: u8, imm24: u32, next_pc: u32)
        requires
            old(cpu).wf(),
            next_pc < 0x1000000,
            inst.opcode == Opcode::Sxt,
        ensures
            final(cpu).wf(),
            final(cpu)@ == effect(old(cpu)@, inst, imm8, imm24, next_pc),
    {
        proof {
            reveal(effect);
        }
        let rb_val = cpu.get_reg(inst.rb);
        proof {
        assert(rb_val & 0xFF == rb_val % 256) by (bit_vector);
    }
    cpu.set_reg(inst.ra, CpuState::sign_extend_8((rb_val & 0xFF) as u8));
        cpu.pc = next_pc;
    }

    fn execute_zxt(cpu: &mut CpuState, inst: DecodedInstruction, imm8: u8, imm24: u32, next_pc: u32)
        requires
            old(cpu).wf(),
            next_pc < 0x1000000,
            inst.opcode == Opcode::Zxt,
        ensures
            final(cpu).wf(),
            final(cpu)@ == effect(old(cpu)@, inst, imm8, imm24, next_pc),
    {
        proof {
            reveal(effect);
        }
        let rb_val = cpu.get_reg(inst.rb);
        proof {
            assert(rb_val & 0xFF == rb_val % 256) by (bit_vector);
        }
        cpu.set_reg(inst.ra, rb_val & 0xFF);
        cpu.pc = next_pc;
    }

    fn execute_control(cpu: &mut CpuState, inst: DecodedInstruction, imm8: u8, imm24: u32, next_pc: u32)
        requires
            old(cpu).wf(),
            next_pc < 0x1000000,
            inst.opcode == Opcode::Bra || inst.opcode == Opcode::Brf || inst.opcode == Opcode::Brt || inst.opcode == Opcode::Ceq || inst.opcode == Opcode::Cls || inst.opcode == Opcode::Clu || inst.opcode == Opcode::Jal || inst.opcode == Opcode::Jmp || inst.opcode == Opcode::La || inst.opcode == Opcode::Mov,
        ensures
            final(cpu).wf(),
            final(cpu)@ == effect(old(cpu)@, inst, imm8, imm24, next_pc),
    {
        proof {
            reveal(effect);
        }
        match inst.opcode {
            Opcode::Bra => {
                let offset = CpuState::sign_extend_8(imm8);
                cpu.pc = CpuState::mask_24(next_pc.wrapping_add(offset));
            },
            Opcode::Brf => {
                if !cpu.c {
                    let offset = CpuState::sign_extend_8(imm8);
                    cpu.pc = CpuState::mask_24(next_pc.wrapping_add(offset));
                } else {
                    cpu.pc = next_pc;
                }
            },
            Opcode::Brt => {
                if cpu.c {
                    let offset = CpuState::sign_extend_8(imm8);
                    cpu.pc = CpuState::mask_24(next_pc.wrapping_add(offset));
                } else {
                    cpu.pc = next_pc;
                }
            },
            Opcode::Ceq => {
                let ra_val = cpu.get_reg(inst.ra);
                let rb_val = cpu.get_reg(inst.rb);
                cpu.c = ra_val == rb_val;
                cpu.pc = next_pc;
            },
            Opcode::Cls => {
                // compare less signed: both operands read as 24-bit two's complement
                let ra_val = cpu.get_reg(inst.ra);
                let rb_val = cpu.get_reg(inst.rb);
                let ra_signed = Self::signed24(ra_val);
                let rb_signed = Self::signed24(rb_val);
                cpu.c = ra_signed < rb_signed;
                cpu.pc = next_pc;
            },
            Opcode::Clu => {
                let ra_val = cpu.get_reg(inst.ra);
                let rb_val = cpu.get_reg(inst.rb);
                cpu.c = ra_val < rb_val;
                cpu.pc = next_pc;
            },
            Opcode::Jal => {
                let target = cpu.get_reg(inst.rb);
                cpu.set_reg(inst.ra, next_pc);
                cpu.pc = target;
            },
            Opcode::Jmp => {
                let target = cpu.get_reg(inst.ra);
                cpu.pc = target;
            },
            Opcode::La => {
                if inst.ra == 7 {
                    // jmp dddddd (absolute jump)
                    cpu.pc = imm24;
                } else {
                    cpu.set_reg(inst.ra, imm24);
                    cpu.pc = next_pc;
                }
            },
            Opcode::Mov => {
                if inst.rb == 5 {
                    // mov ra,c
                    cpu.set_reg(inst.ra, if cpu.c { 1 } else { 0 });
                } else {
                    let v = cpu.get_reg(inst.rb);
                    cpu.set_reg(inst.ra, v);
                }
                cpu.pc = next_pc;
            },
            _ => {},
        }
    }

    fn execute_memory(cpu: &mut CpuState, inst: DecodedInstruction, imm8: u8, imm24: u32, next_pc: u32)
        requires
            old(cpu).wf(),
            next_pc < 0x1000000,
            inst.opcode == Opcode::Lb || inst.opcode == Opcode::Lbu || inst.opcode == Opcode::Lc || inst.opcode == Opcode::Lcu || inst.opcode == Opcode::Lw || inst.opcode == Opcode::Pop || inst.opcode == Opcode::Push || inst.opcode == Opcode::Sb || inst.opcode == Opcode::Sw,
        ensures
            final(cpu).wf(),
            final(cpu)@ == effect(old(cpu)@, inst, imm8, imm24, next_pc),
    {
        proof {
            reveal(effect);
        }
        match inst.opcode {
            Opcode::Lb => {
                let addr = Self::effective_addr(cpu, inst.rb, imm8);
                let value = cpu.read_byte(addr);
                cpu.set_reg(inst.ra, CpuState::sign_extend_8(value));
                cpu.pc = next_pc;
            },
            Opcode::Lbu => {
                let addr = Self::effective_addr(cpu, inst.rb, imm8);
                let value = cpu.read_byte(addr);
                cpu.set_reg(inst.ra, value as u32);
                cpu.pc = next_pc;
            },
            Opcode::Lc => {
                cpu.set_reg(inst.ra, CpuState::sign_extend_8(imm8));
                cpu.pc = next_pc;
            },
            Opcode::Lcu => {
                cpu.set_reg(inst.ra, imm8 as u32);
                cpu.pc = next_pc;
            },
            Opcode::Lw => {
                let addr = Self::effective_addr(cpu, inst.rb, imm8);
                let value = cpu.read_word(addr);
                cpu.set_reg(inst.ra, value);
                cpu.pc = next_pc;
            },
            Opcode::Pop => {
                let sp = cpu.get_reg(4);
                let value = cpu.read_word(sp);
                cpu.set_reg(inst.ra, value);
                cpu.set_reg(4, CpuState::mask_24(sp.wrapping_add(3)));
                cpu.pc = next_pc;
            },
            Opcode::Push => {
                let sp = cpu.get_reg(4);
                let new_sp = CpuState::mask_24(sp.wrapping_sub(3));
                proof {
                    lemma_wrapping_sub_mod24(sp, 3);
                }
                cpu.set_reg(4, new_sp);
                let value = cpu.get_reg(inst.ra);
                cpu.write_word(new_sp, value);
                cpu.pc = next_pc;
            },
            Opcode::Sb => {
                let addr = Self::effective_addr(cpu, inst.rb, imm8);
                let ra_val = cpu.get_reg(inst.ra);
                proof {
                    assert(ra_val & 0xFF == ra_val % 256) by (bit_vector);
                }
                let value = (ra_val & 0xFF) as u8;
                cpu.write_byte(addr, value);
                cpu.pc = next_pc;
            },
            Opcode::Sw => {
                let addr = Self::effective_addr(cpu, inst.rb, imm8);
                let value = cpu.get_reg(inst.ra);
                cpu.write_word(addr, value);
                cpu.pc = next_pc;
            },
            _ => {},
        }
    }

    fn execute_shift(cpu: &mut CpuState, inst: DecodedInstruction, imm8: u8, imm24: u32, next_pc: u32)
        requires
            old(cpu).wf(),
            next_pc < 0x1000000,
            inst.opcode == Opcode::Shl || inst.opcode == Opcode::Sra || inst.opcode == Opcode::Srl,
        ensures
            final(cpu).wf(),
            final(cpu)@ == effect(old(cpu)@, inst, imm8, imm24, next_pc),
    {
        proof {
            reveal(effect);
        }
        match inst.opcode {
            Opcode::Shl => {
                let ra_val = cpu.get_reg(inst.ra);
                let rb_val = cpu.get_reg(inst.rb);
                let shift = rb_val & 0x1F;
                assert(shift < 32) by (bit_vector)
                    requires
                        shift == rb_val & 0x1F,
                ;
                let result = CpuState::mask_24(ra_val << shift);
                proof {
                    lemma_mask24(ra_val << shift);
                }
                cpu.set_reg(inst.ra, result);
                cpu.pc = next_pc;
            },
            Opcode::Sra => {
                let ra_val = cpu.get_reg(inst.ra);
                let rb_val = cpu.get_reg(inst.rb);
                let shift = rb_val & 0x1F;
                assert(shift < 32) by (bit_vector)
                    requires
                        shift == rb_val & 0x1F,
                ;
                let result = Self::shift_right_arithmetic(ra_val, shift);
                cpu.set_reg(inst.ra, result);
                cpu.pc = next_pc;
            },
            Opcode::Srl => {
                let ra_val = cpu.get_reg(inst.ra);
                let rb_val = cpu.get_reg(inst.rb);
                let shift = rb_val & 0x1F;
                assert(shift < 32) by (bit_vector)
                    requires
                        shift == rb_val & 0x1F,
                ;
                let result = ra_val >> shift;
                proof {
                    assert(ra_val < 0x1000000 ==> (ra_val >> shift) < 0x1000000) by (bit_vector);
                }
                cpu.set_reg(inst.ra, result);
                cpu.pc = next_pc;
            },
            _ => {},
        }
    }

    /// The address `rb + sign_extend(dd)` truncated to 24 bits.
    fn effective_addr(cpu: &CpuState, rb: u8, imm8: u8) -> (r: u32)
        ensures
            r == effective_address(cpu@, rb, imm8),
    {
        let base = cpu.get_reg(rb);
        let offset = CpuState::sign_extend_8(imm8);
        CpuState::mask_24(base.wrapping_add(offset))
    }

    /// A 24-bit value read as a signed number.
    fn signed24(v: u32) -> (r: i32)
        requires
            v < 0x1000000,
        ensures
            r == sx24(v),
    {
        if v & 0x800000 != 0 {
            assert(v < 0x1000000 && v & 0x800000 != 0 ==> v >= 0x800000) by (bit_vector);
            (v as i32) - 0x1000000
        } else {
            assert(v < 0x1000000 && v & 0x800000 == 0 ==> v < 0x800000) by (bit_vector);
            v as i32
        }
    }

    /// Arithmetic shift right of a 24-bit value.
    fn shift_right_arithmetic(ra_val: u32, shift: u32) -> (r: u32)
        requires
            ra_val < 0x1000000,
            shift < 32,
        ensures
            r == sra24(ra_val, shift),
            r < 0x1000000,
    {
        let signed_val = if ra_val & 0x800000 != 0 {
            ra_val | 0xFF000000
        } else {
            ra_val
        };
        let shifted = (#[verifier::truncate] (signed_val as i32)) >> shift;
        let u = #[verifier::truncate] (shifted as u32);
        assert(u & 0xFFFFFF < 0x1000000) by (bit_vector);
        u & 0xFFFFFF
    }

    /// Run until halted or max cycles reached
    pub fn run(&self, cpu: &mut CpuState, max_cycles: u64) -> (r: ExecuteResult)
        requires
            old(cpu).halted || old(cpu).wf(),
            run_counts_fit(old(cpu)@, max_cycles as nat),
        ensures
            old(cpu).wf() ==> final(cpu).wf(),
            (final(cpu)@, r) == run_spec(old(cpu)@, max_cycles as nat),
    {
        let start_cycles = cpu.cycles;
        while cpu.cycles - start_cycles < max_cycles
            invariant
                cpu.halted || cpu.wf(),
                old(cpu).wf() ==> cpu.wf(),
                start_cycles <= cpu.cycles,
                cpu.cycles - start_cycles <= max_cycles,
                run_counts_fit(cpu@, (max_cycles - (cpu.cycles - start_cycles)) as nat),
                run_spec(old(cpu)@, max_cycles as nat) == run_spec(
                    cpu@,
                    (max_cycles - (cpu.cycles - start_cycles)) as nat,
                ),
            decreases max_cycles - (cpu.cycles - start_cycles),
        {
            match self.step(cpu) {
                ExecuteResult::Executed => {},
                result => return result,
            }
        }
        ExecuteResult::Executed
    }
}

} // verus!
