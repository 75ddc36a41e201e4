//! An emulator session: one machine, the executor, and the last successful assembly, with
//! the operations of an interactive front end (assemble and load, step, run, inspect).

use vstd::prelude::*;
use crate::assembler::model::{assembly, assembly_fits, LineModel};
use crate::assembler::{line_models, result_matches, string_views, AssembledLine, Assembler, AssemblyResult};
use crate::challenge::{get_challenges, run_error_message, run_error_text, RUN_CYCLES};
use crate::cpu::executor::{lemma_run_keeps_memory_size, lemma_step_keeps_memory_size, run_counts_fit, run_spec, step_counts_fit, step_spec, ExecuteResult, Executor};
use crate::cpu::state::{lemma_store_bytes_size, byte_at, initial_view, reg_value, reset_view, store_bytes, CpuState, CpuView, MEMORY_SIZE};
use crate::text::{hex_bytes, hex_upper, join, pad_right, push_chars, push_hex, push_padded, push_str, string_of, chars_of};

verus! {

/// A listing line as displayed: address, bytes padded to 12 columns and source, or only the
/// source, indented, for a line without bytes.
pub open spec fn listing_text(l: LineModel) -> Seq<char> {
    if l.bytes.len() == 0 {
        "       "@ + l.source
    } else {
        hex_upper(l.address as nat, 4) + ": "@ + pad_right(hex_bytes(l.bytes), 12, ' ') + " "@
            + l.source
    }
}

/// The instruction group a first byte belongs to, as the status line names it.
pub open spec fn opcode_group(b: u8) -> Seq<char> {
    if b <= 0x02 {
        "add"@
    } else if b <= 0x0B {
        "add/sub/mul"@
    } else if b <= 0x12 {
        "logic"@
    } else if b == 0x13 {
        "bra"@
    } else if b == 0x14 {
        "brf"@
    } else if b == 0x15 {
        "brt"@
    } else if b <= 0x43 {
        "mov/cmp"@
    } else if b <= 0x4F {
        "lc"@
    } else if b <= 0x5F {
        "mov"@
    } else if b <= 0x6F {
        "jmp/jal"@
    } else if b <= 0x7F {
        "push/pop"@
    } else if b <= 0x9F {
        "sw/lw"@
    } else if b <= 0xBF {
        "sb/lb"@
    } else if b <= 0xCF {
        "la"@
    } else if b <= 0xD2 {
        "li"@
    } else {
        "???"@
    }
}

/// The instruction group of a first byte.
pub fn opcode_group_name(b: u8) -> (r: &'static str)
    ensures
        r@ == opcode_group(b),
{
    if b <= 0x02 {
        "add"
    } else if b <= 0x0B {
        "add/sub/mul"
    } else if b <= 0x12 {
        "logic"
    } else if b == 0x13 {
        "bra"
    } else if b == 0x14 {
        "brf"
    } else if b == 0x15 {
        "brt"
    } else if b <= 0x43 {
        "mov/cmp"
    } else if b <= 0x4F {
        "lc"
    } else if b <= 0x5F {
        "mov"
    } else if b <= 0x6F {
        "jmp/jal"
    } else if b <= 0x7F {
        "push/pop"
    } else if b <= 0x9F {
        "sw/lw"
    } else if b <= 0xBF {
        "sb/lb"
    } else if b <= 0xCF {
        "la"
    } else if b <= 0xD2 {
        "li"
    } else {
        "???"
    }
}

/// The display text of one listing line.
pub fn listing_line(line: &AssembledLine) -> (r: String)
    ensures
        r@ == listing_text(line.model()),
{
    let source = chars_of(line.source.as_str());
    let mut out: Vec<char> = Vec::new();
    if line.bytes.len() == 0 {
        push_str(&mut out, "       ");
        push_chars(&mut out, &source);
        return string_of(&out);
    }
    let mut bytes_str: Vec<char> = Vec::new();
    let mut i: usize = 0;
    while i < line.bytes.len()
        invariant
            i <= line.bytes@.len(),
            bytes_str@ == join(
                line.bytes@.map_values(|b: u8| hex_upper(b as nat, 2)).take(i as int),
                seq![' '],
            ),
        decreases line.bytes@.len() - i,
    {
        if i > 0 {
            bytes_str.push(' ');
        }
        push_hex(&mut bytes_str, line.bytes[i] as u64, 2);
        proof {
            let t = line.bytes@.map_values(|b: u8| hex_upper(b as nat, 2)).take(i + 1);
            assert(t.drop_last() =~= line.bytes@.map_values(|b: u8| hex_upper(b as nat, 2)).take(i as int));
        }
        i += 1;
    }
    assert(line.bytes@.map_values(|b: u8| hex_upper(b as nat, 2)).take(line.bytes@.len() as int)
        =~= line.bytes@.map_values(|b: u8| hex_upper(b as nat, 2)));
    push_hex(&mut out, line.address as u64, 4);
    push_str(&mut out, ": ");
    push_padded(&mut out, &bytes_str, 12);
    push_str(&mut out, " ");
    push_chars(&mut out, &source);
    string_of(&out)
}

/// The errors of an assembly joined by newlines.
fn joined_errors(errors: &Vec<String>) -> (r: String)
    ensures
        r@ == join(string_views(errors@), seq!['\n']),
{
    let mut joined: Vec<char> = Vec::new();
    let mut i: usize = 0;
    while i < errors.len()
        invariant
            i <= errors@.len(),
            joined@ == join(string_views(errors@).take(i as int), seq!['\n']),
        decreases errors@.len() - i,
    {
        if i > 0 {
            joined.push('\n');
        }
        let piece = chars_of(errors[i].as_str());
        push_chars(&mut joined, &piece);
        proof {
            let t = string_views(errors@).take(i + 1);
            assert(t.drop_last() =~= string_views(errors@).take(i as int));
        }
        i += 1;
    }
    assert(string_views(errors@).take(errors@.len() as int) =~= string_views(errors@));
    string_of(&joined)
}

/// The board's peripherals as the front end sees them: eight LEDs, eight switches and a
/// UART with an output buffer and a one-character receive register.
#[derive(Clone)]
pub struct IoState {
    pub leds: u8,
    pub switches: u8,
    pub uart_output: String,
    pub uart_rx: u8,
    pub uart_rx_ready: bool,
}

/// The peripherals, with the UART output as characters.
pub struct IoView {
    pub leds: u8,
    pub switches: u8,
    pub uart_output: Seq<char>,
    pub uart_rx: u8,
    pub uart_rx_ready: bool,
}

impl View for IoState {
    type V = IoView;

    open spec fn view(&self) -> IoView {
        IoView {
            leds: self.leds,
            switches: self.switches,
            uart_output: self.uart_output@,
            uart_rx: self.uart_rx,
            uart_rx_ready: self.uart_rx_ready,
        }
    }
}

/// Peripherals at power-on: all off, nothing sent, nothing received.
pub open spec fn initial_io() -> IoView {
    IoView { leds: 0, switches: 0, uart_output: Seq::empty(), uart_rx: 0, uart_rx_ready: false }
}

impl IoState {
    pub fn new() -> (r: Self)
        ensures
            r@ == initial_io(),
    {
        IoState { leds: 0, switches: 0, uart_output: String::new(), uart_rx: 0, uart_rx_ready: false }
    }
}

/// An emulator session.
#[derive(Clone)]
pub struct WasmCpu {
    cpu: CpuState,
    executor: Executor,
    last_result: Option<AssemblyResult>,
    io: IoState,
}

impl Default for WasmCpu {
    fn default() -> (r: Self)
        ensures
            r.wf(),
            r@ == initial_view(),
            r.listing() is None,
            r.kept() is None,
            r.io() == initial_io(),
    {
        Self::new()
    }
}

impl View for WasmCpu {
    type V = CpuView;

    /// The machine state of the session.
    closed spec fn view(&self) -> CpuView {
        self.cpu@
    }
}

impl WasmCpu {
    /// The machine's memory has its full size.
    pub closed spec fn wf(&self) -> bool {
        self.cpu.memory@.len() == MEMORY_SIZE
    }

    /// The peripherals.
    pub closed spec fn io(&self) -> IoView {
        self.io@
    }

    /// The result of the last successful assembly, if any.
    pub closed spec fn kept(&self) -> Option<AssemblyResult> {
        self.last_result
    }

    /// The listing of the last successful assembly, if any.
    pub closed spec fn listing(&self) -> Option<Seq<LineModel>> {
        match self.last_result {
            Some(r) => Some(line_models(r.lines@)),
            None => None,
        }
    }

    /// A fresh machine and no assembly.
    pub fn new() -> (r: Self)
        ensures
            r.wf(),
            r@ == initial_view(),
            r.listing() is None,
            r.kept() is None,
            r.io() == initial_io(),
    {
        Self { cpu: CpuState::new(), executor: Executor::new(), last_result: None, io: IoState::new() }
    }

    /// Reset the machine, keeping its memory.
    pub fn reset(&mut self)
        requires
            old(self).wf(),
        ensures
            final(self).wf(),
            final(self)@ == reset_view(old(self)@),
            final(self).listing() == old(self).listing(),
            final(self).kept() == old(self).kept(),
            final(self).io() == old(self).io(),
    {
        self.cpu.reset();
    }

    /// Reset the machine and clear its memory; forget the last assembly.
    pub fn hard_reset(&mut self)
        requires
            old(self).wf(),
        ensures
            final(self).wf(),
            final(self)@ == initial_view(),
            final(self).listing() is None,
            final(self).kept() is None,
            final(self).io() == old(self).io(),
    {
        self.cpu.hard_reset();
        self.last_result = None;
        assert(self.cpu@.mem =~= initial_view().mem);
    }

    /// Assemble `source`; without errors, clear the machine, load the code at address 0 and
    /// keep the result, else report the errors joined by newlines and change nothing.
    pub fn assemble(&mut self, source: &str) -> (r: Result<(), String>)
        requires
            old(self).wf(),
            assembly_fits(source@),
        ensures
            final(self).wf(),
            final(self).io() == old(self).io(),
            assembly(source@).errors.len() == 0 ==> {
                &&& r is Ok
                &&& final(self)@ == initial_view().with_mem(
                    store_bytes(initial_view().mem, 0, assembly(source@).output, assembly(source@).output.len()),
                )
                &&& final(self).listing() == Some(assembly(source@).lines)
                &&& final(self).kept() matches Some(x) && result_matches(x, assembly(source@))
            },
            assembly(source@).errors.len() > 0 ==> {
                &&& r matches Err(e) && e@ == join(assembly(source@).errors, seq!['\n'])
                &&& final(self)@ == old(self)@
                &&& final(self).listing() == old(self).listing()
                &&& final(self).kept() == old(self).kept()
            },
    {
        let mut assembler = Assembler::new();
        let result = assembler.assemble(source);
        if result.errors.len() == 0 {
            self.cpu.hard_reset();
            assert(self.cpu@.mem =~= initial_view().mem);
            self.cpu.load_program(0, &result.bytes);
            proof {
                lemma_store_bytes_size(initial_view().mem, 0, result.bytes@, result.bytes@.len());
            }
            self.last_result = Some(result);
            Ok(())
        } else {
            assert(string_views(result.errors@).len() > 0);
            Err(joined_errors(&result.errors))
        }
    }

    /// The result of the last successful assembly, if any.
    pub fn last_result(&self) -> (r: Option<&AssemblyResult>)
        ensures
            match r {
                Some(x) => self.kept() == Some(*x) && self.listing() == Some(line_models(x.lines@)),
                None => self.kept() is None && self.listing() is None,
            },
    {
        match &self.last_result {
            Some(x) => Some(x),
            None => None,
        }
    }

    /// The listing of the last successful assembly as display lines (empty without one).
    pub fn get_assembled_lines(&self) -> (r: Vec<String>)
        ensures
            match self.listing() {
                Some(ls) => r@.len() == ls.len() && forall|i: int| 0 <= i < ls.len() ==> #[trigger] r@[i]@ == listing_text(ls[i]),
                None => r@.len() == 0,
            },
    {
        let mut out: Vec<String> = Vec::new();
        match &self.last_result {
            Some(result) => {
                let mut i: usize = 0;
                while i < result.lines.len()
                    invariant
                        i <= result.lines@.len(),
                        out@.len() == i,
                        forall|j: int| 0 <= j < i ==> #[trigger] out@[j]@ == listing_text(result.lines@[j].model()),
                    decreases result.lines@.len() - i,
                {
                    out.push(listing_line(&result.lines[i]));
                    i += 1;
                }
                out
            },
            None => out,
        }
    }

    /// Execute one instruction: `Ok(true)` when it executed, `Ok(false)` when the machine
    /// is (or now is) halted, an error message for an invalid instruction or memory error.
    pub fn step(&mut self) -> (r: Result<bool, String>)
        requires
            old(self).wf(),
            step_counts_fit(old(self)@),
        ensures
            final(self).wf(),
            final(self)@ == step_spec(old(self)@).0,
            final(self).listing() == old(self).listing(),
            final(self).kept() == old(self).kept(),
            final(self).io() == old(self).io(),
            match step_spec(old(self)@).1 {
                ExecuteResult::Executed => r == Ok::<bool, String>(true),
                ExecuteResult::Halted => r == Ok::<bool, String>(false),
                e => r matches Err(m) && m@ == run_error_text(e),
            },
    {
        proof {
            lemma_step_keeps_memory_size(self.cpu@);
        }
        let outcome = self.executor.step(&mut self.cpu);
        match outcome {
            ExecuteResult::Executed => Ok(true),
            ExecuteResult::Halted => Ok(false),
            _ => match run_error_message(outcome) {
                Some(m) => Err(m),
                None => Ok(false),
            },
        }
    }

    /// Whether the next step can count its instruction without overflowing a counter.
    pub fn step_fits(&self) -> (r: bool)
        requires
            self.wf(),
        ensures
            r == step_counts_fit(self@),
    {
        self.executor.step_fits(&self.cpu)
    }

    /// Run for at most `RUN_CYCLES` cycles, until the machine halts or fails.
    pub fn run(&mut self) -> (r: Result<(), String>)
        requires
            old(self).wf(),
            run_counts_fit(old(self)@, RUN_CYCLES as nat),
        ensures
            final(self).wf(),
            final(self)@ == run_spec(old(self)@, RUN_CYCLES as nat).0,
            final(self).listing() == old(self).listing(),
            final(self).kept() == old(self).kept(),
            final(self).io() == old(self).io(),
            match run_spec(old(self)@, RUN_CYCLES as nat).1 {
                ExecuteResult::Executed | ExecuteResult::Halted => r is Ok,
                e => r matches Err(m) && m@ == run_error_text(e),
            },
    {
        proof {
            lemma_run_keeps_memory_size(self.cpu@, RUN_CYCLES as nat);
        }
        let outcome = self.executor.run(&mut self.cpu, RUN_CYCLES);
        match run_error_message(outcome) {
            None => Ok(()),
            Some(m) => Err(m),
        }
    }

    /// Whether the machine is halted.
    pub fn is_halted(&self) -> (r: bool)
        ensures
            r == self@.halted,
    {
        self.cpu.halted
    }

    /// The program counter.
    pub fn pc(&self) -> (r: u32)
        ensures
            r == self@.pc,
    {
        self.cpu.pc
    }

    /// The cycle count.
    pub fn cycle_count(&self) -> (r: u64)
        ensures
            r == self@.cycles,
    {
        self.cpu.cycles
    }

    /// The instruction count.
    pub fn instruction_count(&self) -> (r: u64)
        ensures
            r == self@.instructions,
    {
        self.cpu.instructions
    }

    /// The condition flag.
    pub fn get_c_flag(&self) -> (r: bool)
        ensures
            r == self@.c,
    {
        self.cpu.c
    }

    /// A register's value.
    pub fn read_register(&self, reg: u8) -> (r: u32)
        ensures
            r == reg_value(self@.regs, reg),
    {
        self.cpu.get_reg(reg)
    }

    /// The values of r0 to r7.
    pub fn get_registers(&self) -> (r: Vec<u32>)
        ensures
            r@.len() == 8,
            forall|i: int| 0 <= i < 8 ==> #[trigger] r@[i] == reg_value(self@.regs, i as u8),
    {
        let mut out: Vec<u32> = Vec::new();
        let mut i: u8 = 0;
        while i < 8
            invariant
                i <= 8,
                out@.len() == i,
                forall|j: int| 0 <= j < i ==> #[trigger] out@[j] == reg_value(self@.regs, j as u8),
            decreases 8 - i,
        {
            out.push(self.cpu.get_reg(i));
            i += 1;
        }
        out
    }

    /// A memory byte.
    pub fn read_memory(&self, addr: u32) -> (r: u8)
        requires
            self.wf(),
        ensures
            r == byte_at(self@.mem, addr as int),
    {
        self.cpu.read_byte(addr)
    }

    /// `len` memory bytes from `start` on.
    pub fn get_memory_slice(&self, start: u32, len: u32) -> (r: Vec<u8>)
        requires
            self.wf(),
            len == 0 || start + len - 1 <= u32::MAX,
        ensures
            r@.len() == len,
            forall|i: int| 0 <= i < len ==> #[trigger] r@[i] == byte_at(self@.mem, start + i),
    {
        let mut out: Vec<u8> = Vec::new();
        let mut i: u32 = 0;
        while i < len
            invariant
                i <= len,
                len == 0 || start + len - 1 <= u32::MAX,
                self.cpu.wf(),
                out@.len() == i,
                forall|j: int| 0 <= j < i ==> #[trigger] out@[j] == byte_at(self@.mem, start + j),
            decreases len - i,
        {
            out.push(self.cpu.read_byte(start + i));
            i += 1;
        }
        out
    }

    /// The LEDs.
    pub fn get_leds(&self) -> (r: u8)
        ensures
            r == self.io().leds,
    {
        self.io.leds
    }

    /// The switches.
    pub fn get_switches(&self) -> (r: u8)
        ensures
            r == self.io().switches,
    {
        self.io.switches
    }

    /// Set the switches, as a user at the board would.
    pub fn set_switches(&mut self, value: u8)
        ensures
            final(self).io() == (IoView { switches: value, ..old(self).io() }),
            final(self)@ == old(self)@,
            final(self).wf() == old(self).wf(),
            final(self).listing() == old(self).listing(),
            final(self).kept() == old(self).kept(),
    {
        self.io.switches = value;
    }

    /// Flip switch `bit` (0 to 7); any other `bit` changes nothing.
    pub fn toggle_switch(&mut self, bit: u8)
        ensures
            final(self).io() == (if bit < 8 {
                IoView { switches: old(self).io().switches ^ ((1u8 << bit) as u8), ..old(self).io() }
            } else {
                old(self).io()
            }),
            final(self)@ == old(self)@,
            final(self).wf() == old(self).wf(),
            final(self).listing() == old(self).listing(),
            final(self).kept() == old(self).kept(),
    {
        if bit < 8 {
            self.io.switches = self.io.switches ^ (1u8 << bit);
        }
    }

    /// What the UART has sent so far.
    pub fn get_uart_output(&self) -> (r: String)
        ensures
            r@ == self.io().uart_output,
    {
        self.io.uart_output.clone()
    }

    /// Empty the UART output buffer.
    pub fn clear_uart_output(&mut self)
        ensures
            final(self).io() == (IoView { uart_output: Seq::empty(), ..old(self).io() }),
            final(self)@ == old(self)@,
            final(self).wf() == old(self).wf(),
            final(self).listing() == old(self).listing(),
            final(self).kept() == old(self).kept(),
    {
        self.io.uart_output = String::new();
    }

    /// Put a character in the UART receive register (its low byte) and mark it ready.
    pub fn uart_send_char(&mut self, c: char)
        ensures
            final(self).io() == (IoView {
                uart_rx: (c as u32 % 256) as u8,
                uart_rx_ready: true,
                ..old(self).io()
            }),
            final(self)@ == old(self)@,
            final(self).wf() == old(self).wf(),
            final(self).listing() == old(self).listing(),
            final(self).kept() == old(self).kept(),
    {
        let code: u32 = c as u32;
        self.io.uart_rx = (code % 256) as u8;
        self.io.uart_rx_ready = true;
    }

    /// The LEDs (same as `get_leds`).
    pub fn get_led_value(&self) -> (r: u8)
        ensures
            r == self.io().leds,
    {
        self.io.leds
    }

    /// The program counter (same as `pc`).
    pub fn get_pc(&self) -> (r: u32)
        ensures
            r == self@.pc,
    {
        self.cpu.pc
    }

    /// The condition flag (same as `get_c_flag`).
    pub fn get_condition_flag(&self) -> (r: bool)
        ensures
            r == self@.c,
    {
        self.cpu.c
    }

    /// The cycle count truncated to 32 bits.
    pub fn get_cycle_count(&self) -> (r: u32)
        ensures
            r == self@.cycles % 0x1_0000_0000,
    {
        let c = self.cpu.cycles;
        (c % 0x1_0000_0000) as u32
    }

    /// A memory byte (same as `read_memory`).
    pub fn read_byte(&self, addr: u32) -> (r: u8)
        requires
            self.wf(),
        ensures
            r == byte_at(self@.mem, addr as int),
    {
        self.cpu.read_byte(addr)
    }

    /// The status line for the instruction at the program counter: `HALTED`, or the address,
    /// the first byte and its instruction group.
    pub fn get_current_instruction(&self) -> (r: String)
        requires
            self.wf(),
        ensures
            r@ == (if self@.halted {
                "HALTED"@
            } else {
                hex_upper(self@.pc as nat, 4) + ": "@ + hex_upper(byte_at(self@.mem, self@.pc as int) as nat, 2)
                    + "  "@ + opcode_group(byte_at(self@.mem, self@.pc as int))
            }),
    {
        if self.cpu.halted {
            return "HALTED".to_owned();
        }
        let pc = self.cpu.pc;
        let opcode = self.cpu.read_byte(pc);
        let name = opcode_group_name(opcode);
        let mut out: Vec<char> = Vec::new();
        push_hex(&mut out, pc as u64, 4);
        push_str(&mut out, ": ");
        push_hex(&mut out, opcode as u64, 2);
        push_str(&mut out, "  ");
        push_str(&mut out, name);
        string_of(&out)
    }

    /// Whether an animation should stop: after 10000 cycles.
    pub fn should_stop_for_led(&self) -> (r: bool)
        ensures
            r == (self@.cycles >= 10000),
    {
        self.cpu.cycles >= 10000
    }
}

/// The number of available challenges.
pub fn get_challenge_count() -> (r: usize)
    ensures
        r == 5,
{
    get_challenges().len()
}

} // verus!
