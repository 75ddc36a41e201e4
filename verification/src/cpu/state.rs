//! COR24 CPU state

use vstd::prelude::*;
use crate::cpu::decode_rom::{decode_rom_entry, rom_spec, rom_table, INVALID_ENTRY};

verus! {

/// Memory size: 64KB for emulation (addresses 0x000000-0x00FFFF)
pub const MEMORY_SIZE: usize = 65536;

/// Default reset address (embedded block RAM start)
pub const RESET_ADDRESS: u32 = 0x000000;

/// Stack pointer initial value
pub const INITIAL_SP: u32 = 0x00FC00;

/// COR24 CPU state
#[derive(Clone)]
pub struct CpuState {
    /// Program counter (24-bit)
    pub pc: u32,
    /// Register file (8 x 24-bit registers)
    pub registers: [u32; 8],
    /// Condition flag
    pub c: bool,
    /// Memory (byte-addressable)
    pub memory: Vec<u8>,
    /// Halted flag
    pub halted: bool,
    /// Cycle count
    pub cycles: u64,
    /// Instruction count
    pub instructions: u64,
}

/// Mathematical model of a CPU state.
pub struct CpuView {
    pub pc: u32,
    pub regs: Seq<u32>,
    pub c: bool,
    pub mem: Seq<u8>,
    pub halted: bool,
    pub cycles: u64,
    pub instructions: u64,
}

impl CpuView {
    /// This state with its memory replaced.
    pub open spec fn with_mem(self, mem: Seq<u8>) -> CpuView {
        CpuView { mem, ..self }
    }

    /// This state with its register file replaced.
    pub open spec fn with_regs(self, regs: Seq<u32>) -> CpuView {
        CpuView { regs, ..self }
    }
}

impl View for CpuState {
    type V = CpuView;

    open spec fn view(&self) -> CpuView {
        CpuView {
            pc: self.pc,
            regs: self.registers@,
            c: self.c,
            mem: self.memory@,
            halted: self.halted,
            cycles: self.cycles,
            instructions: self.instructions,
        }
    }
}

/// The low 24 bits of an integer (two's complement wrap-around at 2^24).
pub open spec fn wrap24(v: int) -> u32 {
    (v % 0x1000000) as u32
}

/// An 8-bit value sign-extended to 24 bits.
pub open spec fn sext8(v: u8) -> u32 {
    if v >= 0x80 {
        (0xFFFF00 + v) as u32
    } else {
        v as u32
    }
}

/// The memory cell that a 32-bit address selects: memory wraps every `MEMORY_SIZE` bytes.
pub open spec fn cell(addr: int) -> int {
    addr % (MEMORY_SIZE as int)
}

/// The byte stored at an address.
pub open spec fn byte_at(mem: Seq<u8>, addr: int) -> u8 {
    mem[cell(addr)]
}

/// The little-endian 24-bit word stored at an address.
pub open spec fn word_at(mem: Seq<u8>, addr: int) -> u32 {
    (byte_at(mem, addr) + 256 * byte_at(mem, addr + 1) + 65536 * byte_at(mem, addr + 2)) as u32
}

/// Memory after storing one byte.
pub open spec fn store_byte(mem: Seq<u8>, addr: int, value: u8) -> Seq<u8> {
    mem.update(cell(addr), value)
}

/// Memory after storing the low 24 bits of a value as a little-endian word.
pub open spec fn store_word(mem: Seq<u8>, addr: int, value: u32) -> Seq<u8> {
    let m1 = store_byte(mem, addr, (value % 256) as u8);
    let m2 = store_byte(m1, addr + 1, ((value / 256) % 256) as u8);
    store_byte(m2, addr + 2, ((value / 65536) % 256) as u8)
}

/// Memory after storing the first `n` bytes of `data` from `start` on, in order.
pub open spec fn store_bytes(mem: Seq<u8>, start: int, data: Seq<u8>, n: nat) -> Seq<u8>
    decreases n,
{
    if n == 0 {
        mem
    } else {
        store_byte(store_bytes(mem, start, data, (n - 1) as nat), start + n - 1, data[n - 1])
    }
}

/// The value register `reg` holds: registers are selected by the low three bits and read as 24 bits.
pub open spec fn reg_value(regs: Seq<u32>, reg: u8) -> u32 {
    (regs[(reg % 8) as int] % 0x1000000) as u32
}

/// The register file after writing the low 24 bits of `value` to register `reg`.
pub open spec fn reg_update(regs: Seq<u32>, reg: u8, value: u32) -> Seq<u32> {
    regs.update((reg % 8) as int, (value % 0x1000000) as u32)
}

/// The register file after reset: all zero but the stack pointer.
pub open spec fn reset_regs() -> Seq<u32> {
    seq![0u32, 0u32, 0u32, 0u32, INITIAL_SP, 0u32, 0u32, 0u32]
}

/// The state a fresh CPU starts in.
pub open spec fn initial_view() -> CpuView {
    CpuView {
        pc: RESET_ADDRESS,
        regs: reset_regs(),
        c: false,
        mem: Seq::new(MEMORY_SIZE as nat, |i: int| 0u8),
        halted: false,
        cycles: 0,
        instructions: 0,
    }
}

/// A state after reset keeps its memory.
pub open spec fn reset_view(s: CpuView) -> CpuView {
    initial_view().with_mem(s.mem)
}

impl CpuState {
    /// The memory holds at least `MEMORY_SIZE` bytes, so that every address selects a cell.
    pub open spec fn wf(&self) -> bool {
        self.memory@.len() >= MEMORY_SIZE
    }

    /// Create a new CPU state with default values
    pub fn new() -> (r: Self)
        ensures
            r.wf(),
            r@ == initial_view(),
    {
        let mut state = Self {
            pc: RESET_ADDRESS,
            registers: [0; 8],
            c: false,
            memory: vec![0; MEMORY_SIZE],
            halted: false,
            cycles: 0,
            instructions: 0,
        };
        // Initialize stack pointer
        state.registers[4] = INITIAL_SP;
        assert(state.registers@ =~= reset_regs());
        assert(state.memory@ =~= Seq::new(MEMORY_SIZE as nat, |i: int| 0u8));
        state
    }

    /// Reset CPU to initial state (preserves memory)
    pub fn reset(&mut self)
        ensures
            final(self)@ == reset_view(old(self)@),
    {
        self.pc = RESET_ADDRESS;
        self.registers = [0; 8];
        self.registers[4] = INITIAL_SP;
        self.c = false;
        self.halted = false;
        self.cycles = 0;
        self.instructions = 0;
        assert(self.registers@ =~= reset_regs());
    }

    /// Hard reset (clears memory too)
    pub fn hard_reset(&mut self)
        ensures
            final(self)@ == initial_view().with_mem(Seq::new(old(self).memory@.len(), |i: int| 0u8)),
    {
        self.reset();
        let n = self.memory.len();
        let mut i: usize = 0;
        while i < n
            invariant
                n == self.memory@.len(),
                n == old(self).memory@.len(),
                i <= n,
                forall|j: int| 0 <= j < i ==> self.memory@[j] == 0u8,
                self@ == initial_view().with_mem(self.memory@),
            decreases n - i,
        {
            self.memory.set(i, 0);
            i += 1;
        }
        assert(self.memory@ =~= Seq::new(old(self).memory@.len(), |i: int| 0u8));
    }

    /// Read a byte from memory
    pub fn read_byte(&self, addr: u32) -> (r: u8)
        requires
            self.wf(),
        ensures
            r == byte_at(self.memory@, addr as int),
    {
        let addr = (addr as usize) % MEMORY_SIZE;
        self.memory[addr]
    }

    /// Write a byte to memory
    pub fn write_byte(&mut self, addr: u32, value: u8)
        requires
            old(self).wf(),
        ensures
            final(self).wf(),
            final(self)@ == old(self)@.with_mem(store_byte(old(self).memory@, addr as int, value)),
    {
        let addr = (addr as usize) % MEMORY_SIZE;
        self.memory.set(addr, value);
    }

    /// Read a 24-bit word from memory (little-endian)
    pub fn read_word(&self, addr: u32) -> (r: u32)
        requires
            self.wf(),
        ensures
            r == word_at(self.memory@, addr as int),
    {
        let b0 = self.read_byte(addr) as u32;
        let b1 = self.read_byte(addr.wrapping_add(1)) as u32;
        let b2 = self.read_byte(addr.wrapping_add(2)) as u32;
        proof {
            lemma_cell_wrap(addr, 1);
            lemma_cell_wrap(addr, 2);
            lemma_bytes_to_word(b0, b1, b2);
        }
        b0 | (b1 << 8) | (b2 << 16)
    }

    /// Write a 24-bit word to memory (little-endian)
    pub fn write_word(&mut self, addr: u32, value: u32)
        requires
            old(self).wf(),
        ensures
            final(self).wf(),
            final(self)@ == old(self)@.with_mem(store_word(old(self).memory@, addr as int, value)),
    {
        proof {
            lemma_cell_wrap(addr, 1);
            lemma_cell_wrap(addr, 2);
            lemma_word_to_bytes(value);
        }
        self.write_byte(addr, (value & 0xFF) as u8);
        self.write_byte(addr.wrapping_add(1), ((value >> 8) & 0xFF) as u8);
        self.write_byte(addr.wrapping_add(2), ((value >> 16) & 0xFF) as u8);
    }

    /// Get register value (masked to 24 bits)
    pub fn get_reg(&self, reg: u8) -> (r: u32)
        ensures
            r == reg_value(self.registers@, reg),
    {
        proof {
            lemma_low3(reg);
        }
        let v = self.registers[(reg & 0x07) as usize];
        proof {
            lemma_mask24(v);
        }
        v & 0xFFFFFF
    }

    /// Set register value (masked to 24 bits)
    pub fn set_reg(&mut self, reg: u8, value: u32)
        ensures
            final(self)@ == old(self)@.with_regs(reg_update(old(self).registers@, reg, value)),
    {
        proof {
            lemma_low3(reg);
            lemma_mask24(value);
        }
        self.registers[(reg & 0x07) as usize] = value & 0xFFFFFF;
    }

    /// Sign extend 8-bit to 24-bit
    pub fn sign_extend_8(value: u8) -> (r: u32)
        ensures
            r == sext8(value),
    {
        if value & 0x80 != 0 {
            assert(value & 0x80 != 0 ==> value >= 0x80) by (bit_vector);
            let v = value as u32;
            assert(v < 0x100 ==> 0xFFFF00u32 | v == 0xFFFF00u32 + v) by (bit_vector);
            0xFFFF00 | (value as u32)
        } else {
            assert(value & 0x80 == 0 ==> value < 0x80) by (bit_vector);
            value as u32
        }
    }

    /// Truncate to 24 bits
    pub fn mask_24(value: u32) -> (r: u32)
        ensures
            r == value % 0x1000000,
    {
        proof {
            lemma_mask24(value);
        }
        value & 0xFFFFFF
    }

    /// Load program into memory at given address: byte `i` goes to `start_addr` plus `i`
    /// taken as a 32-bit offset.
    pub fn load_program(&mut self, start_addr: u32, data: &[u8])
        requires
            old(self).wf(),
            load_fits(start_addr, data@.len()),
        ensures
            final(self).wf(),
            final(self)@ == old(self)@.with_mem(
                store_bytes(old(self).memory@, start_addr as int, data@, data@.len()),
            ),
    {
        let n = data.len();
        let mut i: usize = 0;
        let mut offset: u32 = 0;
        while i < n
            invariant
                n == data@.len(),
                i <= n,
                load_fits(start_addr, n as nat),
                offset == (i as int) % 0x1_0000_0000,
                self.wf(),
                self@ == old(self)@.with_mem(
                    store_bytes(old(self).memory@, start_addr as int, data@, i as nat),
                ),
            decreases n - i,
        {
            proof {
                lemma_cell_offset(start_addr as int, i as int);
            }
            self.write_byte(start_addr + offset, data[i]);
            i += 1;
            offset = offset.wrapping_add(1);
        }
    }
}

/// Loading `len` bytes from `start` computes no address beyond `u32::MAX`: offsets are taken
/// modulo 2^32, so only the first 2^32 of them are distinct.
pub open spec fn load_fits(start: u32, len: nat) -> bool {
    len == 0 || start + (if len - 1 > u32::MAX {
        u32::MAX as int
    } else {
        len - 1
    }) <= u32::MAX
}

/// An offset taken modulo 2^32 selects the same memory cell.
pub proof fn lemma_cell_offset(start: int, i: int)
    requires
        i >= 0,
    ensures
        cell(start + i % 0x1_0000_0000) == cell(start + i),
{
    let q = i / 0x1_0000_0000;
    let k = i % 0x1_0000_0000;
    assert(i == 0x1_0000_0000 * q + k);
    assert(0x1_0000_0000 * q == 65536 * (65536 * q)) by (nonlinear_arith);
    vstd::arithmetic::div_mod::lemma_mod_multiples_vanish(65536 * q, start + k, 65536);
}

/// Reading an address after a store elsewhere gives back what it held; after a store there,
/// the stored byte.
pub proof fn lemma_store_byte_read(mem: Seq<u8>, a: int, b: int, v: u8)
    requires
        mem.len() >= MEMORY_SIZE,
    ensures
        byte_at(store_byte(mem, a, v), b) == if cell(a) == cell(b) { v } else { byte_at(mem, b) },
        store_byte(mem, a, v).len() == mem.len(),
{
}

/// A word read back from where it was stored is the low 24 bits of the stored value;
/// words elsewhere that do not overlap the three stored cells are unchanged.
pub proof fn lemma_store_word_read(mem: Seq<u8>, a: int, b: int, v: u32)
    requires
        mem.len() >= MEMORY_SIZE,
    ensures
        word_at(store_word(mem, a, v), a) == v % 0x1000000,
        (forall|k: int| 0 <= k < 3 ==> #[trigger] cell(b + k) != cell(a) && cell(b + k) != cell(a + 1)
            && cell(b + k) != cell(a + 2)) ==> word_at(store_word(mem, a, v), b) == word_at(mem, b),
        store_word(mem, a, v).len() == mem.len(),
{
    let m = store_word(mem, a, v);
    assert(cell(a) != cell(a + 1) && cell(a) != cell(a + 2) && cell(a + 1) != cell(a + 2));
    assert(byte_at(m, a) == (v % 256) as u8);
    assert(byte_at(m, a + 1) == ((v / 256) % 256) as u8);
    assert(byte_at(m, a + 2) == ((v / 65536) % 256) as u8);
    assert((v % 256) + 256 * ((v / 256) % 256) + 65536 * ((v / 65536) % 256) == v % 0x1000000)
        by (nonlinear_arith);
    if forall|k: int| 0 <= k < 3 ==> #[trigger] cell(b + k) != cell(a) && cell(b + k) != cell(a + 1)
        && cell(b + k) != cell(a + 2) {
        assert(cell(b + 0) != cell(a));
        assert(b + 0 == b);
        assert(cell(b + 1) != cell(a));
        assert(cell(b + 2) != cell(a));
    }
}

/// Register writes are read back as their low 24 bits; other registers keep their values.
pub proof fn lemma_reg_update_read(regs: Seq<u32>, r: u8, q: u8, v: u32)
    requires
        regs.len() == 8,
    ensures
        r % 8 == q % 8 ==> reg_value(reg_update(regs, r, v), q) == v % 0x1000000,
        r % 8 != q % 8 ==> reg_value(reg_update(regs, r, v), q) == reg_value(regs, q),
        reg_update(regs, r, v).len() == 8,
{
}

/// Words are little-endian: storing a word puts its low byte at the address and the next two
/// bytes after it, and a word read is its three bytes from the address on, low byte first.
pub proof fn lemma_word_layout(mem: Seq<u8>, a: int, v: u32)
    requires
        mem.len() >= MEMORY_SIZE,
    ensures
        byte_at(store_word(mem, a, v), a) == v % 256,
        byte_at(store_word(mem, a, v), a + 1) == (v / 256) % 256,
        byte_at(store_word(mem, a, v), a + 2) == (v / 65536) % 256,
        word_at(mem, a) == byte_at(mem, a) + 256 * byte_at(mem, a + 1) + 65536 * byte_at(mem, a + 2),
{
    assert(cell(a) != cell(a + 1) && cell(a) != cell(a + 2) && cell(a + 1) != cell(a + 2));
}

/// Storing bytes never changes the size of the memory.
pub proof fn lemma_store_bytes_size(mem: Seq<u8>, start: int, data: Seq<u8>, n: nat)
    requires
        mem.len() >= MEMORY_SIZE,
    ensures
        store_bytes(mem, start, data, n).len() == mem.len(),
    decreases n,
{
    if n > 0 {
        lemma_store_bytes_size(mem, start, data, (n - 1) as nat);
    }
}

/// Loading a program of at most `MEMORY_SIZE` bytes puts each byte at its address
/// and leaves every cell the program does not cover unchanged.
pub proof fn lemma_store_bytes_read(mem: Seq<u8>, start: int, data: Seq<u8>, n: nat, b: int)
    requires
        mem.len() >= MEMORY_SIZE,
        n <= data.len(),
        n <= MEMORY_SIZE,
        start >= 0,
        b >= 0,
    ensures
        store_bytes(mem, start, data, n).len() == mem.len(),
        (forall|i: int| 0 <= i < n ==> #[trigger] cell(start + i) != cell(b)) ==> byte_at(
            store_bytes(mem, start, data, n),
            b,
        ) == byte_at(mem, b),
        forall|i: int|
            0 <= i < n ==> #[trigger] byte_at(store_bytes(mem, start, data, n), start + i)
                == data[i],
    decreases n,
{
    if n > 0 {
        let m = (n - 1) as nat;
        lemma_store_bytes_read(mem, start, data, m, b);
        let prev = store_bytes(mem, start, data, m);
        let v = data[n - 1];
        assert(store_bytes(mem, start, data, n) == store_byte(prev, start + m, v));
        assert forall|i: int| 0 <= i < n implies #[trigger] byte_at(
            store_bytes(mem, start, data, n),
            start + i,
        ) == data[i] by {
            if i < m {
                lemma_store_bytes_read(mem, start, data, m, start + i);
                assert(cell(start + m) != cell(start + i));
                lemma_store_byte_read(prev, start + m, start + i, v);
            } else {
                lemma_store_byte_read(prev, start + m, start + i, v);
            }
        }
        if forall|i: int| 0 <= i < n ==> #[trigger] cell(start + i) != cell(b) {
            assert(cell(start + m) != cell(b));
        }
    }
}

/// Selecting the cell of `addr + k` computed in 32-bit wrapping arithmetic gives the cell of `addr + k`.
pub proof fn lemma_cell_wrap(addr: u32, k: u32)
    requires
        k <= 2,
    ensures
        cell(addr.wrapping_add(k) as int) == cell(addr + k),
        (addr.wrapping_add(k) as usize) % MEMORY_SIZE == cell(addr + k),
{
    if addr + k > u32::MAX {
        assert(addr.wrapping_add(k) == addr + k - 0x1_0000_0000);
        assert((addr + k - 0x1_0000_0000) % 65536 == (addr + k) % 65536);
    }
}

/// The low three bits of a byte are its remainder modulo 8.
pub proof fn lemma_low3(reg: u8)
    ensures
        reg & 0x07 == reg % 8,
        (reg & 0x07) < 8,
{
    assert(reg & 0x07 == reg % 8) by (bit_vector);
}

/// Masking with 0xFFFFFF is the remainder modulo 2^24.
pub proof fn lemma_mask24(v: u32)
    ensures
        v & 0xFFFFFF == v % 0x1000000,
{
    assert(v & 0xFFFFFF == v % 0x1000000) by (bit_vector);
}

/// Three bytes combined by shifts and `|` form the little-endian number.
pub proof fn lemma_bytes_to_word(b0: u32, b1: u32, b2: u32)
    requires
        b0 < 256,
        b1 < 256,
        b2 < 256,
    ensures
        b0 | (b1 << 8) | (b2 << 16) == b0 + 256 * b1 + 65536 * b2,
{
    assert(b0 < 256 && b1 < 256 && b2 < 256 ==> b0 | (b1 << 8) | (b2 << 16) == b0 + 256 * b1
        + 65536 * b2) by (bit_vector);
}

/// The bytes of a word extracted by shifts and masks are its base-256 digits.
pub proof fn lemma_word_to_bytes(v: u32)
    ensures
        (v & 0xFF) as u8 == (v % 256) as u8,
        ((v >> 8) & 0xFF) as u8 == ((v / 256) % 256) as u8,
        ((v >> 16) & 0xFF) as u8 == ((v / 65536) % 256) as u8,
{
    assert(v & 0xFF == v % 256) by (bit_vector);
    assert((v >> 8) & 0xFF == (v / 256) % 256) by (bit_vector);
    assert((v >> 16) & 0xFF == (v / 65536) % 256) by (bit_vector);
}

/// Instruction decode ROM: maps 8-bit instruction bytes to 12-bit decoded values
/// `[opcode(5):ra(3):rb(3)]`.
pub struct DecodeRom {
    entries: [u16; 256],
}

impl DecodeRom {
    #[verifier::type_invariant]
    spec fn holds_rom(self) -> bool {
        forall|b: u8| #[trigger] self.entries@[b as int] == rom_spec(b)
    }

    /// The ROM's entries, indexed by instruction byte.
    pub closed spec fn table(&self) -> Seq<u16> {
        self.entries@
    }

    /// Create decode ROM with instruction mappings
    pub fn new() -> (r: Self)
        ensures
            r.table() == rom_table(),
    {
        let mut entries = [INVALID_ENTRY; 256];
        let mut b: usize = 0;
        while b < 256
            invariant
                b <= 256,
                entries@.len() == 256,
                forall|j: int| 0 <= j < b ==> entries@[j] == rom_spec(j as u8),
            decreases 256 - b,
        {
            entries[b] = decode_rom_entry(b as u8);
            b += 1;
        }
        assert forall|x: u8| #[trigger] entries@[x as int] == rom_spec(x) by {
            assert(0 <= x as int && (x as int) < 256);
            assert((x as int) as u8 == x);
        }
        assert(entries@ =~= rom_table());
        Self { entries }
    }

    /// Decode an instruction byte
    pub fn decode(&self, byte: u8) -> (r: u16)
        ensures
            r == rom_spec(byte),
    {
        proof {
            use_type_invariant(self);
        }
        self.entries[byte as usize]
    }

    /// Check if an instruction byte is valid
    pub fn is_valid(&self, byte: u8) -> (r: bool)
        ensures
            r == (rom_spec(byte) != INVALID_ENTRY),
    {
        proof {
            use_type_invariant(self);
        }
        self.entries[byte as usize] != INVALID_ENTRY
    }
}

impl Clone for DecodeRom {
    fn clone(&self) -> (r: Self) {
        proof {
            use_type_invariant(self);
        }
        DecodeRom { entries: self.entries }
    }
}

impl Default for DecodeRom {
    fn default() -> (r: Self) {
        Self::new()
    }
}

impl Default for CpuState {
    fn default() -> (r: Self)
        ensures
            r.wf(),
            r@ == initial_view(),
    {
        Self::new()
    }
}

} // verus!
