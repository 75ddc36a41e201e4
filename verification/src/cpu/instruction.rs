//! COR24 instruction definitions

use vstd::prelude::*;

verus! {

/// COR24 instruction opcodes (5-bit codes produced by the decode ROM).
#[derive(Debug, Clone, Copy, PartialEq, Eq, Structural)]
pub enum Opcode {
    /// add ra,rb (code 0x00)
    AddReg,
    /// add ra,dd (code 0x01)
    AddImm,
    /// and ra,rb (code 0x02)
    And,
    /// bra dd (code 0x03)
    Bra,
    /// brf dd (code 0x04)
    Brf,
    /// brt dd (code 0x05)
    Brt,
    /// ceq ra,rb (code 0x06)
    Ceq,
    /// cls ra,rb: compare less signed (code 0x07)
    Cls,
    /// clu ra,rb: compare less unsigned (code 0x08)
    Clu,
    /// jal ra,(rb) (code 0x09)
    Jal,
    /// jmp (ra) (code 0x0A)
    Jmp,
    /// la ra,dddddd (code 0x0B)
    La,
    /// lb ra,dd(rb), signed (code 0x0C)
    Lb,
    /// lbu ra,dd(rb), unsigned (code 0x0D)
    Lbu,
    /// lc ra,dd, signed (code 0x0E)
    Lc,
    /// lcu ra,dd, unsigned (code 0x0F)
    Lcu,
    /// lw ra,dd(rb) (code 0x10)
    Lw,
    /// mov ra,rb or mov ra,c (code 0x11)
    Mov,
    /// mul ra,rb (code 0x12)
    Mul,
    /// or ra,rb (code 0x13)
    Or,
    /// pop ra (code 0x14)
    Pop,
    /// push ra (code 0x15)
    Push,
    /// sb ra,dd(rb) (code 0x16)
    Sb,
    /// shl ra,rb (code 0x17)
    Shl,
    /// sra ra,rb (code 0x18)
    Sra,
    /// srl ra,rb (code 0x19)
    Srl,
    /// sub ra,rb (code 0x1A)
    Sub,
    /// sub sp,dddddd (code 0x1B)
    SubSp,
    /// sw ra,dd(rb) (code 0x1C)
    Sw,
    /// sxt ra,rb (code 0x1D)
    Sxt,
    /// xor ra,rb (code 0x1E)
    Xor,
    /// zxt ra,rb (code 0x1F)
    Zxt,
    /// Invalid/unknown opcode (code 0xFF)
    Invalid,
}

/// The opcode that a numeric code names: codes 0x00..=0x1F name the 32
/// instructions in order, every other value is `Invalid`.
pub open spec fn opcode_of(value: u8) -> Opcode {
    if value == 0x00 { Opcode::AddReg }
    else if value == 0x01 { Opcode::AddImm }
    else if value == 0x02 { Opcode::And }
    else if value == 0x03 { Opcode::Bra }
    else if value == 0x04 { Opcode::Brf }
    else if value == 0x05 { Opcode::Brt }
    else if value == 0x06 { Opcode::Ceq }
    else if value == 0x07 { Opcode::Cls }
    else if value == 0x08 { Opcode::Clu }
    else if value == 0x09 { Opcode::Jal }
    else if value == 0x0A { Opcode::Jmp }
    else if value == 0x0B { Opcode::La }
    else if value == 0x0C { Opcode::Lb }
    else if value == 0x0D { Opcode::Lbu }
    else if value == 0x0E { Opcode::Lc }
    else if value == 0x0F { Opcode::Lcu }
    else if value == 0x10 { Opcode::Lw }
    else if value == 0x11 { Opcode::Mov }
    else if value == 0x12 { Opcode::Mul }
    else if value == 0x13 { Opcode::Or }
    else if value == 0x14 { Opcode::Pop }
    else if value == 0x15 { Opcode::Push }
    else if value == 0x16 { Opcode::Sb }
    else if value == 0x17 { Opcode::Shl }
    else if value == 0x18 { Opcode::Sra }
    else if value == 0x19 { Opcode::Srl }
    else if value == 0x1A { Opcode::Sub }
    else if value == 0x1B { Opcode::SubSp }
    else if value == 0x1C { Opcode::Sw }
    else if value == 0x1D { Opcode::Sxt }
    else if value == 0x1E { Opcode::Xor }
    else if value == 0x1F { Opcode::Zxt }
    else { Opcode::Invalid }
}

/// The numeric code of an opcode (the discriminant of the hardware encoding).
pub open spec fn code_of(op: Opcode) -> u8 {
    match op {
        Opcode::AddReg => 0x00,
        Opcode::AddImm => 0x01,
        Opcode::And => 0x02,
        Opcode::Bra => 0x03,
        Opcode::Brf => 0x04,
        Opcode::Brt => 0x05,
        Opcode::Ceq => 0x06,
        Opcode::Cls => 0x07,
        Opcode::Clu => 0x08,
        Opcode::Jal => 0x09,
        Opcode::Jmp => 0x0A,
        Opcode::La => 0x0B,
        Opcode::Lb => 0x0C,
        Opcode::Lbu => 0x0D,
        Opcode::Lc => 0x0E,
        Opcode::Lcu => 0x0F,
        Opcode::Lw => 0x10,
        Opcode::Mov => 0x11,
        Opcode::Mul => 0x12,
        Opcode::Or => 0x13,
        Opcode::Pop => 0x14,
        Opcode::Push => 0x15,
        Opcode::Sb => 0x16,
        Opcode::Shl => 0x17,
        Opcode::Sra => 0x18,
        Opcode::Srl => 0x19,
        Opcode::Sub => 0x1A,
        Opcode::SubSp => 0x1B,
        Opcode::Sw => 0x1C,
        Opcode::Sxt => 0x1D,
        Opcode::Xor => 0x1E,
        Opcode::Zxt => 0x1F,
        Opcode::Invalid => 0xFF,
    }
}

/// Every opcode is recovered from its code.
pub proof fn lemma_opcode_code_roundtrip(op: Opcode)
    ensures
        opcode_of(code_of(op)) == op,
{
}

/// Every code below 0x20 names an opcode whose code it is.
pub proof fn lemma_code_opcode_roundtrip(value: u8)
    requires
        value < 0x20,
    ensures
        code_of(opcode_of(value)) == value,
        opcode_of(value) != Opcode::Invalid,
{
}

impl Opcode {
    /// The opcode named by a numeric code (`Invalid` for codes above 0x1F).
    pub fn from_code(value: u8) -> (r: Opcode)
        ensures
            r == opcode_of(value),
    {
        match value {
            0x00 => Opcode::AddReg,
            0x01 => Opcode::AddImm,
            0x02 => Opcode::And,
            0x03 => Opcode::Bra,
            0x04 => Opcode::Brf,
            0x05 => Opcode::Brt,
            0x06 => Opcode::Ceq,
            0x07 => Opcode::Cls,
            0x08 => Opcode::Clu,
            0x09 => Opcode::Jal,
            0x0A => Opcode::Jmp,
            0x0B => Opcode::La,
            0x0C => Opcode::Lb,
            0x0D => Opcode::Lbu,
            0x0E => Opcode::Lc,
            0x0F => Opcode::Lcu,
            0x10 => Opcode::Lw,
            0x11 => Opcode::Mov,
            0x12 => Opcode::Mul,
            0x13 => Opcode::Or,
            0x14 => Opcode::Pop,
            0x15 => Opcode::Push,
            0x16 => Opcode::Sb,
            0x17 => Opcode::Shl,
            0x18 => Opcode::Sra,
            0x19 => Opcode::Srl,
            0x1A => Opcode::Sub,
            0x1B => Opcode::SubSp,
            0x1C => Opcode::Sw,
            0x1D => Opcode::Sxt,
            0x1E => Opcode::Xor,
            0x1F => Opcode::Zxt,
            _ => Opcode::Invalid,
        }
    }

    /// The numeric code of this opcode.
    pub fn code(&self) -> (r: u8)
        ensures
            r == code_of(*self),
    {
        match self {
            Opcode::AddReg => 0x00,
            Opcode::AddImm => 0x01,
            Opcode::And => 0x02,
            Opcode::Bra => 0x03,
            Opcode::Brf => 0x04,
            Opcode::Brt => 0x05,
            Opcode::Ceq => 0x06,
            Opcode::Cls => 0x07,
            Opcode::Clu => 0x08,
            Opcode::Jal => 0x09,
            Opcode::Jmp => 0x0A,
            Opcode::La => 0x0B,
            Opcode::Lb => 0x0C,
            Opcode::Lbu => 0x0D,
            Opcode::Lc => 0x0E,
            Opcode::Lcu => 0x0F,
            Opcode::Lw => 0x10,
            Opcode::Mov => 0x11,
            Opcode::Mul => 0x12,
            Opcode::Or => 0x13,
            Opcode::Pop => 0x14,
            Opcode::Push => 0x15,
            Opcode::Sb => 0x16,
            Opcode::Shl => 0x17,
            Opcode::Sra => 0x18,
            Opcode::Srl => 0x19,
            Opcode::Sub => 0x1A,
            Opcode::SubSp => 0x1B,
            Opcode::Sw => 0x1C,
            Opcode::Sxt => 0x1D,
            Opcode::Xor => 0x1E,
            Opcode::Zxt => 0x1F,
            Opcode::Invalid => 0xFF,
        }
    }
}

impl From<u8> for Opcode {
    fn from(value: u8) -> (r: Opcode) {
        Opcode::from_code(value)
    }
}

impl vstd::std_specs::convert::FromSpecImpl<u8> for Opcode {
    open spec fn obeys_from_spec() -> bool {
        true
    }

    open spec fn from_spec(v: u8) -> Opcode {
        opcode_of(v)
    }
}


/// Decoded instruction with opcode and register operands
#[derive(Debug, Clone, Copy, PartialEq, Eq, Structural)]
pub struct DecodedInstruction {
    pub opcode: Opcode,
    /// Destination register (0-7)
    pub ra: u8,
    /// Source register (0-7)
    pub rb: u8,
}

/// The instruction that a 12-bit decode ROM value `[opcode(5):ra(3):rb(3)]` stands for.
pub open spec fn decoded_spec(decoded: u16) -> DecodedInstruction {
    DecodedInstruction {
        opcode: opcode_of(((decoded / 64) % 32) as u8),
        ra: ((decoded / 8) % 8) as u8,
        rb: (decoded % 8) as u8,
    }
}

impl DecodedInstruction {
    /// An instruction with its register fields reduced to 0..=7.
    pub fn new(opcode: Opcode, ra: u8, rb: u8) -> (r: Self)
        ensures
            r.opcode == opcode,
            r.ra == ra % 8,
            r.rb == rb % 8,
    {
        assert(ra & 0x07 == ra % 8) by (bit_vector);
        assert(rb & 0x07 == rb % 8) by (bit_vector);
        Self { opcode, ra: ra & 0x07, rb: rb & 0x07 }
    }

    /// Decode from 12-bit ROM output
    pub fn from_decoded(decoded: u16) -> (r: Self)
        ensures
            r == decoded_spec(decoded),
    {
        assert((decoded >> 6) & 0x1F == (decoded / 64) % 32) by (bit_vector);
        assert((decoded >> 3) & 0x07 == (decoded / 8) % 8) by (bit_vector);
        assert(decoded & 0x07 == decoded % 8) by (bit_vector);
        let opcode = Opcode::from_code(((decoded >> 6) & 0x1F) as u8);
        let ra = ((decoded >> 3) & 0x07) as u8;
        let rb = (decoded & 0x07) as u8;
        Self { opcode, ra, rb }
    }
}

/// Instruction format type
#[derive(Debug, Clone, Copy, PartialEq, Eq, Structural)]
pub enum InstructionFormat {
    /// Single byte: opcode + registers encoded
    SingleByte,
    /// Two bytes: first byte + 8-bit immediate/offset
    TwoBytes,
    /// Four bytes: first byte + 24-bit address
    FourBytes,
}

/// The encoding length class of each opcode.
pub open spec fn format_of(op: Opcode) -> InstructionFormat {
    match op {
        Opcode::AddImm | Opcode::Bra | Opcode::Brf | Opcode::Brt | Opcode::Lb | Opcode::Lbu
        | Opcode::Lc | Opcode::Lcu | Opcode::Lw | Opcode::Sb | Opcode::Sw => InstructionFormat::TwoBytes,
        Opcode::La | Opcode::SubSp => InstructionFormat::FourBytes,
        _ => InstructionFormat::SingleByte,
    }
}

/// The number of bytes an instruction of the given format occupies.
pub open spec fn format_size(f: InstructionFormat) -> u32 {
    match f {
        InstructionFormat::SingleByte => 1,
        InstructionFormat::TwoBytes => 2,
        InstructionFormat::FourBytes => 4,
    }
}

/// Instruction sizes as the instruction set reference lists them: `la` and `sub sp` take four
/// bytes; `add ra,dd`, the branches, `lc`/`lcu` and the loads and stores take two; the rest
/// take one.
pub proof fn lemma_documented_sizes()
    ensures
        format_size(format_of(Opcode::AddReg)) == 1,
        format_size(format_of(Opcode::AddImm)) == 2,
        format_size(format_of(Opcode::SubSp)) == 4,
        format_size(format_of(Opcode::Sub)) == 1,
        format_size(format_of(Opcode::Mul)) == 1,
        format_size(format_of(Opcode::And)) == 1,
        format_size(format_of(Opcode::Or)) == 1,
        format_size(format_of(Opcode::Xor)) == 1,
        format_size(format_of(Opcode::Shl)) == 1,
        format_size(format_of(Opcode::Sra)) == 1,
        format_size(format_of(Opcode::Srl)) == 1,
        format_size(format_of(Opcode::Ceq)) == 1,
        format_size(format_of(Opcode::Cls)) == 1,
        format_size(format_of(Opcode::Clu)) == 1,
        format_size(format_of(Opcode::Bra)) == 2,
        format_size(format_of(Opcode::Brf)) == 2,
        format_size(format_of(Opcode::Brt)) == 2,
        format_size(format_of(Opcode::Jmp)) == 1,
        format_size(format_of(Opcode::Jal)) == 1,
        format_size(format_of(Opcode::La)) == 4,
        format_size(format_of(Opcode::Lb)) == 2,
        format_size(format_of(Opcode::Lbu)) == 2,
        format_size(format_of(Opcode::Lc)) == 2,
        format_size(format_of(Opcode::Lcu)) == 2,
        format_size(format_of(Opcode::Lw)) == 2,
        format_size(format_of(Opcode::Sb)) == 2,
        format_size(format_of(Opcode::Sw)) == 2,
        format_size(format_of(Opcode::Mov)) == 1,
        format_size(format_of(Opcode::Sxt)) == 1,
        format_size(format_of(Opcode::Zxt)) == 1,
        format_size(format_of(Opcode::Push)) == 1,
        format_size(format_of(Opcode::Pop)) == 1,
{
}

/// The assembler mnemonic of each opcode.
pub open spec fn mnemonic_text(op: Opcode) -> Seq<char> {
    match op {
        Opcode::AddReg | Opcode::AddImm => "add"@,
        Opcode::And => "and"@,
        Opcode::Bra => "bra"@,
        Opcode::Brf => "brf"@,
        Opcode::Brt => "brt"@,
        Opcode::Ceq => "ceq"@,
        Opcode::Cls => "cls"@,
        Opcode::Clu => "clu"@,
        Opcode::Jal => "jal"@,
        Opcode::Jmp => "jmp"@,
        Opcode::La => "la"@,
        Opcode::Lb => "lb"@,
        Opcode::Lbu => "lbu"@,
        Opcode::Lc => "lc"@,
        Opcode::Lcu => "lcu"@,
        Opcode::Lw => "lw"@,
        Opcode::Mov => "mov"@,
        Opcode::Mul => "mul"@,
        Opcode::Or => "or"@,
        Opcode::Pop => "pop"@,
        Opcode::Push => "push"@,
        Opcode::Sb => "sb"@,
        Opcode::Shl => "shl"@,
        Opcode::Sra => "sra"@,
        Opcode::Srl => "srl"@,
        Opcode::Sub | Opcode::SubSp => "sub"@,
        Opcode::Sw => "sw"@,
        Opcode::Sxt => "sxt"@,
        Opcode::Xor => "xor"@,
        Opcode::Zxt => "zxt"@,
        Opcode::Invalid => "???"@,
    }
}

impl Opcode {
    /// Get the instruction format for this opcode
    pub fn format(&self) -> (r: InstructionFormat)
        ensures
            r == format_of(*self),
    {
        match self {
            Opcode::AddReg | Opcode::And | Opcode::Ceq | Opcode::Cls | Opcode::Clu | Opcode::Jal
            | Opcode::Jmp | Opcode::Mov | Opcode::Mul | Opcode::Or | Opcode::Pop | Opcode::Push
            | Opcode::Shl | Opcode::Sra | Opcode::Srl | Opcode::Sub | Opcode::Sxt | Opcode::Xor
            | Opcode::Zxt => InstructionFormat::SingleByte,
            Opcode::AddImm | Opcode::Bra | Opcode::Brf | Opcode::Brt | Opcode::Lb | Opcode::Lbu
            | Opcode::Lc | Opcode::Lcu | Opcode::Lw | Opcode::Sb | Opcode::Sw => InstructionFormat::TwoBytes,
            Opcode::La | Opcode::SubSp => InstructionFormat::FourBytes,
            Opcode::Invalid => InstructionFormat::SingleByte,
        }
    }

    /// Get mnemonic string for this opcode
    pub fn mnemonic(&self) -> (r: &'static str)
        ensures
            r@ == mnemonic_text(*self),
    {
        match self {
            Opcode::AddReg | Opcode::AddImm => "add",
            Opcode::And => "and",
            Opcode::Bra => "bra",
            Opcode::Brf => "brf",
            Opcode::Brt => "brt",
            Opcode::Ceq => "ceq",
            Opcode::Cls => "cls",
            Opcode::Clu => "clu",
            Opcode::Jal => "jal",
            Opcode::Jmp => "jmp",
            Opcode::La => "la",
            Opcode::Lb => "lb",
            Opcode::Lbu => "lbu",
            Opcode::Lc => "lc",
            Opcode::Lcu => "lcu",
            Opcode::Lw => "lw",
            Opcode::Mov => "mov",
            Opcode::Mul => "mul",
            Opcode::Or => "or",
            Opcode::Pop => "pop",
            Opcode::Push => "push",
            Opcode::Sb => "sb",
            Opcode::Shl => "shl",
            Opcode::Sra => "sra",
            Opcode::Srl => "srl",
            Opcode::Sub | Opcode::SubSp => "sub",
            Opcode::Sw => "sw",
            Opcode::Sxt => "sxt",
            Opcode::Xor => "xor",
            Opcode::Zxt => "zxt",
            Opcode::Invalid => "???",
        }
    }
}

/// Register names
pub const REG_NAMES: [&'static str; 8] = ["r0", "r1", "r2", "fp", "sp", "z", "r6", "r7"];

/// The assembler name of register `reg % 8`.
pub open spec fn reg_name_text(reg: u8) -> Seq<char> {
    let r = reg % 8;
    if r == 0 { "r0"@ }
    else if r == 1 { "r1"@ }
    else if r == 2 { "r2"@ }
    else if r == 3 { "fp"@ }
    else if r == 4 { "sp"@ }
    else if r == 5 { "z"@ }
    else if r == 6 { "r6"@ }
    else { "r7"@ }
}

/// Get register name
pub fn reg_name(reg: u8) -> (r: &'static str)
    ensures
        r@ == reg_name_text(reg),
{
    assert(reg & 0x07 == reg % 8) by (bit_vector);
    match reg & 0x07 {
        0 => "r0",
        1 => "r1",
        2 => "r2",
        3 => "fp",
        4 => "sp",
        5 => "z",
        6 => "r6",
        _ => "r7",
    }
}

} // verus!
