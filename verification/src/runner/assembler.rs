//! The demo runner's assembler: a two-pass assembler for the subset of COR24 that the demo
//! board runs, encoding with the decode ROM and writing a listing as it goes.

use vstd::prelude::*;
use crate::assembler::model::{label_get, label_index_from, label_insert};
use crate::cpu::encode::encode_instruction;
use crate::cpu::instruction::Opcode;
use crate::runner::program::{lemma_pass1_overflow_stays, lemma_pass2_stops, 
    code_part, emit_of, first_reg, isa_emit, le24, names_register, reg_imm8, tool_add, tool_branch, tool_la, tool_mem,
    tool_mov, tool_stack, tool_two, unsupported, i32_parse, i32_parse_error, i64_parse, i64_parse_error, imm24_of,
    imm8_of, line_pass, mem_of, pass1, pass2, reg_of, size_estimate, tool_assembly,
    tool_operands, u32_parse, u32_parse_error, EmitModel, PassModel,
    ToolModel,
};
use crate::text::{
    chars_eq, chars_of, copy_chars, eq_str, find_char, join_chars,
    lines, lines_chars, lowercase_chars, push_chars, push_decimal, push_hex,
    push_hex_bytes, push_padded, push_str, split, split_chars, starts_with_str, string_of,
    subrange, trim, trim_chars, trim_end_char_chars, views, words_chars,
};

verus! {

/// A result with a string error as one with a character-sequence error.
pub open spec fn result_chars<T>(r: Result<T, String>) -> Result<T, Seq<char>> {
    match r {
        Ok(v) => Ok(v),
        Err(e) => Err(e@),
    }
}

/// `i32::from_str_radix`: the value of an optional sign and digits of the radix, if it fits
/// in an `i32`; otherwise the message of the `ParseIntError`, which is named, not spelled
/// out, here.
#[verifier::external_body]
fn i32_from_str_radix(s: &str, radix: u32) -> (r: Result<i32, String>)
    requires
        radix == 10 || radix == 16,
    ensures
        result_chars(r) == i32_parse(s@, radix),
        r matches Err(m) ==> m@ == i32_parse_error(s@, radix),
{
    match i32::from_str_radix(s, radix) {
        Ok(v) => Ok(v),
        Err(e) => Err(e.to_string()),
    }
}

/// `u32::from_str_radix`: the value of an optional `+` and digits of the radix, if it fits
/// in a `u32`; otherwise the message of the `ParseIntError`, which is named here.
#[verifier::external_body]
fn u32_from_str_radix(s: &str, radix: u32) -> (r: Result<u32, String>)
    requires
        radix == 10 || radix == 16,
    ensures
        result_chars(r) == u32_parse(s@, radix),
        r matches Err(m) ==> m@ == u32_parse_error(s@, radix),
{
    match u32::from_str_radix(s, radix) {
        Ok(v) => Ok(v),
        Err(e) => Err(e.to_string()),
    }
}

/// `i64::from_str_radix`: the value of an optional sign and digits of the radix, if it fits
/// in an `i64`; otherwise the message of the `ParseIntError`, which is named here.
#[verifier::external_body]
fn i64_from_str_radix(s: &str, radix: u32) -> (r: Result<i64, String>)
    requires
        radix == 10 || radix == 16,
    ensures
        result_chars(r) == i64_parse(s@, radix),
        r matches Err(m) ==> m@ == i64_parse_error(s@, radix),
{
    match i64::from_str_radix(s, radix) {
        Ok(v) => Ok(v),
        Err(e) => Err(e.to_string()),
    }
}

/// An operand reader's result with its error as characters.
pub open spec fn opt_result_chars<T>(r: Option<Result<T, String>>) -> Option<Result<T, Seq<char>>> {
    match r {
        None => None,
        Some(x) => Some(result_chars(x)),
    }
}

/// An encoder's result (bytes, an error, or `None` for a missing operand) agrees with the
/// model, which has no bytes before an error.
pub open spec fn outcome_matches(r: Option<Result<Vec<u8>, String>>, e: EmitModel) -> bool {
    match r {
        None => e.panics,
        Some(Ok(b)) => !e.panics && e.error is None && b@ == e.bytes,
        Some(Err(m)) => !e.panics && e.error == Some(m@) && e.bytes.len() == 0,
    }
}

/// The outcome of a pass: the first error, if any.
pub open spec fn pass_result(p: PassModel) -> Result<(), Seq<char>> {
    match p.error {
        Some(m) => Err(m),
        None => Ok(()),
    }
}

/// A line without its comment, trimmed.
fn code_of(line: &[char]) -> (r: Vec<char>)
    ensures
        r@ == code_part(line@),
{
    match find_char(line, ';') {
        Some(p) => {
            let head = subrange(line, 0, p);
            assert(head@ =~= line@.take(p as int));
            trim_chars(&head)
        },
        None => trim_chars(line),
    }
}

/// The outcome an encoding reports.
pub open spec fn emit_result(e: EmitModel) -> Result<(), Seq<char>> {
    match e.error {
        Some(m) => Err(m),
        None => Ok(()),
    }
}

/// The operands after the mnemonic: split at commas, trimmed, empty ones dropped.
fn operands_of(parts: &Vec<Vec<char>>) -> (r: Vec<Vec<char>>)
    requires
        parts@.len() >= 1,
    ensures
        views(r@) == tool_operands(views(parts@)),
{
    let os = if parts.len() > 1 {
        join_chars(parts, 1, ' ')
    } else {
        Vec::new()
    };
    let ghost ps = views(parts@);
    assert(os@ =~= (if ps.len() > 1 {
        crate::text::join(ps.skip(1), seq![' '])
    } else {
        Seq::empty()
    }));
    let pieces = split_chars(&os, ',');
    let ghost trimmed = split(os@, ',').map_values(|p: Seq<char>| trim(p));
    let mut out: Vec<Vec<char>> = Vec::new();
    let mut i: usize = 0;
    while i < pieces.len()
        invariant
            i <= pieces@.len(),
            views(pieces@) == split(os@, ','),
            trimmed == split(os@, ',').map_values(|p: Seq<char>| trim(p)),
            views(out@) == trimmed.take(i as int).filter(|p: Seq<char>| p.len() > 0),
        decreases pieces@.len() - i,
    {
        let t = trim_chars(&pieces[i]);
        proof {
            assert(views(pieces@)[i as int] == pieces@[i as int]@);
            let tk = trimmed.take(i + 1);
            assert(tk.drop_last() =~= trimmed.take(i as int));
            assert(tk.last() == t@);
            reveal(Seq::filter);
        }
        if t.len() > 0 {
            out.push(t);
            proof {
                assert(views(out@) =~= trimmed.take(i + 1).filter(|p: Seq<char>| p.len() > 0));
            }
        } else {
            proof {
                assert(views(out@) =~= trimmed.take(i + 1).filter(|p: Seq<char>| p.len() > 0));
            }
        }
        i += 1;
    }
    assert(trimmed.take(pieces@.len() as int) =~= trimmed);
    out
}

/// A message as a string error.
fn err_of<T>(msg: &Vec<char>) -> (r: Result<T, String>)
    ensures
        result_chars(r) == Err::<T, Seq<char>>(msg@),
{
    Err(string_of(msg))
}

/// The message for an instruction that no byte of the decode ROM encodes.
fn unsupported_message(mn: &Vec<char>, ra: u8, rb: u8) -> (r: Vec<char>)
    ensures
        r@ == unsupported(mn@, ra, rb),
{
    let mut msg: Vec<char> = Vec::new();
    push_str(&mut msg, "Unsupported ");
    push_chars(&mut msg, mn);
    push_str(&mut msg, " encoding: r");
    push_decimal(&mut msg, ra as u128);
    push_str(&mut msg, ",r");
    push_decimal(&mut msg, rb as u128);
    msg
}

/// `opcode ra,rb` as the byte the decode ROM has for it followed by `rest`, or the message
/// for an instruction the ROM has no byte for.
fn isa_bytes(mn: &Vec<char>, opcode: Opcode, ra: u8, rb: u8, rest: Vec<u8>) -> (r: Result<Vec<u8>, String>)
    ensures
        outcome_matches(Some(r), isa_emit(mn@, opcode, ra, rb, rest@)),
{
    match encode_instruction(opcode, ra, rb) {
        Some(b) => {
            let mut out = vec![b];
            let mut i: usize = 0;
            while i < rest.len()
                invariant
                    i <= rest@.len(),
                    out@ == seq![b] + rest@.take(i as int),
                decreases rest@.len() - i,
            {
                out.push(rest[i]);
                i += 1;
                assert(out@ =~= seq![b] + rest@.take(i as int));
            }
            assert(rest@.take(rest@.len() as int) =~= rest@);
            Ok(out)
        },
        None => {
            let m = unsupported_message(mn, ra, rb);
            err_of(&m)
        },
    }
}

/// Whether `add`'s second operand is taken as a register.
fn names_reg(op2: &[char]) -> (r: bool)
    ensures
        r == names_register(op2@),
{
    let is_reg = starts_with_str(op2, "r") || eq_str(op2, "sp") || eq_str(op2, "fp")
        || eq_str(op2, "z") || eq_str(op2, "iv") || eq_str(op2, "ir");
    let digit_first = op2.len() > 0 && '0' <= op2[0] && op2[0] <= '9';
    is_reg && !starts_with_str(op2, "-") && !digit_first
}

/// The runner's assembler: symbol table, machine code and listing.
pub struct Assembler {
    /// The symbol table as a vector of pairs with distinct keys, in order of first definition
    /// (a map from label to address).
    labels: Vec<(Vec<char>, u32)>,
    output: Vec<u8>,
    listing: Vec<Vec<char>>,
}

/// A symbol table of character vectors as plain values.
spec fn table_model(v: Seq<(Vec<char>, u32)>) -> Seq<(Seq<char>, u32)> {
    Seq::new(v.len(), |i: int| (v[i].0@, v[i].1))
}

impl View for Assembler {
    type V = ToolModel;

    closed spec fn view(&self) -> ToolModel {
        ToolModel {
            labels: table_model(self.labels@),
            output: self.output@,
            listing: views(self.listing@),
        }
    }
}

impl Assembler {
    /// An assembler with nothing assembled.
    pub fn new() -> (r: Self)
        ensures
            r@ == (ToolModel { labels: Seq::empty(), output: Seq::empty(), listing: Seq::empty() }),
    {
        let r = Self { labels: Vec::new(), output: Vec::new(), listing: Vec::new() };
        assert(r@ =~= (ToolModel { labels: Seq::empty(), output: Seq::empty(), listing: Seq::empty() })) by {
            assert(table_model(r.labels@) =~= Seq::empty());
            assert(views(r.listing@) =~= Seq::empty());
        }
        r
    }

    /// The machine code assembled so far.
    pub fn output(&self) -> (r: &[u8])
        ensures
            r@ == self@.output,
    {
        self.output.as_slice()
    }

    /// The listing lines written so far.
    pub fn listing(&self) -> (r: Vec<String>)
        ensures
            r@.len() == self@.listing.len(),
            forall|i: int| 0 <= i < r@.len() ==> #[trigger] r@[i]@ == self@.listing[i],
    {
        let mut out: Vec<String> = Vec::new();
        let mut i: usize = 0;
        while i < self.listing.len()
            invariant
                i <= self.listing@.len(),
                out@.len() == i,
                forall|j: int| 0 <= j < i ==> #[trigger] out@[j]@ == self.listing@[j]@,
            decreases self.listing@.len() - i,
        {
            out.push(string_of(&self.listing[i]));
            i += 1;
        }
        out
    }

    /// A copy of the assembler.
    fn duplicate(&self) -> (r: Self)
        ensures
            r@ == self@,
    {
        let mut labels: Vec<(Vec<char>, u32)> = Vec::new();
        let mut i: usize = 0;
        while i < self.labels.len()
            invariant
                i <= self.labels@.len(),
                table_model(labels@) == table_model(self.labels@).take(i as int),
            decreases self.labels@.len() - i,
        {
            let key = copy_chars(&self.labels[i].0);
            let value = self.labels[i].1;
            assert(key@ == self.labels@[i as int].0@);
            let ghost before = labels@;
            labels.push((key, value));
            assert(table_model(labels@) =~= table_model(before).push((self.labels@[i as int].0@, value)));
            i += 1;
            assert(table_model(labels@) =~= table_model(self.labels@).take(i as int));
        }
        let mut output: Vec<u8> = Vec::new();
        let mut k: usize = 0;
        while k < self.output.len()
            invariant
                k <= self.output@.len(),
                output@ == self.output@.take(k as int),
            decreases self.output@.len() - k,
        {
            output.push(self.output[k]);
            k += 1;
            assert(output@ =~= self.output@.take(k as int));
        }
        assert(self.output@.take(self.output@.len() as int) =~= self.output@);
        let mut listing: Vec<Vec<char>> = Vec::new();
        let mut n: usize = 0;
        while n < self.listing.len()
            invariant
                n <= self.listing@.len(),
                listing@.len() == n,
                forall|j: int| 0 <= j < n ==> #[trigger] listing@[j]@ == self.listing@[j]@,
            decreases self.listing@.len() - n,
        {
            listing.push(copy_chars(&self.listing[n]));
            n += 1;
        }
        let r = Self { labels, output, listing };
        assert(table_model(self.labels@).take(self.labels@.len() as int) =~= table_model(self.labels@));
        assert(views(r.listing@) =~= views(self.listing@));
        r
    }

    /// The index of the entry for `k` in the symbol table, or its length.
    fn label_index(&self, k: &[char]) -> (r: usize)
        ensures
            r == label_index_from(self@.labels, k@, 0),
    {
        let ghost ls = self@.labels;
        let mut i: usize = 0;
        while i < self.labels.len()
            invariant
                i <= self.labels@.len(),
                ls == table_model(self.labels@),
                label_index_from(ls, k@, 0) == label_index_from(ls, k@, i as int),
            decreases self.labels@.len() - i,
        {
            if chars_eq(&self.labels[i].0, k) {
                return i;
            }
            i += 1;
        }
        i
    }

    /// Bind a label to an address.
    fn insert_label(&mut self, k: Vec<char>, v: u32)
        ensures
            final(self)@ == (ToolModel { labels: label_insert(old(self)@.labels, k@, v), ..old(self)@ }),
    {
        let i = self.label_index(&k);
        let ghost kv = k@;
        if i < self.labels.len() {
            self.labels.set(i, (k, v));
            assert(table_model(self.labels@) =~= table_model(old(self).labels@).update(i as int, (kv, v)));
        } else {
            self.labels.push((k, v));
            assert(table_model(self.labels@) =~= table_model(old(self).labels@).push((kv, v)));
        }
    }

    /// The size the first pass assumes for an instruction line.
    fn estimate_size(&self, line: &[char]) -> (r: u32)
        ensures
            r == size_estimate(line@),
    {
        let parts = words_chars(line);
        if parts.len() == 0 {
            return 0;
        }
        let m = lowercase_chars(&parts[0]);
        let ops = operands_of(&parts);
        if eq_str(&m, "la") || eq_str(&m, "halt") {
            4
        } else if eq_str(&m, "push") || eq_str(&m, "pop") || eq_str(&m, "mov") || eq_str(&m, "and")
            || eq_str(&m, "ceq") || eq_str(&m, "clu") || eq_str(&m, "cls") || eq_str(&m, "sub") {
            1
        } else if eq_str(&m, "add") && ops.len() >= 2 && names_reg(&trim_chars(&ops[1])) {
            1
        } else {
            2
        }
    }

    /// A register operand.
    fn reg(&self, s: &[char]) -> (r: Result<u8, String>)
        ensures
            result_chars(r) == reg_of(s@),
    {
        let t = trim_chars(s);
        let l = lowercase_chars(&t);
        if eq_str(&l, "r0") {
            Ok(0)
        } else if eq_str(&l, "r1") {
            Ok(1)
        } else if eq_str(&l, "r2") {
            Ok(2)
        } else if eq_str(&l, "r3") || eq_str(&l, "fp") {
            Ok(3)
        } else if eq_str(&l, "r4") || eq_str(&l, "sp") {
            Ok(4)
        } else if eq_str(&l, "r5") || eq_str(&l, "z") {
            Ok(5)
        } else if eq_str(&l, "r6") || eq_str(&l, "iv") {
            Ok(6)
        } else if eq_str(&l, "r7") || eq_str(&l, "ir") {
            Ok(7)
        } else {
            let mut msg: Vec<char> = Vec::new();
            push_str(&mut msg, "Bad reg: '");
            push_chars(&mut msg, &t);
            push_str(&mut msg, "'");
            assert(msg@ =~= "Bad reg: '"@ + t@ + "'"@);
            err_of(&msg)
        }
    }

    /// An 8-bit immediate, read as an `i32`.
    fn imm8(&self, s: &[char]) -> (r: Result<i32, String>)
        ensures
            result_chars(r) == imm8_of(s@),
    {
        let t = trim_chars(s);
        proof {
            reveal_strlit("0x");
        }
        if starts_with_str(&t, "0x") {
            let h = subrange(&t, 2, t.len());
            assert(h@ =~= t@.skip(2));
            i32_from_str_radix(string_of(&h).as_str(), 16)
        } else {
            i32_from_str_radix(string_of(&t).as_str(), 10)
        }
    }

    /// A 24-bit immediate.
    fn imm24(&self, s: &[char]) -> (r: Result<u32, String>)
        ensures
            result_chars(r) == imm24_of(s@),
    {
        let t = trim_chars(s);
        proof {
            reveal_strlit("0x");
        }
        if starts_with_str(&t, "0x") {
            let h = subrange(&t, 2, t.len());
            assert(h@ =~= t@.skip(2));
            u32_from_str_radix(string_of(&h).as_str(), 16)
        } else {
            match i64_from_str_radix(string_of(&t).as_str(), 10) {
                Ok(v) => Ok((#[verifier::truncate] (v as u32)) & 0xFFFFFF),
                Err(e) => Err(e),
            }
        }
    }

    /// A memory operand `offset(reg)`.
    fn mem(&self, s: &[char]) -> (r: Result<(i32, u8), String>)
        ensures
            result_chars(r) == mem_of(s@),
    {
        if let Some(p) = find_char(s, '(') {
            let len = s.len();
            let off = if p == 0 {
                0i32
            } else {
                let head = subrange(s, 0, p);
                assert(head@ =~= s@.take(p as int));
                match self.imm8(&head) {
                    Ok(v) => v,
                    Err(e) => {
                        return Err(e);
                    },
                }
            };
            let rest = subrange(s, p + 1, len);
            assert(rest@ =~= s@.skip(p + 1));
            let reg = trim_end_char_chars(&rest, ')');
            match self.reg(&reg) {
                Ok(r) => Ok((off, r)),
                Err(e) => Err(e),
            }
        } else {
            let mut msg: Vec<char> = Vec::new();
            push_str(&mut msg, "Bad mem: ");
            push_chars(&mut msg, s);
            assert(msg@ =~= "Bad mem: "@ + s@);
            err_of(&msg)
        }
    }

    /// Append bytes to the output.
    fn put(&mut self, bytes: Vec<u8>)
        ensures
            final(self)@ == (ToolModel { output: old(self)@.output + bytes@, ..old(self)@ }),
    {
        let mut i: usize = 0;
        let ghost out0 = self.output@;
        while i < bytes.len()
            invariant
                i <= bytes@.len(),
                self.output@ == out0 + bytes@.take(i as int),
                out0 == old(self).output@,
                self.labels@ == old(self).labels@,
                self.listing@ == old(self).listing@,
            decreases bytes@.len() - i,
        {
            self.output.push(bytes[i]);
            i += 1;
            assert(self.output@ =~= out0 + bytes@.take(i as int));
        }
        assert(bytes@.take(bytes@.len() as int) =~= bytes@);
    }

    /// The branch offset to a label from the byte after the current output; `None` where it
    /// leaves the range of `i32`.
    fn branch(&self, target: &[char]) -> (r: Option<Result<i32, String>>)
        ensures
            ({
                let cur = (self@.output.len() as i32) + 1;
                match r {
                    None => {
                        ||| cur > i32::MAX
                        ||| label_get(self@.labels, trim(target@)) matches Some(a) && ((a as i32)
                            - cur < i32::MIN || (a as i32) - cur > i32::MAX)
                    },
                    Some(Ok(off)) => {
                        &&& cur <= i32::MAX
                        &&& label_get(self@.labels, trim(target@)) matches Some(a) && off == (a
                            as i32) - cur
                    },
                    Some(Err(m)) => {
                        &&& cur <= i32::MAX
                        &&& label_get(self@.labels, trim(target@)) is None
                        &&& m@ == "Undefined: "@ + target@
                    },
                }
            }),
    {
        let len = #[verifier::truncate] (self.output.len() as i32);
        if len == i32::MAX {
            return None;
        }
        let cur = len + 1;
        let t = trim_chars(target);
        let i = self.label_index(&t);
        if i < self.labels.len() {
            let addr = self.labels[i].1;
            let a = #[verifier::truncate] (addr as i32);
            let off = a as i64 - cur as i64;
            if off < -0x8000_0000 || off > 0x7FFF_FFFF {
                return None;
            }
            Some(Ok(off as i32))
        } else {
            let mut msg: Vec<char> = Vec::new();
            push_str(&mut msg, "Undefined: ");
            push_chars(&mut msg, target);
            assert(msg@ =~= "Undefined: "@ + target@);
            Some(err_of(&msg))
        }
    }

    /// The first operand as a register (`None`: there is none).
    fn first_reg(&self, ops: &Vec<Vec<char>>) -> (r: Option<Result<u8, String>>)
        ensures
            opt_result_chars(r) == first_reg(views(ops@)),
    {
        if ops.len() < 1 {
            None
        } else {
            Some(self.reg(&ops[0]))
        }
    }

    /// `la ra,imm24`.
    fn encode_la(&self, ops: &Vec<Vec<char>>, mn: &Vec<char>) -> (r: Option<Result<Vec<u8>, String>>)
        requires
            mn@ == "la"@,
        ensures
            outcome_matches(r, tool_la(views(ops@))),
    {
        let ra = match self.first_reg(ops) {
            None => return None,
            Some(Err(e)) => return Some(Err(e)),
            Some(Ok(v)) => v,
        };
        if ops.len() < 2 {
            return None;
        }
        let imm = match self.imm24(&ops[1]) {
            Ok(v) => v,
            Err(e) => return Some(Err(e)),
        };
        let rest = vec![(imm & 0xFF) as u8, ((imm >> 8) & 0xFF) as u8, ((imm >> 16) & 0xFF) as u8];
        assert(rest@ =~= le24(imm));
        Some(isa_bytes(mn, Opcode::La, ra, 0, rest))
    }

    /// `lc ra,imm8` or `lcu ra,imm8`.
    fn encode_reg_imm8(&self, ops: &Vec<Vec<char>>, op: Opcode, mn: &Vec<char>) -> (r: Option<Result<Vec<u8>, String>>)
        ensures
            outcome_matches(r, reg_imm8(views(ops@), op, mn@)),
    {
        let ra = match self.first_reg(ops) {
            None => return None,
            Some(Err(e)) => return Some(Err(e)),
            Some(Ok(v)) => v,
        };
        if ops.len() < 2 {
            return None;
        }
        let imm = match self.imm8(&ops[1]) {
            Ok(v) => v,
            Err(e) => return Some(Err(e)),
        };
        let rest = vec![#[verifier::truncate] (imm as u8)];
        assert(rest@ =~= seq![imm as u8]);
        Some(isa_bytes(mn, op, ra, 0, rest))
    }

    /// `add ra,rb` or `add ra,imm8`.
    fn encode_add(&self, ops: &Vec<Vec<char>>, mn: &Vec<char>) -> (r: Option<Result<Vec<u8>, String>>)
        requires
            mn@ == "add"@,
        ensures
            outcome_matches(r, tool_add(views(ops@))),
    {
        let ra = match self.first_reg(ops) {
            None => return None,
            Some(Err(e)) => return Some(Err(e)),
            Some(Ok(v)) => v,
        };
        if ops.len() < 2 {
            return None;
        }
        let op2 = trim_chars(&ops[1]);
        if names_reg(&op2) {
            let rb = match self.reg(&op2) {
                Ok(v) => v,
                Err(e) => return Some(Err(e)),
            };
            Some(isa_bytes(mn, Opcode::AddReg, ra, rb, Vec::new()))
        } else {
            let imm = match self.imm8(&op2) {
                Ok(v) => v,
                Err(e) => return Some(Err(e)),
            };
            let rest = vec![#[verifier::truncate] (imm as u8)];
            assert(rest@ =~= seq![imm as u8]);
            Some(isa_bytes(mn, Opcode::AddImm, ra, 0, rest))
        }
    }

    /// `mov ra,c` or `mov ra,rb`.
    fn encode_mov(&self, ops: &Vec<Vec<char>>, mn: &Vec<char>) -> (r: Option<Result<Vec<u8>, String>>)
        requires
            mn@ == "mov"@,
        ensures
            outcome_matches(r, tool_mov(views(ops@))),
    {
        let ra = match self.first_reg(ops) {
            None => return None,
            Some(Err(e)) => return Some(Err(e)),
            Some(Ok(v)) => v,
        };
        if ops.len() < 2 {
            return None;
        }
        let op2 = trim_chars(&ops[1]);
        let rb = if eq_str(&op2, "c") {
            5
        } else {
            match self.reg(&op2) {
                Ok(v) => v,
                Err(e) => return Some(Err(e)),
            }
        };
        Some(isa_bytes(mn, Opcode::Mov, ra, rb, Vec::new()))
    }

    /// A two-register instruction `op ra,rb`.
    fn encode_two(&self, ops: &Vec<Vec<char>>, op: Opcode, mn: &Vec<char>) -> (r: Option<Result<Vec<u8>, String>>)
        ensures
            outcome_matches(r, tool_two(views(ops@), op, mn@)),
    {
        let ra = match self.first_reg(ops) {
            None => return None,
            Some(Err(e)) => return Some(Err(e)),
            Some(Ok(v)) => v,
        };
        if ops.len() < 2 {
            return None;
        }
        let rb = match self.reg(&ops[1]) {
            Ok(v) => v,
            Err(e) => return Some(Err(e)),
        };
        Some(isa_bytes(mn, op, ra, rb, Vec::new()))
    }

    /// A memory instruction `op ra,off(rb)`.
    fn encode_mem(&self, ops: &Vec<Vec<char>>, op: Opcode, mn: &Vec<char>) -> (r: Option<Result<Vec<u8>, String>>)
        ensures
            outcome_matches(r, tool_mem(views(ops@), op, mn@)),
    {
        let ra = match self.first_reg(ops) {
            None => return None,
            Some(Err(e)) => return Some(Err(e)),
            Some(Ok(v)) => v,
        };
        if ops.len() < 2 {
            return None;
        }
        let (imm, rb) = match self.mem(&ops[1]) {
            Ok(v) => v,
            Err(e) => return Some(Err(e)),
        };
        let rest = vec![#[verifier::truncate] (imm as u8)];
        assert(rest@ =~= seq![imm as u8]);
        Some(isa_bytes(mn, op, ra, rb, rest))
    }

    /// `push ra` or `pop ra`.
    fn encode_stack(&self, ops: &Vec<Vec<char>>, op: Opcode, mn: &Vec<char>) -> (r: Option<Result<Vec<u8>, String>>)
        ensures
            outcome_matches(r, tool_stack(views(ops@), op, mn@)),
    {
        let ra = match self.first_reg(ops) {
            None => return None,
            Some(Err(e)) => return Some(Err(e)),
            Some(Ok(v)) => v,
        };
        Some(isa_bytes(mn, op, ra, 4, Vec::new()))
    }

    /// A branch to a label: its ROM byte, then the offset.
    fn emit_branch(&mut self, ops: &Vec<Vec<char>>, op: Opcode, mn: &Vec<char>) -> (r: Option<Result<(), String>>)
        ensures
            ({
                let e = tool_branch(old(self)@.labels, old(self)@.output.len(), views(ops@), op, mn@);
                &&& (r is None <==> e.panics)
                &&& final(self)@ == (ToolModel { output: old(self)@.output + e.bytes, ..old(self)@ })
                &&& (r matches Some(res) ==> result_chars(res) == emit_result(e))
            }),
    {
        let first = match encode_instruction(op, 0, 0) {
            Some(b) => b,
            None => {
                let m = unsupported_message(mn, 0, 0);
                assert(old(self)@.output + Seq::<u8>::empty() =~= old(self)@.output);
                return Some(err_of(&m));
            },
        };
        let ghost m0 = self@;
        let head = vec![first];
        assert(head@ =~= seq![first]);
        self.put(head);
        if ops.len() < 1 {
            return None;
        }
        match self.branch(&ops[0]) {
            None => None,
            Some(Err(e)) => Some(Err(e)),
            Some(Ok(off)) => {
                let second = vec![#[verifier::truncate] (off as u8)];
                self.put(second);
                assert(self@.output =~= m0.output + seq![first, (off as i32) as u8]);
                Some(Ok(()))
            },
        }
    }

    /// Encode one line (comment stripped, trimmed, not a label) and append its bytes; `None`
    /// where an operand is missing or an offset leaves its range.
    fn emit(&mut self, line: &[char]) -> (r: Option<Result<(), String>>)
        ensures
            r is None <==> emit_of(old(self)@, line@).panics,
            r matches Some(res) ==> {
                &&& final(self)@ == (ToolModel {
                    output: old(self)@.output + emit_of(old(self)@, line@).bytes,
                    ..old(self)@
                })
                &&& result_chars(res) == emit_result(emit_of(old(self)@, line@))
            },
    {
        proof {
            reveal(emit_of);
            assert(old(self)@.output + Seq::<u8>::empty() =~= old(self)@.output);
        }
        let parts = words_chars(line);
        if parts.len() == 0 {
            return Some(Ok(()));
        }
        let mnemonic = lowercase_chars(&parts[0]);
        let ops = operands_of(&parts);
        let encoded = if eq_str(&mnemonic, "la") {
            self.encode_la(&ops, &mnemonic)
        } else if eq_str(&mnemonic, "lc") {
            self.encode_reg_imm8(&ops, Opcode::Lc, &mnemonic)
        } else if eq_str(&mnemonic, "lcu") {
            self.encode_reg_imm8(&ops, Opcode::Lcu, &mnemonic)
        } else if eq_str(&mnemonic, "add") {
            self.encode_add(&ops, &mnemonic)
        } else if eq_str(&mnemonic, "sub") {
            self.encode_two(&ops, Opcode::Sub, &mnemonic)
        } else if eq_str(&mnemonic, "mov") {
            self.encode_mov(&ops, &mnemonic)
        } else if eq_str(&mnemonic, "and") {
            self.encode_two(&ops, Opcode::And, &mnemonic)
        } else if eq_str(&mnemonic, "sb") {
            self.encode_mem(&ops, Opcode::Sb, &mnemonic)
        } else if eq_str(&mnemonic, "sw") {
            self.encode_mem(&ops, Opcode::Sw, &mnemonic)
        } else if eq_str(&mnemonic, "lw") {
            self.encode_mem(&ops, Opcode::Lw, &mnemonic)
        } else if eq_str(&mnemonic, "ceq") {
            self.encode_two(&ops, Opcode::Ceq, &mnemonic)
        } else if eq_str(&mnemonic, "clu") {
            self.encode_two(&ops, Opcode::Clu, &mnemonic)
        } else if eq_str(&mnemonic, "bra") {
            return self.emit_branch(&ops, Opcode::Bra, &mnemonic);
        } else if eq_str(&mnemonic, "brf") {
            return self.emit_branch(&ops, Opcode::Brf, &mnemonic);
        } else if eq_str(&mnemonic, "brt") {
            return self.emit_branch(&ops, Opcode::Brt, &mnemonic);
        } else if eq_str(&mnemonic, "push") {
            self.encode_stack(&ops, Opcode::Push, &mnemonic)
        } else if eq_str(&mnemonic, "pop") {
            self.encode_stack(&ops, Opcode::Pop, &mnemonic)
        } else if eq_str(&mnemonic, "halt") {
            let rest = vec![0u8, 0u8, 0u8];
            assert(rest@ =~= seq![0u8, 0u8, 0u8]);
            Some(isa_bytes(&mnemonic, Opcode::La, 7, 0, rest))
        } else {
            let mut msg: Vec<char> = Vec::new();
            push_str(&mut msg, "Unknown: ");
            push_chars(&mut msg, &mnemonic);
            Some(err_of(&msg))
        };
        match encoded {
            None => None,
            Some(Err(e)) => Some(Err(e)),
            Some(Ok(bytes)) => {
                self.put(bytes);
                Some(Ok(()))
            },
        }
    }

    /// Assemble `source` on top of what was assembled before; `None` where an address
    /// leaves its range or an operand is missing.
    fn assemble_checked(&mut self, source: &str) -> (r: Option<Result<(), String>>)
        ensures
            r is None <==> tool_assembly(old(self)@, source@).panics,
            r matches Some(res) ==> {
                &&& final(self)@ == tool_assembly(old(self)@, source@).m
                &&& result_chars(res) == pass_result(tool_assembly(old(self)@, source@))
            },
    {
        let ghost m0 = self@;
        let chars = chars_of(source);
        let src_lines = lines_chars(&chars);
        let ghost ls = views(src_lines@);
        let mut addr: u32 = 0;
        let mut i: usize = 0;
        while i < src_lines.len()
            invariant
                i <= src_lines@.len(),
                ls == views(src_lines@),
                ls == lines(source@),
                pass1(m0.labels, ls, i as int) == (self@.labels, addr, true),
                self@ == (ToolModel { labels: self@.labels, ..m0 }),
                m0 == old(self)@,
            decreases src_lines@.len() - i,
        {
            assert(ls[i as int] == src_lines@[i as int]@);
            let t = code_of(&src_lines[i]);
            if t.len() > 0 {
                if t[t.len() - 1] == ':' {
                    let head = subrange(&t, 0, t.len() - 1);
                    assert(head@ =~= t@.drop_last());
                    let l = trim_chars(&head);
                    self.insert_label(l, addr);
                } else {
                    let e = self.estimate_size(&t);
                    if addr > u32::MAX - e {
                        proof {
                            lemma_pass1_overflow_stays(m0.labels, ls, i + 1, ls.len() as int);
                        }
                        return None;
                    }
                    addr = addr + e;
                }
            }
            i += 1;
        }
        let ghost m1 = self@;
        let mut k: usize = 0;
        while k < src_lines.len()
            invariant
                k <= src_lines@.len(),
                ls == views(src_lines@),
                m1 == (ToolModel { labels: pass1(m0.labels, ls, ls.len() as int).0, ..m0 }),
                pass1(m0.labels, ls, ls.len() as int).2,
                m0 == old(self)@,
                ls == lines(source@),
                pass2(m1, ls, k as int) == (PassModel { m: self@, error: None, panics: false }),
            decreases src_lines@.len() - k,
        {
            assert(ls[k as int] == src_lines@[k as int]@);
            match self.assemble_line(&src_lines[k]) {
                None => {
                    proof {
                        lemma_pass2_stops(m1, ls, k + 1, ls.len() as int);
                    }
                    return None;
                },
                Some(Err(e)) => {
                    proof {
                        lemma_pass2_stops(m1, ls, k + 1, ls.len() as int);
                    }
                    return Some(Err(e));
                },
                Some(Ok(())) => {},
            }
            k += 1;
        }
        Some(Ok(()))
    }

    /// The second pass on one line: the listing line, or the encoding and its listing line.
    fn assemble_line(&mut self, orig: &[char]) -> (r: Option<Result<(), String>>)
        ensures
            r is None <==> line_pass(old(self)@, orig@).panics,
            r matches Some(res) ==> {
                &&& final(self)@ == line_pass(old(self)@, orig@).m
                &&& result_chars(res) == pass_result(line_pass(old(self)@, orig@))
            },
    {
        proof {
            reveal(line_pass);
        }
        let t = code_of(orig);
        if t.len() == 0 {
            let mut entry: Vec<char> = Vec::new();
            push_str(&mut entry, "                    ");
            push_chars(&mut entry, orig);
            self.push_listing(entry);
            return Some(Ok(()));
        }
        if t[t.len() - 1] == ':' {
            let mut entry: Vec<char> = Vec::new();
            push_hex(&mut entry, self.output.len() as u64, 4);
            push_str(&mut entry, ":               ");
            push_chars(&mut entry, orig);
            self.push_listing(entry);
            return Some(Ok(()));
        }
        let start = self.output.len();
        let ghost m0 = self@;
        match self.emit(&t) {
            None => None,
            Some(Err(e)) => Some(Err(e)),
            Some(Ok(())) => {
                let mut bytes: Vec<u8> = Vec::new();
                let mut i: usize = start;
                while i < self.output.len()
                    invariant
                        start <= i <= self.output@.len(),
                        bytes@ == self.output@.subrange(start as int, i as int),
                    decreases self.output@.len() - i,
                {
                    bytes.push(self.output[i]);
                    i += 1;
                    assert(bytes@ =~= self.output@.subrange(start as int, i as int));
                }
                assert(bytes@ =~= emit_of(m0, t@).bytes);
                let mut hexes: Vec<char> = Vec::new();
                push_hex_bytes(&mut hexes, &bytes);
                let mut entry: Vec<char> = Vec::new();
                push_hex(&mut entry, start as u64, 4);
                push_str(&mut entry, ": ");
                push_padded(&mut entry, &hexes, 14);
                push_str(&mut entry, " ");
                push_chars(&mut entry, orig);
                self.push_listing(entry);
                Some(Ok(()))
            },
        }
    }

    /// Append a listing line.
    fn push_listing(&mut self, entry: Vec<char>)
        ensures
            final(self)@ == (ToolModel { listing: old(self)@.listing.push(entry@), ..old(self)@ }),
    {
        let ghost e = entry@;
        self.listing.push(entry);
        assert(views(self.listing@) =~= views(old(self).listing@).push(e));
    }

    /// Assemble source code: the labels first, then the code and listing, line by line, up to
    /// the first error.
    pub fn assemble(&mut self, source: &str) -> (r: Result<(), String>)
        requires
            !tool_assembly(old(self)@, source@).panics,
        ensures
            final(self)@ == tool_assembly(old(self)@, source@).m,
            result_chars(r) == pass_result(tool_assembly(old(self)@, source@)),
    {
        match self.assemble_checked(source) {
            Some(r) => r,
            None => vstd::pervasive::unreached(),
        }
    }

    /// Assemble source code, or `None`, with nothing changed, where an address would leave
    /// its range or an instruction lacks an operand.
    pub fn try_assemble(&mut self, source: &str) -> (r: Option<Result<(), String>>)
        ensures
            r is None <==> tool_assembly(old(self)@, source@).panics,
            r is None ==> final(self)@ == old(self)@,
            r matches Some(res) ==> {
                &&& final(self)@ == tool_assembly(old(self)@, source@).m
                &&& result_chars(res) == pass_result(tool_assembly(old(self)@, source@))
            },
    {
        let mut scratch = self.duplicate();
        if scratch.assemble_checked(source).is_some() {
            Some(self.assemble(source))
        } else {
            None
        }
    }
}

} // verus!
