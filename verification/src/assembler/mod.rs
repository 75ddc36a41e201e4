//! COR24 assembler: parses COR24 assembly language and produces machine code, with the
//! encodings taken from the decode ROM.
//!
//! `model` states what an assembly run computes; the assembler below is proved to compute
//! exactly that.

pub mod model;

use vstd::prelude::*;
use crate::cpu::encode::{
    encode_add_imm, encode_add_reg, encode_branch as encode_branch_byte, encode_instruction,
    encode_jal as encode_jal_byte, encode_jmp as encode_jmp_byte, encode_la as encode_la_byte,
    encode_lc as encode_lc_byte, encode_load_store as encode_load_store_byte,
    encode_mov as encode_mov_byte, encode_pop as encode_pop_byte,
    encode_push as encode_push_byte, encode_sub_sp,
};
use crate::cpu::instruction::Opcode;
use crate::text::{
    chars_eq, chars_of, copy_chars, eq_str, find_char, lowercase_chars, parse_i32_chars,
    parse_u32_chars, push_chars, push_decimal, push_str, rfind_char, split_chars,
    starts_with_str, string_of, subrange, trim, trim_char_chars, trim_chars,
    trim_end_char_chars, views, words_chars, join_chars, lines_chars, join, split, lines,
};
use self::model::{
    keys_unique, lemma_assembly_labels_unique,
    assembly, assembly_fits, initial_model, lemma_lines_upto_frame, lemma_resolve_frame, line_step, lines_upto, resolve_upto, split_label,
    ascii_step, data_step, directive_step, emit_data, lemma_data_step_frame,
    dispatch, instruction_step, operands_of, strip_comment,
    as_i32, at_line, enc_add, enc_alu, enc_branch, enc_jal, enc_jmp, enc_la, enc_lc,
    enc_load_store, enc_mov, enc_mul, enc_pop, enc_push, enc_sub, fail, word_bytes, label_get,
    label_index_from, label_insert, number_of, offset_byte, register_of, register_operand,
    AsmModel, LineModel, RefModel,
};

verus! {

/// One line of the assembly listing.
#[derive(Debug, Clone)]
pub struct AssembledLine {
    /// Address of the first byte the line produced.
    pub address: u32,
    /// The bytes the line produced.
    pub bytes: Vec<u8>,
    /// The trimmed source text.
    pub source: String,
    /// The label the line defines, if any.
    pub label: Option<String>,
}

impl AssembledLine {
    /// The line as plain values.
    pub open spec fn model(&self) -> LineModel {
        LineModel {
            address: self.address,
            bytes: self.bytes@,
            source: self.source@,
            label: match self.label {
                Some(s) => Some(s@),
                None => None,
            },
        }
    }
}

/// The outcome of assembling a source text.
#[derive(Debug, Clone)]
pub struct AssemblyResult {
    /// The machine code, from address 0.
    pub bytes: Vec<u8>,
    /// The listing.
    pub lines: Vec<AssembledLine>,
    /// Error messages, in the order they were found.
    pub errors: Vec<String>,
    /// The symbol table: each label once, with its address, as a vector of pairs with
    /// distinct keys in order of first definition (a map from label to address).
    pub labels: Vec<(String, u32)>,
}

/// The listing as plain values.
pub open spec fn line_models(v: Seq<AssembledLine>) -> Seq<LineModel> {
    Seq::new(v.len(), |i: int| v[i].model())
}

/// Strings as character sequences.
pub open spec fn string_views(v: Seq<String>) -> Seq<Seq<char>> {
    Seq::new(v.len(), |i: int| v[i]@)
}

/// A symbol table of strings as one of character sequences.
pub open spec fn label_views(v: Seq<(String, u32)>) -> Seq<(Seq<char>, u32)> {
    Seq::new(v.len(), |i: int| (v[i].0@, v[i].1))
}

/// The result holds exactly the output, listing, errors and symbol table of a run.
pub open spec fn result_matches(r: AssemblyResult, m: AsmModel) -> bool {
    &&& r.bytes@ == m.output
    &&& line_models(r.lines@) == m.lines
    &&& string_views(r.errors@) == m.errors
    &&& label_views(r.labels@) == m.labels
}

/// The kind of a pending forward reference.
#[derive(Clone, Copy)]
enum RefType {
    /// A 24-bit absolute address (`la`).
    Absolute24,
    /// An 8-bit PC-relative offset (branches).
    Relative8,
}

/// A use of a label before its definition, patched after the last line.
struct ForwardRef {
    address: u32,
    label: Vec<char>,
    ref_type: RefType,
    line_num: usize,
}

impl ForwardRef {
    spec fn model(&self) -> RefModel {
        RefModel {
            address: self.address,
            label: self.label@,
            absolute: self.ref_type is Absolute24,
            line_num: self.line_num,
        }
    }
}

/// The COR24 assembler.
pub struct Assembler {
    /// Address of the next byte.
    address: u32,
    /// Symbol table, in order of first definition.
    labels: Vec<(Vec<char>, u32)>,
    /// Forward references to resolve.
    forward_refs: Vec<ForwardRef>,
    /// Output bytes.
    output: Vec<u8>,
    /// Assembled lines.
    lines: Vec<AssembledLine>,
    /// Error messages.
    errors: Vec<Vec<char>>,
}

/// A symbol table of character vectors as plain values.
spec fn table_model(v: Seq<(Vec<char>, u32)>) -> Seq<(Seq<char>, u32)> {
    Seq::new(v.len(), |i: int| (v[i].0@, v[i].1))
}

/// Forward references as plain values.
spec fn refs_model(v: Seq<ForwardRef>) -> Seq<RefModel> {
    Seq::new(v.len(), |i: int| v[i].model())
}

impl View for Assembler {
    type V = AsmModel;

    closed spec fn view(&self) -> AsmModel {
        AsmModel {
            ok: true,
            address: self.address,
            labels: table_model(self.labels@),
            refs: refs_model(self.forward_refs@),
            output: self.output@,
            lines: line_models(self.lines@),
            errors: views(self.errors@),
        }
    }
}

/// The register an already lowercased name denotes: `r0`..`r7` and the aliases `fp`, `sp`,
/// `z` (also `c`), `iv` and `ir`.
pub fn register_number(l: &[char]) -> (r: Option<u8>)
    ensures
        r == register_of(l@),
{
    if eq_str(l, "r0") {
        Some(0)
    } else if eq_str(l, "r1") {
        Some(1)
    } else if eq_str(l, "r2") {
        Some(2)
    } else if eq_str(l, "r3") || eq_str(l, "fp") {
        Some(3)
    } else if eq_str(l, "r4") || eq_str(l, "sp") {
        Some(4)
    } else if eq_str(l, "r5") || eq_str(l, "z") || eq_str(l, "c") {
        Some(5)
    } else if eq_str(l, "r6") || eq_str(l, "iv") {
        Some(6)
    } else if eq_str(l, "r7") || eq_str(l, "ir") {
        Some(7)
    } else {
        None
    }
}

/// A `u32` read as a two's complement `i32`, widened.
fn as_signed(x: u32) -> (r: i64)
    ensures
        r == as_i32(x),
{
    if x < 0x8000_0000 {
        x as i64
    } else {
        x as i64 - 0x1_0000_0000
    }
}

/// The pieces of `v` between the separators `c`, each trimmed.
fn trimmed_pieces(v: &[char], c: char) -> (r: Vec<Vec<char>>)
    ensures
        views(r@) == split(v@, c).map_values(|p: Seq<char>| trim(p)),
{
    let pieces = split_chars(v, c);
    let mut out: Vec<Vec<char>> = Vec::new();
    let mut i: usize = 0;
    while i < pieces.len()
        invariant
            i <= pieces@.len(),
            views(pieces@) == split(v@, c),
            out@.len() == i,
            forall|j: int| 0 <= j < i ==> #[trigger] out@[j]@ == trim(pieces@[j]@),
        decreases pieces@.len() - i,
    {
        let t = trim_chars(&pieces[i]);
        out.push(t);
        i += 1;
    }
    assert(views(out@) =~= split(v@, c).map_values(|p: Seq<char>| trim(p))) by {
        assert forall|j: int| 0 <= j < out@.len() implies #[trigger] views(out@)[j] == split(v@, c).map_values(|p: Seq<char>| trim(p))[j] by {
            assert(views(pieces@)[j] == pieces@[j]@);
        }
    }
    out
}

/// An optional character vector as plain values.
pub open spec fn opt_view(o: Option<Vec<char>>) -> Option<Seq<char>> {
    match o {
        Some(v) => Some(v@),
        None => None,
    }
}

/// The label defined on a trimmed line, and the text after it.
fn label_and_rest(t: &[char]) -> (r: (Option<Vec<char>>, Vec<char>))
    ensures
        (opt_view(r.0), r.1@) == split_label(t@),
{
    match find_char(t, ':') {
        Some(cp) => {
            let len = t.len();
            let head = subrange(t, 0, cp);
            let tail = subrange(t, cp + 1, len);
            assert(head@ =~= t@.take(cp as int));
            assert(tail@ =~= t@.skip(cp + 1));
            let ls = trim_chars(&head);
            let rest = trim_chars(&tail);
            if ls.len() > 0 {
                (Some(ls), rest)
            } else {
                (None, rest)
            }
        },
        None => (None, copy_chars(t)),
    }
}

/// An optional character vector as a string.
fn opt_string(o: &Option<Vec<char>>) -> (r: Option<String>)
    ensures
        (match r {
            Some(s) => Some(s@),
            None => None,
        }) == opt_view(*o),
{
    match o {
        Some(v) => Some(string_of(v)),
        None => None,
    }
}

/// A copy of a byte sequence.
fn copy_bytes(v: &[u8]) -> (r: Vec<u8>)
    ensures
        r@ == v@,
{
    let mut out: Vec<u8> = Vec::new();
    let mut i: usize = 0;
    while i < v.len()
        invariant
            i <= v@.len(),
            out@ == v@.take(i as int),
        decreases v@.len() - i,
    {
        out.push(v[i]);
        i += 1;
        assert(out@ =~= v@.take(i as int));
    }
    assert(v@.take(v@.len() as int) =~= v@);
    out
}

/// The prefix `Line N: ` for zero-based line `n`.
fn line_msg(n: usize) -> (r: Vec<char>)
    ensures
        r@ == at_line(n),
{
    let mut msg: Vec<char> = Vec::new();
    push_str(&mut msg, "Line ");
    push_decimal(&mut msg, n as u128 + 1);
    push_str(&mut msg, ": ");
    reveal(at_line);
    assert(msg@ =~= at_line(n));
    msg
}

impl Default for Assembler {
    fn default() -> (r: Self)
        ensures
            r@ == model::initial_model(),
    {
        Self::new()
    }
}

impl Assembler {
    /// An assembler with nothing assembled yet.
    pub fn new() -> (r: Self)
        ensures
            r@ == model::initial_model(),
    {
        let r = Self {
            address: 0,
            labels: Vec::new(),
            forward_refs: Vec::new(),
            output: Vec::new(),
            lines: Vec::new(),
            errors: Vec::new(),
        };
        assert(r@ =~= model::initial_model()) by {
            assert(table_model(r.labels@) =~= Seq::empty());
            assert(refs_model(r.forward_refs@) =~= Seq::empty());
            assert(line_models(r.lines@) =~= Seq::empty());
            assert(views(r.errors@) =~= Seq::empty());
        }
        r
    }

    /// Record an error message; the instruction produces no bytes.
    fn record_error(&mut self, msg: Vec<char>) -> (r: Vec<u8>)
        ensures
            (final(self)@, r@) == fail(old(self)@, msg@),
            final(self).forward_refs@ == old(self).forward_refs@,
    {
        let ghost m = msg@;
        self.errors.push(msg);
        assert(views(self.errors@) =~= views(old(self).errors@).push(m));
        Vec::new()
    }

    /// The register an operand names.
    fn parse_register(&self, s: &[char]) -> (r: Option<u8>)
        ensures
            r == register_operand(s@),
    {
        let t = trim_chars(s);
        let l = lowercase_chars(&t);
        proof {
            reveal(register_operand);
        }
        register_number(&l)
    }

    /// The number an operand denotes.
    fn parse_number(&self, s: &[char]) -> (r: Option<u32>)
        ensures
            r == number_of(s@),
    {
        let t = trim_chars(s);
        proof {
            reveal(number_of);
            reveal_strlit("0x");
            reveal_strlit("0X");
            assert(t@.skip(0) =~= t@);
        }
        if starts_with_str(&t, "0x") || starts_with_str(&t, "0X") {
            parse_u32_chars(&t, 2, 16)
        } else if t.len() > 0 && t[0] == '-' {
            match parse_i32_chars(&t, 0) {
                Some(v) => Some(v as u32),
                None => None,
            }
        } else {
            parse_u32_chars(&t, 0, 10)
        }
    }

    /// The index of the entry for `k` in the symbol table, or its length.
    fn label_index(&self, k: &[char]) -> (r: usize)
        ensures
            r == label_index_from(self@.labels, k@, 0),
    {
        let ghost ls = self@.labels;
        let mut i: usize = 0;
        while i < self.labels.len()
            invariant
                i <= self.labels@.len(),
                ls == table_model(self.labels@),
                label_index_from(ls, k@, 0) == label_index_from(ls, k@, i as int),
            decreases self.labels@.len() - i,
        {
            if chars_eq(&self.labels[i].0, k) {
                return i;
            }
            i += 1;
        }
        i
    }

    /// The address bound to a label, if any.
    fn label_lookup(&self, k: &[char]) -> (r: Option<u32>)
        ensures
            r == label_get(self@.labels, k@),
    {
        let i = self.label_index(k);
        if i < self.labels.len() {
            Some(self.labels[i].1)
        } else {
            None
        }
    }

    /// Bind a label to an address.
    fn insert_label(&mut self, k: Vec<char>, v: u32)
        ensures
            final(self)@ == (AsmModel { labels: label_insert(old(self)@.labels, k@, v), ..old(self)@ }),
    {
        let i = self.label_index(&k);
        let ghost kv = k@;
        if i < self.labels.len() {
            self.labels.set(i, (k, v));
            assert(table_model(self.labels@) =~= table_model(old(self).labels@).update(
                i as int,
                (kv, v),
            ));
        } else {
            self.labels.push((k, v));
            assert(table_model(self.labels@) =~= table_model(old(self).labels@).push((kv, v)));
        }
    }

    /// `push ra`.
    fn encode_push(&mut self, operands: &[Vec<char>], line_num: usize) -> (r: Vec<u8>)
        ensures
            (final(self)@, r@) == enc_push(old(self)@, views(operands@), line_num),
    {
        if operands.len() == 0 {
            let mut msg = line_msg(line_num);
            push_str(&mut msg, "push requires operand");
            return self.record_error(msg);
        }
        if let Some(ra) = self.parse_register(&operands[0]) {
            if let Some(byte) = encode_push_byte(ra) {
                let r = vec![byte];
                assert(r@ =~= seq![byte]);
                r
            } else {
                let mut msg = line_msg(line_num);
                push_str(&mut msg, "push ");
                push_chars(&mut msg, &operands[0]);
                push_str(&mut msg, " not supported");
                self.record_error(msg)
            }
        } else {
            let mut msg = line_msg(line_num);
            push_str(&mut msg, "Invalid register '");
            push_chars(&mut msg, &operands[0]);
            push_str(&mut msg, "'");
            self.record_error(msg)
        }
    }

    /// `pop ra`.
    fn encode_pop(&mut self, operands: &[Vec<char>], line_num: usize) -> (r: Vec<u8>)
        ensures
            (final(self)@, r@) == enc_pop(old(self)@, views(operands@), line_num),
    {
        if operands.len() == 0 {
            let mut msg = line_msg(line_num);
            push_str(&mut msg, "pop requires operand");
            return self.record_error(msg);
        }
        if let Some(ra) = self.parse_register(&operands[0]) {
            if let Some(byte) = encode_pop_byte(ra) {
                let r = vec![byte];
                assert(r@ =~= seq![byte]);
                r
            } else {
                let mut msg = line_msg(line_num);
                push_str(&mut msg, "pop ");
                push_chars(&mut msg, &operands[0]);
                push_str(&mut msg, " not supported");
                self.record_error(msg)
            }
        } else {
            let mut msg = line_msg(line_num);
            push_str(&mut msg, "Invalid register '");
            push_chars(&mut msg, &operands[0]);
            push_str(&mut msg, "'");
            self.record_error(msg)
        }
    }

    /// `mov ra,rb`.
    fn encode_mov(&mut self, operands: &[Vec<char>], line_num: usize) -> (r: Vec<u8>)
        ensures
            (final(self)@, r@) == enc_mov(old(self)@, views(operands@), line_num),
    {
        if operands.len() < 2 {
            let mut msg = line_msg(line_num);
            push_str(&mut msg, "mov requires two operands");
            return self.record_error(msg);
        }
        let ra = self.parse_register(&operands[0]);
        let rb = self.parse_register(&operands[1]);
        match (ra, rb) {
            (Some(ra), Some(rb)) => {
                if let Some(byte) = encode_mov_byte(ra, rb) {
                    let r = vec![byte];
                    assert(r@ =~= seq![byte]);
                    r
                } else {
                    let mut msg = line_msg(line_num);
                    push_str(&mut msg, "mov ");
                    push_chars(&mut msg, &operands[0]);
                    push_str(&mut msg, ",");
                    push_chars(&mut msg, &operands[1]);
                    push_str(&mut msg, " not supported");
                    self.record_error(msg)
                }
            },
            _ => {
                let mut msg = line_msg(line_num);
                push_str(&mut msg, "Invalid mov operands");
                self.record_error(msg)
            },
        }
    }

    /// `add ra,rb` or `add ra,imm`.
    fn encode_add(&mut self, operands: &[Vec<char>], line_num: usize) -> (r: Vec<u8>)
        ensures
            (final(self)@, r@) == enc_add(old(self)@, views(operands@), line_num),
    {
        if operands.len() < 2 {
            let mut msg = line_msg(line_num);
            push_str(&mut msg, "add requires two operands");
            return self.record_error(msg);
        }
        let ra = self.parse_register(&operands[0]);
        if let Some(imm) = self.parse_number(&operands[1]) {
            if let Some(ra) = ra {
                if let Some(byte) = encode_add_imm(ra) {
                    let r = vec![byte, imm as u8];
                    assert(r@ =~= seq![byte, imm as u8]);
                    r
                } else {
                    let mut msg = line_msg(line_num);
                    push_str(&mut msg, "add ");
                    push_chars(&mut msg, &operands[0]);
                    push_str(&mut msg, ",imm not supported");
                    self.record_error(msg)
                }
            } else {
                let mut msg = line_msg(line_num);
                push_str(&mut msg, "Invalid register");
                self.record_error(msg)
            }
        } else if let Some(rb) = self.parse_register(&operands[1]) {
            if let Some(ra) = ra {
                if let Some(byte) = encode_add_reg(ra, rb) {
                    let r = vec![byte];
                    assert(r@ =~= seq![byte]);
                    r
                } else {
                    let mut msg = line_msg(line_num);
                    push_str(&mut msg, "add ");
                    push_chars(&mut msg, &operands[0]);
                    push_str(&mut msg, ",");
                    push_chars(&mut msg, &operands[1]);
                    push_str(&mut msg, " not supported");
                    self.record_error(msg)
                }
            } else {
                let mut msg = line_msg(line_num);
                push_str(&mut msg, "Invalid register");
                self.record_error(msg)
            }
        } else {
            let mut msg = line_msg(line_num);
            push_str(&mut msg, "Invalid add operand");
            self.record_error(msg)
        }
    }

    /// `sub ra,rb` or `sub sp,imm24`.
    fn encode_sub(&mut self, operands: &[Vec<char>], line_num: usize) -> (r: Vec<u8>)
        ensures
            (final(self)@, r@) == enc_sub(old(self)@, views(operands@), line_num),
    {
        if operands.len() < 2 {
            let mut msg = line_msg(line_num);
            push_str(&mut msg, "sub requires two operands");
            return self.record_error(msg);
        }
        let lowered = lowercase_chars(&operands[0]);
        if eq_str(&lowered, "sp") {
            if let Some(imm) = self.parse_number(&operands[1]) {
                if let Some(byte) = encode_sub_sp() {
                    let r = vec![
                        byte,
                        (imm & 0xFF) as u8,
                        ((imm >> 8) & 0xFF) as u8,
                        ((imm >> 16) & 0xFF) as u8,
                    ];
                    assert(r@ =~= seq![byte] + word_bytes(imm));
                    return r;
                }
            }
        }
        let ra = self.parse_register(&operands[0]);
        let rb = self.parse_register(&operands[1]);
        match (ra, rb) {
            (Some(ra), Some(rb)) => {
                if let Some(byte) = encode_instruction(Opcode::Sub, ra, rb) {
                    let r = vec![byte];
                    assert(r@ =~= seq![byte]);
                    r
                } else {
                    let mut msg = line_msg(line_num);
                    push_str(&mut msg, "sub ");
                    push_chars(&mut msg, &operands[0]);
                    push_str(&mut msg, ",");
                    push_chars(&mut msg, &operands[1]);
                    push_str(&mut msg, " not supported");
                    self.record_error(msg)
                }
            },
            _ => {
                let mut msg = line_msg(line_num);
                push_str(&mut msg, "Invalid sub operands");
                self.record_error(msg)
            },
        }
    }

    /// `mul ra,rb`.
    fn encode_mul(&mut self, operands: &[Vec<char>], line_num: usize) -> (r: Vec<u8>)
        ensures
            (final(self)@, r@) == enc_mul(old(self)@, views(operands@), line_num),
    {
        if operands.len() < 2 {
            let mut msg = line_msg(line_num);
            push_str(&mut msg, "mul requires two operands");
            return self.record_error(msg);
        }
        let ra = self.parse_register(&operands[0]);
        let rb = self.parse_register(&operands[1]);
        match (ra, rb) {
            (Some(ra), Some(rb)) => {
                if let Some(byte) = encode_instruction(Opcode::Mul, ra, rb) {
                    let r = vec![byte];
                    assert(r@ =~= seq![byte]);
                    r
                } else {
                    let mut msg = line_msg(line_num);
                    push_str(&mut msg, "mul ");
                    push_chars(&mut msg, &operands[0]);
                    push_str(&mut msg, ",");
                    push_chars(&mut msg, &operands[1]);
                    push_str(&mut msg, " not supported");
                    self.record_error(msg)
                }
            },
            _ => {
                let mut msg = line_msg(line_num);
                push_str(&mut msg, "Invalid mul operands");
                self.record_error(msg)
            },
        }
    }

    /// A two-register ALU, shift, compare or extension instruction.
    fn encode_alu(&mut self, operands: &[Vec<char>], opcode: Opcode, mnemonic: &str, line_num: usize) -> (r: Vec<u8>)
        ensures
            (final(self)@, r@) == enc_alu(old(self)@, views(operands@), opcode, mnemonic@, line_num),
    {
        if operands.len() < 2 {
            let mut msg = line_msg(line_num);
            push_str(&mut msg, mnemonic);
            push_str(&mut msg, " requires two operands");
            return self.record_error(msg);
        }
        let ra = self.parse_register(&operands[0]);
        let rb = self.parse_register(&operands[1]);
        match (ra, rb) {
            (Some(ra), Some(rb)) => {
                if let Some(byte) = encode_instruction(opcode, ra, rb) {
                    let r = vec![byte];
                    assert(r@ =~= seq![byte]);
                    r
                } else {
                    let mut msg = line_msg(line_num);
                    push_str(&mut msg, mnemonic);
                    push_str(&mut msg, " ");
                    push_chars(&mut msg, &operands[0]);
                    push_str(&mut msg, ",");
                    push_chars(&mut msg, &operands[1]);
                    push_str(&mut msg, " not supported");
                    self.record_error(msg)
                }
            },
            _ => {
                let mut msg = line_msg(line_num);
                push_str(&mut msg, "Invalid ");
                push_str(&mut msg, mnemonic);
                push_str(&mut msg, " operands");
                self.record_error(msg)
            },
        }
    }

    /// `bra`/`brf`/`brt`; `None` where the next address or the offset leaves its range.
    fn encode_branch(&mut self, operands: &[Vec<char>], opcode: Opcode, line_num: usize) -> (r: Option<Vec<u8>>)
        ensures
            r matches Some(b) ==> (final(self)@, b@) == enc_branch(old(self)@, views(operands@), opcode, line_num),
            r is None ==> !enc_branch(old(self)@, views(operands@), opcode, line_num).0.ok,
    {
        if operands.len() == 0 {
            let mut msg = line_msg(line_num);
            push_str(&mut msg, "branch requires target");
            return Some(self.record_error(msg));
        }
        let target = trim_chars(&operands[0]);
        let first_byte = match encode_branch_byte(opcode) {
            Some(b) => b,
            None => 0x13,
        };
        if let Some(addr) = self.label_lookup(&target) {
            if self.address > u32::MAX - 2 {
                return None;
            }
            let next_pc = self.address + 2;
            let offset = as_signed(addr) - as_signed(next_pc);
            if offset < -0x8000_0000 || offset > 0x7FFF_FFFF {
                return None;
            }
            if offset < -128 || offset > 127 {
                let mut msg = line_msg(line_num);
                push_str(&mut msg, "Branch target too far");
                return Some(self.record_error(msg));
            }
            let b: u8 = if offset < 0 { (offset + 256) as u8 } else { offset as u8 };
            let r = vec![first_byte, b];
            assert(r@ =~= seq![first_byte, offset_byte(offset as int)]);
            Some(r)
        } else if let Some(imm) = self.parse_number(&target) {
            let r = vec![first_byte, imm as u8];
            assert(r@ =~= seq![first_byte, imm as u8]);
            Some(r)
        } else {
            if self.address == u32::MAX {
                return None;
            }
            let ghost t = target@;
            self.forward_refs.push(ForwardRef {
                address: self.address + 1,
                label: target,
                ref_type: RefType::Relative8,
                line_num,
            });
            proof {
                let rm = RefModel { address: (old(self).address + 1) as u32, label: t, absolute: false, line_num };
                assert(refs_model(self.forward_refs@) =~= refs_model(old(self).forward_refs@).push(rm));
            }
            let r = vec![first_byte, 0];
            assert(r@ =~= seq![first_byte, 0u8]);
            Some(r)
        }
    }

    /// `jmp (ra)`.
    fn encode_jmp(&mut self, operands: &[Vec<char>], line_num: usize) -> (r: Vec<u8>)
        ensures
            (final(self)@, r@) == enc_jmp(old(self)@, views(operands@), line_num),
    {
        if operands.len() == 0 {
            let mut msg = line_msg(line_num);
            push_str(&mut msg, "jmp requires target");
            return self.record_error(msg);
        }
        let target = trim_chars(&operands[0]);
        if target.len() >= 2 && target[0] == '(' && target[target.len() - 1] == ')' {
            let reg = subrange(&target, 1, target.len() - 1);
            if let Some(ra) = self.parse_register(&reg) {
                if let Some(byte) = encode_jmp_byte(ra) {
                    let r = vec![byte];
                    assert(r@ =~= seq![byte]);
                    return r;
                } else {
                    let mut msg = line_msg(line_num);
                    push_str(&mut msg, "jmp (");
                    push_chars(&mut msg, &reg);
                    push_str(&mut msg, ") not supported");
                    return self.record_error(msg);
                }
            }
        }
        let mut msg = line_msg(line_num);
        push_str(&mut msg, "Invalid jmp syntax");
        self.record_error(msg)
    }

    /// `jal ra,(rb)`.
    fn encode_jal(&mut self, operands: &[Vec<char>], line_num: usize) -> (r: Vec<u8>)
        ensures
            (final(self)@, r@) == enc_jal(old(self)@, views(operands@), line_num),
    {
        if operands.len() < 2 {
            let mut msg = line_msg(line_num);
            push_str(&mut msg, "jal requires ra,(rb)");
            return self.record_error(msg);
        }
        let ra = self.parse_register(&operands[0]);
        let rb_str = trim_chars(&operands[1]);
        if rb_str.len() >= 2 && rb_str[0] == '(' && rb_str[rb_str.len() - 1] == ')' {
            let reg = subrange(&rb_str, 1, rb_str.len() - 1);
            if let (Some(ra), Some(rb)) = (ra, self.parse_register(&reg)) {
                if let Some(byte) = encode_jal_byte(ra, rb) {
                    let r = vec![byte];
                    assert(r@ =~= seq![byte]);
                    return r;
                } else {
                    let mut msg = line_msg(line_num);
                    push_str(&mut msg, "jal ");
                    push_chars(&mut msg, &operands[0]);
                    push_str(&mut msg, ",(");
                    push_chars(&mut msg, &reg);
                    push_str(&mut msg, ") not supported");
                    return self.record_error(msg);
                }
            }
        }
        let mut msg = line_msg(line_num);
        push_str(&mut msg, "Invalid jal syntax");
        self.record_error(msg)
    }

    /// `la ra,addr24`; `None` where the address of a forward reference leaves its range.
    fn encode_la(&mut self, operands: &[Vec<char>], line_num: usize) -> (r: Option<Vec<u8>>)
        ensures
            r matches Some(b) ==> (final(self)@, b@) == enc_la(old(self)@, views(operands@), line_num),
            r is None ==> !enc_la(old(self)@, views(operands@), line_num).0.ok,
    {
        if operands.len() < 2 {
            let mut msg = line_msg(line_num);
            push_str(&mut msg, "la requires register and address");
            return Some(self.record_error(msg));
        }
        let ra = self.parse_register(&operands[0]);
        let target = trim_chars(&operands[1]);
        if let Some(ra) = ra {
            if let Some(first_byte) = encode_la_byte(ra) {
                if let Some(addr) = self.parse_number(&target) {
                    let r = vec![
                        first_byte,
                        (addr & 0xFF) as u8,
                        ((addr >> 8) & 0xFF) as u8,
                        ((addr >> 16) & 0xFF) as u8,
                    ];
                    assert(r@ =~= seq![first_byte] + word_bytes(addr));
                    Some(r)
                } else if let Some(addr) = self.label_lookup(&target) {
                    let r = vec![
                        first_byte,
                        (addr & 0xFF) as u8,
                        ((addr >> 8) & 0xFF) as u8,
                        ((addr >> 16) & 0xFF) as u8,
                    ];
                    assert(r@ =~= seq![first_byte] + word_bytes(addr));
                    Some(r)
                } else {
                    if self.address == u32::MAX {
                        return None;
                    }
                    let ghost t = target@;
                    self.forward_refs.push(ForwardRef {
                        address: self.address + 1,
                        label: target,
                        ref_type: RefType::Absolute24,
                        line_num,
                    });
                    proof {
                        let rm = RefModel { address: (old(self).address + 1) as u32, label: t, absolute: true, line_num };
                        assert(refs_model(self.forward_refs@) =~= refs_model(old(self).forward_refs@).push(rm));
                    }
                    let r = vec![first_byte, 0, 0, 0];
                    assert(r@ =~= seq![first_byte, 0u8, 0u8, 0u8]);
                    Some(r)
                }
            } else {
                let mut msg = line_msg(line_num);
                push_str(&mut msg, "la ");
                push_chars(&mut msg, &operands[0]);
                push_str(&mut msg, " not supported");
                Some(self.record_error(msg))
            }
        } else {
            let mut msg = line_msg(line_num);
            push_str(&mut msg, "Invalid la operand");
            Some(self.record_error(msg))
        }
    }

    /// `lc ra,imm8` or, when `unsigned`, `lcu ra,imm8`.
    fn encode_lc(&mut self, operands: &[Vec<char>], unsigned: bool, line_num: usize) -> (r: Vec<u8>)
        ensures
            (final(self)@, r@) == enc_lc(old(self)@, views(operands@), unsigned, line_num),
    {
        if operands.len() < 2 {
            let mut msg = line_msg(line_num);
            push_str(&mut msg, "lc requires register and constant");
            return self.record_error(msg);
        }
        let ra = self.parse_register(&operands[0]);
        let imm = self.parse_number(&operands[1]);
        match (ra, imm) {
            (Some(ra), Some(imm)) => {
                if let Some(first_byte) = encode_lc_byte(ra, unsigned) {
                    let r = vec![first_byte, imm as u8];
                    assert(r@ =~= seq![first_byte, imm as u8]);
                    r
                } else {
                    let mnemonic = if unsigned { "lcu" } else { "lc" };
                    let mut msg = line_msg(line_num);
                    push_str(&mut msg, mnemonic);
                    push_str(&mut msg, " ");
                    push_chars(&mut msg, &operands[0]);
                    push_str(&mut msg, " not supported");
                    self.record_error(msg)
                }
            },
            _ => {
                let mut msg = line_msg(line_num);
                push_str(&mut msg, "Invalid lc operands");
                self.record_error(msg)
            },
        }
    }

    /// A load or store `op ra,offset(rb)`.
    fn encode_load_store(&mut self, operands: &[Vec<char>], opcode: Opcode, mnemonic: &str, line_num: usize) -> (r: Vec<u8>)
        ensures
            (final(self)@, r@) == enc_load_store(old(self)@, views(operands@), opcode, mnemonic@, line_num),
    {
        if operands.len() < 2 {
            let mut msg = line_msg(line_num);
            push_str(&mut msg, mnemonic);
            push_str(&mut msg, " requires operands");
            return self.record_error(msg);
        }
        let ra = self.parse_register(&operands[0]);
        let addr_part = trim_chars(&operands[1]);
        if let Some(paren_pos) = find_char(&addr_part, '(') {
            let len = addr_part.len();
            let offset_str = subrange(&addr_part, 0, paren_pos);
            let rest = subrange(&addr_part, paren_pos + 1, len);
            let rb_str = trim_end_char_chars(&rest, ')');
            proof {
                assert(offset_str@ =~= addr_part@.take(paren_pos as int));
                assert(rest@ =~= addr_part@.skip(paren_pos + 1));
            }
            let offset = if offset_str.len() == 0 {
                Some(0u32)
            } else {
                self.parse_number(&offset_str)
            };
            let rb = self.parse_register(&rb_str);
            if let (Some(ra), Some(rb), Some(offset)) = (ra, rb, offset) {
                if let Some(first_byte) = encode_load_store_byte(opcode, ra, rb) {
                    let b = #[verifier::truncate] (offset as u8);
                    let r = vec![first_byte, b];
                    assert(r@ =~= seq![first_byte, offset as u8]);
                    return r;
                } else {
                    let mut msg = line_msg(line_num);
                    push_str(&mut msg, mnemonic);
                    push_str(&mut msg, " ");
                    push_chars(&mut msg, &operands[0]);
                    push_str(&mut msg, ",");
                    push_chars(&mut msg, &operands[1]);
                    push_str(&mut msg, " not supported");
                    return self.record_error(msg);
                }
            }
        }
        let mut msg = line_msg(line_num);
        push_str(&mut msg, "Invalid ");
        push_str(&mut msg, mnemonic);
        push_str(&mut msg, " syntax");
        self.record_error(msg)
    }



    /// The instruction named by an already lowercased mnemonic; `None` where an address
    /// computation leaves its range.
    #[verifier::rlimit(40)]
    fn encode_mnemonic(&mut self, mnemonic: &[char], operands: &[Vec<char>], line_num: usize) -> (r: Option<Vec<u8>>)
        ensures
            r matches Some(b) ==> (final(self)@, b@) == dispatch(old(self)@, mnemonic@, views(operands@), line_num),
            r is None ==> !dispatch(old(self)@, mnemonic@, views(operands@), line_num).0.ok,
    {
        if eq_str(mnemonic, "push") {
            Some(self.encode_push(operands, line_num))
        } else if eq_str(mnemonic, "pop") {
            Some(self.encode_pop(operands, line_num))
        } else if eq_str(mnemonic, "mov") {
            Some(self.encode_mov(operands, line_num))
        } else if eq_str(mnemonic, "add") {
            Some(self.encode_add(operands, line_num))
        } else if eq_str(mnemonic, "sub") {
            Some(self.encode_sub(operands, line_num))
        } else if eq_str(mnemonic, "mul") {
            Some(self.encode_mul(operands, line_num))
        } else if eq_str(mnemonic, "and") {
            Some(self.encode_alu(operands, Opcode::And, "and", line_num))
        } else if eq_str(mnemonic, "or") {
            Some(self.encode_alu(operands, Opcode::Or, "or", line_num))
        } else if eq_str(mnemonic, "xor") {
            Some(self.encode_alu(operands, Opcode::Xor, "xor", line_num))
        } else if eq_str(mnemonic, "shl") {
            Some(self.encode_alu(operands, Opcode::Shl, "shl", line_num))
        } else if eq_str(mnemonic, "sra") {
            Some(self.encode_alu(operands, Opcode::Sra, "sra", line_num))
        } else if eq_str(mnemonic, "srl") {
            Some(self.encode_alu(operands, Opcode::Srl, "srl", line_num))
        } else if eq_str(mnemonic, "ceq") {
            Some(self.encode_alu(operands, Opcode::Ceq, "ceq", line_num))
        } else if eq_str(mnemonic, "cls") {
            Some(self.encode_alu(operands, Opcode::Cls, "cls", line_num))
        } else if eq_str(mnemonic, "clu") {
            Some(self.encode_alu(operands, Opcode::Clu, "clu", line_num))
        } else if eq_str(mnemonic, "bra") {
            self.encode_branch(operands, Opcode::Bra, line_num)
        } else if eq_str(mnemonic, "brf") {
            self.encode_branch(operands, Opcode::Brf, line_num)
        } else if eq_str(mnemonic, "brt") {
            self.encode_branch(operands, Opcode::Brt, line_num)
        } else if eq_str(mnemonic, "jmp") {
            Some(self.encode_jmp(operands, line_num))
        } else if eq_str(mnemonic, "jal") {
            Some(self.encode_jal(operands, line_num))
        } else if eq_str(mnemonic, "la") {
            self.encode_la(operands, line_num)
        } else if eq_str(mnemonic, "lc") {
            Some(self.encode_lc(operands, false, line_num))
        } else if eq_str(mnemonic, "lcu") {
            Some(self.encode_lc(operands, true, line_num))
        } else if eq_str(mnemonic, "lb") {
            Some(self.encode_load_store(operands, Opcode::Lb, "lb", line_num))
        } else if eq_str(mnemonic, "lbu") {
            Some(self.encode_load_store(operands, Opcode::Lbu, "lbu", line_num))
        } else if eq_str(mnemonic, "lw") {
            Some(self.encode_load_store(operands, Opcode::Lw, "lw", line_num))
        } else if eq_str(mnemonic, "sb") {
            Some(self.encode_load_store(operands, Opcode::Sb, "sb", line_num))
        } else if eq_str(mnemonic, "sw") {
            Some(self.encode_load_store(operands, Opcode::Sw, "sw", line_num))
        } else if eq_str(mnemonic, "sxt") {
            Some(self.encode_alu(operands, Opcode::Sxt, "sxt", line_num))
        } else if eq_str(mnemonic, "zxt") {
            Some(self.encode_alu(operands, Opcode::Zxt, "zxt", line_num))
        } else if eq_str(mnemonic, "halt") {
            let r = vec![0xC7u8, 0x00u8, 0x00u8, 0x00u8];
            assert(r@ =~= seq![0xC7u8, 0x00u8, 0x00u8, 0x00u8]);
            Some(r)
        } else if eq_str(mnemonic, "nop") {
            let r = vec![0x00u8];
            assert(r@ =~= seq![0x00u8]);
            Some(r)
        } else {
            let mut msg = line_msg(line_num);
            push_str(&mut msg, "Unknown instruction '");
            push_chars(&mut msg, mnemonic);
            push_str(&mut msg, "'");
            Some(self.record_error(msg))
        }
    }

    /// Encode the instruction text of one line; `None` where an address computation leaves
    /// its range.
    fn parse_instruction(&mut self, inst: &[char], line_num: usize) -> (r: Option<Vec<u8>>)
        ensures
            r matches Some(b) ==> (final(self)@, b@) == instruction_step(old(self)@, inst@, line_num),
            r is None ==> !instruction_step(old(self)@, inst@, line_num).0.ok,
    {
        let stripped = if let Some(pos) = find_char(inst, ';') {
            subrange(inst, 0, pos)
        } else if let Some(pos) = find_char(inst, '#') {
            subrange(inst, 0, pos)
        } else {
            copy_chars(inst)
        };
        assert(stripped@ =~= strip_comment(inst@));
        let parts = words_chars(&stripped);
        if parts.len() == 0 {
            let r: Vec<u8> = Vec::new();
            assert(r@ =~= Seq::<u8>::empty());
            return Some(r);
        }
        let mnemonic = lowercase_chars(&parts[0]);
        let operands_str = if parts.len() > 1 {
            join_chars(&parts, 1, ' ')
        } else {
            Vec::new()
        };
        assert(operands_str@ =~= (if views(parts@).len() > 1 {
            join(views(parts@).skip(1), seq![' '])
        } else {
            Seq::empty()
        }));
        let operands = if operands_str.len() > 0 {
            trimmed_pieces(&operands_str, ',')
        } else {
            Vec::new()
        };
        assert(views(operands@) =~= operands_of(views(parts@)));
        self.encode_mnemonic(&mnemonic, &operands, line_num)
    }

    /// Append bytes to the output, advancing the address; nothing changes when the address
    /// would leave the range of `u32`.
    fn emit(&mut self, bytes: &[u8]) -> (fits: bool)
        ensures
            fits == (old(self)@.address + bytes@.len() <= u32::MAX),
            fits ==> final(self)@ == emit_data(old(self)@, bytes@),
            !fits ==> final(self)@ == old(self)@,
    {
        if bytes.len() as u64 > 0xFFFF_FFFF - self.address as u64 {
            return false;
        }
        let ghost m0 = self@;
        let ghost out0 = self.output@;
        let mut i: usize = 0;
        while i < bytes.len()
            invariant
                i <= bytes@.len(),
                m0.address + bytes@.len() <= u32::MAX,
                self.output@ == out0 + bytes@.take(i as int),
                self.address == m0.address + i,
                m0 == (AsmModel { output: out0, address: (self.address - i) as u32, ..self@ }),
            decreases bytes@.len() - i,
        {
            self.output.push(bytes[i]);
            self.address = self.address + 1;
            i += 1;
            assert(self.output@ =~= out0 + bytes@.take(i as int));
        }
        assert(bytes@.take(bytes@.len() as int) =~= bytes@);
        assert(self@ =~= emit_data(m0, bytes@));
        true
    }

    /// Record a listing line.
    fn push_line(&mut self, entry: AssembledLine)
        ensures
            final(self)@ == (AsmModel { lines: old(self)@.lines.push(entry.model()), ..old(self)@ }),
    {
        let ghost e = entry.model();
        self.lines.push(entry);
        assert(line_models(self.lines@) =~= line_models(old(self).lines@).push(e));
    }

    /// Pad the output with zeros up to `addr` and continue there (`.org`).
    fn org(&mut self, addr: u32)
        ensures
            final(self)@ == (AsmModel {
                address: addr,
                output: if old(self)@.output.len() < addr {
                    old(self)@.output + Seq::new((addr - old(self)@.output.len()) as nat, |i: int| 0u8)
                } else {
                    old(self)@.output
                },
                ..old(self)@
            }),
    {
        let ghost m0 = self@;
        let ghost out0 = self.output@;
        let target = addr as usize;
        while self.output.len() < target
            invariant
                target == addr,
                out0.len() <= self.output@.len(),
                self.output@.len() <= out0.len() || self.output@.len() <= target,
                self.output@ == out0 + Seq::new((self.output@.len() - out0.len()) as nat, |i: int| 0u8),
                m0 == (AsmModel { output: out0, ..self@ }),
            decreases target - self.output@.len(),
        {
            let ghost before = self.output@;
            self.output.push(0);
            assert(self.output@ =~= out0 + Seq::new((self.output@.len() - out0.len()) as nat, |i: int| 0u8)) by {
                assert(before =~= out0 + Seq::new((before.len() - out0.len()) as nat, |i: int| 0u8));
            }
        }
        self.address = addr;
        proof {
            if out0.len() < addr {
                assert(self.output@.len() == addr);
            } else {
                assert(self.output@ =~= out0);
            }
        }
    }

    /// `.byte`/`.db` or `.word`/`.dw` over the operands after the directive name.
    fn data(&mut self, parts: &[Vec<char>], word: bool) -> (fits: bool)
        requires
            parts@.len() >= 1,
        ensures
            fits ==> final(self)@ == data_step(old(self)@, views(parts@), word, parts@.len() as int),
            !fits ==> !data_step(old(self)@, views(parts@), word, parts@.len() as int).ok,
    {
        let ghost m0 = self@;
        let ghost ps = views(parts@);
        let mut i: usize = 1;
        while i < parts.len()
            invariant
                1 <= i <= parts@.len(),
                ps == views(parts@),
                m0 == old(self)@,
                self@ == data_step(m0, ps, word, i as int),
            decreases parts@.len() - i,
        {
            let stripped = trim_char_chars(&parts[i], ',');
            assert(ps[i as int] == parts@[i as int]@);
            if let Some(val) = self.parse_number(&stripped) {
                let bytes = if word {
                    vec![(val & 0xFF) as u8, ((val >> 8) & 0xFF) as u8, ((val >> 16) & 0xFF) as u8]
                } else {
                    vec![val as u8]
                };
                assert(bytes@ =~= (if word { word_bytes(val) } else { seq![val as u8] }));
                if !self.emit(&bytes) {
                    proof {
                        assert(!data_step(m0, ps, word, i + 1).ok);
                        lemma_data_step_frame(m0, ps, word, i + 1, parts@.len() as int);
                        assert(!data_step(m0, ps, word, parts@.len() as int).ok);
                    }
                    return false;
                }
            }
            i += 1;
        }
        true
    }

    /// `.ascii`/`.asciz`: the UTF-8 bytes between the first and the last quote, then a zero
    /// byte when `zero`.
    fn ascii(&mut self, d: &[char], zero: bool) -> (fits: bool)
        ensures
            fits ==> final(self)@ == ascii_step(old(self)@, d@, zero),
            !fits ==> !ascii_step(old(self)@, d@, zero).ok,
    {
        if let Some(start) = find_char(d, '"') {
            if let Some(end) = rfind_char(d, '"') {
                if end > start {
                    let text = subrange(d, start + 1, end);
                    let s = string_of(&text);
                    let bytes = s.as_str().as_bytes();
                    if !self.emit(bytes) {
                        return false;
                    }
                    if zero {
                        let z = vec![0u8];
                        assert(z@ =~= seq![0u8]);
                        if !self.emit(&z) {
                            return false;
                        }
                    }
                }
            }
        }
        true
    }

    /// A directive line (text starting with `.`).
    fn handle_directive(&mut self, directive: &[char]) -> (fits: bool)
        ensures
            fits ==> final(self)@ == directive_step(old(self)@, directive@),
            !fits ==> !directive_step(old(self)@, directive@).ok,
    {
        let parts = words_chars(directive);
        if parts.len() == 0 {
            return true;
        }
        let kind = lowercase_chars(&parts[0]);
        if eq_str(&kind, ".org") {
            if parts.len() > 1 {
                if let Some(addr) = self.parse_number(&parts[1]) {
                    self.org(addr);
                }
            }
            true
        } else if eq_str(&kind, ".byte") || eq_str(&kind, ".db") {
            self.data(&parts, false)
        } else if eq_str(&kind, ".word") || eq_str(&kind, ".dw") {
            self.data(&parts, true)
        } else if eq_str(&kind, ".ascii") || eq_str(&kind, ".asciz") {
            let zero = eq_str(&kind, ".asciz");
            self.ascii(directive, zero)
        } else {
            true
        }
    }

    /// Assemble one source line; `false` where an address computation leaves its range.
    fn assemble_line(&mut self, line: &[char], line_num: usize) -> (fits: bool)
        ensures
            fits ==> final(self)@ == line_step(old(self)@, line@, line_num),
            !fits ==> !line_step(old(self)@, line@, line_num).ok,
    {
        let t = trim_chars(line);
        if t.len() == 0 || t[0] == ';' || t[0] == '#' {
            return true;
        }
        let start_addr = self.address;
        let (label, ip) = label_and_rest(&t);
        if let Some(ls) = &label {
            let k = copy_chars(ls);
            self.insert_label(k, start_addr);
        }
        if ip.len() > 0 && ip[0] == '.' {
            return self.handle_directive(&ip);
        }
        if ip.len() == 0 {
            if label.is_some() {
                let entry = AssembledLine {
                    address: start_addr,
                    bytes: Vec::new(),
                    source: string_of(&t),
                    label: opt_string(&label),
                };
                assert(entry.bytes@ =~= Seq::<u8>::empty());
                self.push_line(entry);
            }
            return true;
        }
        let bytes = match self.parse_instruction(&ip, line_num) {
            Some(b) => b,
            None => {
                return false;
            },
        };
        let entry = AssembledLine {
            address: start_addr,
            bytes: copy_bytes(&bytes),
            source: string_of(&t),
            label: opt_string(&label),
        };
        self.push_line(entry);
        self.emit(&bytes)
    }

    /// Patch every forward reference with the final symbol table; `false` where an address
    /// computation leaves its range.
    fn resolve_forward_refs(&mut self) -> (fits: bool)
        ensures
            fits ==> final(self)@ == resolve_upto(old(self)@, old(self)@.refs.len() as int),
            !fits ==> !resolve_upto(old(self)@, old(self)@.refs.len() as int).ok,
    {
        let ghost m0 = self@;
        let ghost refs0 = self.forward_refs@;
        let mut i: usize = 0;
        while i < self.forward_refs.len()
            invariant
                i <= self.forward_refs@.len(),
                self.forward_refs@ == refs0,
                m0 == old(self)@,
                m0.refs == refs_model(refs0),
                self@ == resolve_upto(m0, i as int),
            decreases self.forward_refs@.len() - i,
        {
            proof {
                lemma_resolve_frame(m0, i as int, i as int);
                assert(m0.refs[i as int] == self.forward_refs@[i as int].model());
            }
            let fa = self.forward_refs[i].address;
            let ln = self.forward_refs[i].line_num;
            let absolute = match self.forward_refs[i].ref_type {
                RefType::Absolute24 => true,
                RefType::Relative8 => false,
            };
            let found = self.label_lookup(&self.forward_refs[i].label);
            match found {
                Some(target) => {
                    if absolute {
                        if (fa as u64) + 2 < (self.output.len() as u64) {
                            let a = fa as usize;
                            let ghost before = self.output@;
                            self.output.set(a, (target & 0xFF) as u8);
                            self.output.set(a + 1, ((target >> 8) & 0xFF) as u8);
                            self.output.set(a + 2, ((target >> 16) & 0xFF) as u8);
                            proof {
                                let w = word_bytes(target);
                                assert(self.output@ =~= before.update(fa as int, w[0]).update(fa + 1, w[1]).update(fa + 2, w[2]));
                            }
                        }
                    } else {
                        if fa == u32::MAX {
                            proof {
                                lemma_resolve_frame(m0, i + 1, m0.refs.len() as int);
                            }
                            return false;
                        }
                        let next_pc = fa + 1;
                        let offset = as_signed(target) - as_signed(next_pc);
                        if offset < -0x8000_0000 || offset > 0x7FFF_FFFF {
                            proof {
                                lemma_resolve_frame(m0, i + 1, m0.refs.len() as int);
                            }
                            return false;
                        }
                        if offset >= -128 && offset <= 127 {
                            if (fa as u64) < (self.output.len() as u64) {
                                let b: u8 = if offset < 0 { (offset + 256) as u8 } else { offset as u8 };
                                self.output.set(fa as usize, b);
                            }
                        } else {
                            let mut msg = line_msg(ln);
                            push_str(&mut msg, "Branch target '");
                            push_chars(&mut msg, &self.forward_refs[i].label);
                            push_str(&mut msg, "' too far");
                            self.record_error(msg);
                        }
                    }
                },
                None => {
                    let mut msg = line_msg(ln);
                    push_str(&mut msg, "Undefined label '");
                    push_chars(&mut msg, &self.forward_refs[i].label);
                    push_str(&mut msg, "'");
                    self.record_error(msg);
                },
            }
            i += 1;
        }
        true
    }

    /// The run's output, listing, errors and symbol table; the assembler is left empty.
    fn take_result(&mut self) -> (r: AssemblyResult)
        ensures
            result_matches(r, old(self)@),
    {
        let mut bytes: Vec<u8> = Vec::new();
        std::mem::swap(&mut bytes, &mut self.output);
        let mut lines: Vec<AssembledLine> = Vec::new();
        std::mem::swap(&mut lines, &mut self.lines);
        let mut errors: Vec<String> = Vec::new();
        let mut i: usize = 0;
        while i < self.errors.len()
            invariant
                i <= self.errors@.len(),
                self.errors@ == old(self).errors@,
                errors@.len() == i,
                forall|j: int| 0 <= j < i ==> #[trigger] errors@[j]@ == self.errors@[j]@,
            decreases self.errors@.len() - i,
        {
            errors.push(string_of(&self.errors[i]));
            i += 1;
        }
        let mut labels: Vec<(String, u32)> = Vec::new();
        let mut k: usize = 0;
        while k < self.labels.len()
            invariant
                k <= self.labels@.len(),
                self.labels@ == old(self).labels@,
                labels@.len() == k,
                forall|j: int| 0 <= j < k ==> #[trigger] labels@[j].0@ == self.labels@[j].0@
                    && labels@[j].1 == self.labels@[j].1,
            decreases self.labels@.len() - k,
        {
            labels.push((string_of(&self.labels[k].0), self.labels[k].1));
            k += 1;
        }
        let r = AssemblyResult { bytes, lines, errors, labels };
        assert(string_views(r.errors@) =~= views(old(self).errors@));
        assert(label_views(r.labels@) =~= table_model(old(self).labels@));
        r
    }

    /// Assemble `source`, or `None` where an address computation leaves its range.
    fn assemble_checked(&mut self, source: &str) -> (r: Option<AssemblyResult>)
        ensures
            r is Some <==> assembly_fits(source@),
            r matches Some(res) ==> result_matches(res, assembly(source@)),
    {
        self.address = 0;
        self.labels.clear();
        self.forward_refs.clear();
        self.output.clear();
        self.lines.clear();
        self.errors.clear();
        assert(self@ =~= initial_model()) by {
            assert(table_model(self.labels@) =~= Seq::empty());
            assert(refs_model(self.forward_refs@) =~= Seq::empty());
            assert(line_models(self.lines@) =~= Seq::empty());
            assert(views(self.errors@) =~= Seq::empty());
        }
        let chars = chars_of(source);
        let src_lines = lines_chars(&chars);
        let ghost ls = views(src_lines@);
        let mut i: usize = 0;
        while i < src_lines.len()
            invariant
                i <= src_lines@.len(),
                ls == views(src_lines@),
                ls == lines(source@),
                self@ == lines_upto(ls, i as int),
            decreases src_lines@.len() - i,
        {
            assert(ls[i as int] == src_lines@[i as int]@);
            if !self.assemble_line(&src_lines[i], i) {
                proof {
                    lemma_lines_upto_frame(ls, i + 1, ls.len() as int);
                }
                return None;
            }
            i += 1;
        }
        if !self.resolve_forward_refs() {
            return None;
        }
        Some(self.take_result())
    }

    /// Assemble source code: each line in turn, then the forward references. The result
    /// holds the machine code, the listing, every error message and the symbol table.
    pub fn assemble(&mut self, source: &str) -> (r: AssemblyResult)
        requires
            assembly_fits(source@),
        ensures
            result_matches(r, assembly(source@)),
            keys_unique(label_views(r.labels@)),
    {
        proof {
            lemma_assembly_labels_unique(source@);
        }
        match self.assemble_checked(source) {
            Some(r) => r,
            None => vstd::pervasive::unreached(),
        }
    }

    /// Assemble source code, or `None` where the computation of an address or a
    /// branch offset would leave its integer range.
    pub fn try_assemble(&mut self, source: &str) -> (r: Option<AssemblyResult>)
        ensures
            r is Some <==> assembly_fits(source@),
            r matches Some(res) ==> result_matches(res, assembly(source@)) && keys_unique(
                label_views(res.labels@),
            ),
    {
        if self.assemble_checked(source).is_some() {
            Some(self.assemble(source))
        } else {
            None
        }
    }
}

} // verus!
