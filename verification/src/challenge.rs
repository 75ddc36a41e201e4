//! Challenges and example programs.
//!
//! A challenge asks for a program that leaves given values in given registers; it is
//! checked by assembling the program, running it from a fresh machine and comparing the
//! registers.

use vstd::prelude::*;
use crate::assembler::model::{assembly, assembly_fits};
use crate::assembler::{string_views, Assembler};
use crate::cpu::executor::{lemma_run_counts_fit, run_spec, ExecuteResult, Executor};
use crate::cpu::state::{initial_view, reg_value, store_bytes, CpuState, CpuView};
use crate::text::{decimal, hex_upper, join, push_chars, push_decimal, push_hex, push_str, string_of, chars_of};

verus! {

/// Title of the challenge "Load and Add".
pub const LOAD_AND_ADD_NAME: &'static str = "Load and Add";

/// Task of the challenge "Load and Add".
pub const LOAD_AND_ADD_DESCRIPTION: &'static str = "Load the value 10 into r0, then add 5 to it. Result should be 15 in r0.";

/// Starting code of the challenge "Load and Add".
pub const LOAD_AND_ADD_CODE: &'static str = "; Load 10 into r0, add 5\n; Result: r0 = 15\n\n";

/// Hint for the challenge "Load and Add".
pub const LOAD_AND_ADD_HINT: &'static str = "Use 'lc r0,10' to load 10, then 'add r0,5' to add 5";

/// Title of the challenge "Compare and Branch".
pub const COMPARE_AND_BRANCH_NAME: &'static str = "Compare and Branch";

/// Task of the challenge "Compare and Branch".
pub const COMPARE_AND_BRANCH_DESCRIPTION: &'static str = "Set r0 to 1 if 5 < 10 (signed), otherwise 0. Use cls and brt/brf.";

/// Starting code of the challenge "Compare and Branch".
pub const COMPARE_AND_BRANCH_CODE: &'static str = "; Compare 5 < 10 and set r0 accordingly\n; Result: r0 = 1\n\n";

/// Hint for the challenge "Compare and Branch".
pub const COMPARE_AND_BRANCH_HINT: &'static str = "Load values, use cls to compare, then mov r0,c to get the result";

/// Title of the challenge "Stack Operations".
pub const STACK_OPERATIONS_NAME: &'static str = "Stack Operations";

/// Task of the challenge "Stack Operations".
pub const STACK_OPERATIONS_DESCRIPTION: &'static str = "Push values 1, 2, 3 onto the stack, then pop them into r0, r1, r2.";

/// Starting code of the challenge "Stack Operations".
pub const STACK_OPERATIONS_CODE: &'static str = "; Push 1, 2, 3 then pop into r0, r1, r2\n; Result: r0=3, r1=2, r2=1\n\n";

/// Hint for the challenge "Stack Operations".
pub const STACK_OPERATIONS_HINT: &'static str = "Remember LIFO order - last pushed is first popped";

/// Title of the challenge "Max of Two".
pub const MAX_OF_TWO_NAME: &'static str = "Max of Two";

/// Task of the challenge "Max of Two".
pub const MAX_OF_TWO_DESCRIPTION: &'static str = "Set r0 to the maximum of r0=7 and r1=12 (without branching). Use mov ra,c!";

/// Starting code of the challenge "Max of Two".
pub const MAX_OF_TWO_CODE: &'static str = "; Find max of r0=7 and r1=12, store result in r0\n; Hint: Use COR24's mov ra,c feature\n; Result: r0 = 12\n\n        lc      r0,7\n        lc      r1,12\n\n        ; Your code here\n\n        halt\n";

/// Hint for the challenge "Max of Two".
pub const MAX_OF_TWO_HINT: &'static str = "cls sets C if r0 < r1. If true, you want r1. Use sub/add with C flag.";

/// Title of the challenge "Byte Sign Extension".
pub const BYTE_SIGN_EXTENSION_NAME: &'static str = "Byte Sign Extension";

/// Task of the challenge "Byte Sign Extension".
pub const BYTE_SIGN_EXTENSION_DESCRIPTION: &'static str = "Load -50 (0xCE) as unsigned into r0, then sign-extend it. Result should be 0xFFFFCE.";

/// Starting code of the challenge "Byte Sign Extension".
pub const BYTE_SIGN_EXTENSION_CODE: &'static str = "; Load 0xCE unsigned, then sign extend\n; Result: r0 = 0xFFFFCE (-50)\n\n";

/// Hint for the challenge "Byte Sign Extension".
pub const BYTE_SIGN_EXTENSION_HINT: &'static str = "Use lcu to load unsigned, then sxt to sign extend";

/// Title of the example "Basic Arithmetic".
pub const EXAMPLE_BASIC_ARITHMETIC_TITLE: &'static str = "Basic Arithmetic";

/// Summary of the example "Basic Arithmetic".
pub const EXAMPLE_BASIC_ARITHMETIC_SUMMARY: &'static str = "Load values and perform arithmetic operations.";

/// Source of the example "Basic Arithmetic".
pub const EXAMPLE_BASIC_ARITHMETIC_SOURCE: &'static str = r#"; Example 1: Basic Arithmetic
; Load constants and add them

        lc      r0,10       ; r0 = 10
        lc      r1,20       ; r1 = 20
        add     r0,r1       ; r0 = r0 + r1 = 30

        lc      r2,5        ; r2 = 5
        add     r0,r2       ; r0 = 35

        halt                ; Stop execution
"#;

/// Title of the example "Compare and Branch".
pub const EXAMPLE_COMPARE_BRANCH_TITLE: &'static str = "Compare and Branch";

/// Summary of the example "Compare and Branch".
pub const EXAMPLE_COMPARE_BRANCH_SUMMARY: &'static str = "Compare values and branch based on results.";

/// Source of the example "Compare and Branch".
pub const EXAMPLE_COMPARE_BRANCH_SOURCE: &'static str = r#"; Example 2: Compare and Branch
; Compare two values and branch if less than

        lc      r0,5        ; r0 = 5
        lc      r1,10       ; r1 = 10

        cls     r0,r1       ; C = (r0 < r1) = true
        brt     less        ; Branch if true

        lc      r2,0        ; Not taken
        bra     done

less:   lc      r2,1        ; r2 = 1 (5 < 10)

done:   halt
"#;

/// Title of the example "Stack Frame".
pub const EXAMPLE_STACK_FRAME_TITLE: &'static str = "Stack Frame";

/// Summary of the example "Stack Frame".
pub const EXAMPLE_STACK_FRAME_SUMMARY: &'static str = "Set up a stack frame like a C function.";

/// Source of the example "Stack Frame".
pub const EXAMPLE_STACK_FRAME_SOURCE: &'static str = r#"; Example 3: Stack Frame
; Simulate a C function prologue/epilogue

        ; Function entry
        push    fp          ; Save frame pointer
        push    r2          ; Save callee-saved reg
        push    r1          ; Save return address
        mov     fp,sp       ; Set up frame pointer

        ; Function body
        lc      r0,42       ; Return value

        ; Function exit
        mov     sp,fp       ; Restore stack
        pop     r1          ; Restore r1
        pop     r2          ; Restore r2
        pop     fp          ; Restore fp

        halt                ; (would be jmp (r1))
"#;

/// Title of the example "Loop Counter".
pub const EXAMPLE_LOOP_COUNTER_TITLE: &'static str = "Loop Counter";

/// Summary of the example "Loop Counter".
pub const EXAMPLE_LOOP_COUNTER_SUMMARY: &'static str = "Count from 0 to 5 using a loop.";

/// Source of the example "Loop Counter".
pub const EXAMPLE_LOOP_COUNTER_SOURCE: &'static str = r#"; Example 4: Loop Counter
; Count from 0 to 5

        lc      r0,0        ; r0 = counter = 0
        lc      r1,5        ; r1 = limit = 5

loop:   add     r0,1        ; counter++
        cls     r0,r1       ; C = (counter < limit)
        brt     loop        ; Continue if less

        ; r0 = 5 when done
        halt
"#;

/// Title of the example "Memory Access".
pub const EXAMPLE_MEMORY_ACCESS_TITLE: &'static str = "Memory Access";

/// Summary of the example "Memory Access".
pub const EXAMPLE_MEMORY_ACCESS_SUMMARY: &'static str = "Store and load values from memory.";

/// Source of the example "Memory Access".
pub const EXAMPLE_MEMORY_ACCESS_SOURCE: &'static str = r#"; Example 5: Memory Access
; Store values to memory and read them back

        lc      r0,100      ; Value to store
        la      r1,0x1000   ; Load 24-bit address (la, not lc!)

        ; Store byte
        sb      r0,0(r1)    ; mem[0x1000] = 100

        ; Load it back
        lb      r2,0(r1)    ; r2 = mem[0x1000]

        ; r2 should be 100
        halt
"#;

/// Title of the example "Condition Flag".
pub const EXAMPLE_CONDITION_FLAG_TITLE: &'static str = "Condition Flag";

/// Summary of the example "Condition Flag".
pub const EXAMPLE_CONDITION_FLAG_SUMMARY: &'static str = "COR24's unique mov ra,c to capture comparison result.";

/// Source of the example "Condition Flag".
pub const EXAMPLE_CONDITION_FLAG_SOURCE: &'static str = r#"; Example 6: Condition Flag
; COR24 can move the C flag directly to a register
; This is useful for branchless comparisons

        lc      r0,5        ; r0 = 5
        lc      r1,10       ; r1 = 10

        cls     r0,r1       ; C = (5 < 10) = 1
        mov     r2,c        ; r2 = C = 1 (no branch needed!)

        lc      r0,20       ; r0 = 20
        cls     r0,r1       ; C = (20 < 10) = 0
        mov     r0,c        ; r0 = C = 0

        halt
"#;

/// Title of the example "Sign Extension".
pub const EXAMPLE_SIGN_EXTENSION_TITLE: &'static str = "Sign Extension";

/// Summary of the example "Sign Extension".
pub const EXAMPLE_SIGN_EXTENSION_SUMMARY: &'static str = "Demonstrate sxt/zxt for byte-to-word conversion.";

/// Source of the example "Sign Extension".
pub const EXAMPLE_SIGN_EXTENSION_SOURCE: &'static str = r#"; Example 7: Sign Extension
; COR24 is 24-bit but loads 8-bit values
; sxt/zxt extend bytes to full 24-bit words

        lc      r0,127      ; r0 = 0x00007F (positive)
        lc      r1,-1       ; r1 = 0xFFFFFF (sign extended)

        lcu     r2,255      ; r2 = 0x0000FF (unsigned)

        ; Store byte and reload with different extension
        la      r0,0x100
        lc      r1,0x80     ; -128 signed, 128 unsigned
        sb      r1,0(r0)    ; Store byte

        lb      r1,0(r0)    ; r1 = 0xFFFF80 (sign extended)
        lbu     r2,0(r0)    ; r2 = 0x000080 (zero extended)

        halt
"#;

/// Title of the example "24-bit Arithmetic".
pub const EXAMPLE_ARITHMETIC_24_TITLE: &'static str = "24-bit Arithmetic";

/// Summary of the example "24-bit Arithmetic".
pub const EXAMPLE_ARITHMETIC_24_SUMMARY: &'static str = "Working with COR24's 24-bit word size.";

/// Source of the example "24-bit Arithmetic".
pub const EXAMPLE_ARITHMETIC_24_SOURCE: &'static str = r#"; Example 8: 24-bit Arithmetic
; COR24 uses 24-bit (3-byte) words
; Max unsigned: 0xFFFFFF = 16,777,215
; Max signed: 0x7FFFFF = 8,388,607

        la      r0,0x7FFFFF ; Max positive signed
        lc      r1,1
        add     r0,r1       ; Overflow to 0x800000 (negative)

        la      r0,0xFFFFFF ; Max unsigned
        add     r0,r1       ; Wraps to 0x000000

        ; 24-bit multiplication
        la      r0,0x100    ; 256
        lc      r1,16
        mul     r0,r1       ; r0 = 4096 (0x1000)

        halt
"#;

/// What a challenge expects of the final machine state: each listed register holds the
/// listed value.
pub struct RegisterCheck {
    /// Pairs of register number and expected 24-bit value.
    pub expected: Vec<(u8, u32)>,
}

/// Every listed register holds its listed value in `s`.
pub open spec fn checks_hold(expected: Seq<(u8, u32)>, s: CpuView) -> bool {
    forall|i: int| 0 <= i < expected.len() ==> reg_value(s.regs, #[trigger] expected[i].0) == expected[i].1
}

impl RegisterCheck {
    /// Whether every listed register holds its expected value.
    pub fn check(&self, cpu: &CpuState) -> (r: bool)
        ensures
            r == checks_hold(self.expected@, cpu@),
    {
        let mut i: usize = 0;
        while i < self.expected.len()
            invariant
                i <= self.expected@.len(),
                forall|j: int| 0 <= j < i ==> reg_value(cpu@.regs, #[trigger] self.expected@[j].0)
                    == self.expected@[j].1,
            decreases self.expected@.len() - i,
        {
            let (reg, value) = self.expected[i];
            if cpu.get_reg(reg) != value {
                return false;
            }
            i += 1;
        }
        true
    }
}

/// A challenge for the user to complete.
pub struct Challenge {
    pub id: usize,
    pub name: String,
    pub description: String,
    pub initial_code: String,
    pub hint: String,
    /// The register values a solution must leave behind.
    pub validator: RegisterCheck,
}

/// The register values the challenge with the given id expects, if there is one.
pub open spec fn challenge_checks(id: usize) -> Option<Seq<(u8, u32)>> {
    if id == 1 {
        Some(seq![(0u8, 15u32)])
    } else if id == 2 {
        Some(seq![(0u8, 1u32)])
    } else if id == 3 {
        Some(seq![(0u8, 3u32), (1u8, 2u32), (2u8, 1u32)])
    } else if id == 4 {
        Some(seq![(0u8, 12u32)])
    } else if id == 5 {
        Some(seq![(0u8, 0xFFFFCEu32)])
    } else {
        None
    }
}

/// Title, task, starting code and hint of the `i`-th challenge.
pub open spec fn challenge_text(i: int) -> (Seq<char>, Seq<char>, Seq<char>, Seq<char>) {
    if i == 0 {
        (LOAD_AND_ADD_NAME@, LOAD_AND_ADD_DESCRIPTION@, LOAD_AND_ADD_CODE@, LOAD_AND_ADD_HINT@)
    } else if i == 1 {
        (
            COMPARE_AND_BRANCH_NAME@,
            COMPARE_AND_BRANCH_DESCRIPTION@,
            COMPARE_AND_BRANCH_CODE@,
            COMPARE_AND_BRANCH_HINT@,
        )
    } else if i == 2 {
        (
            STACK_OPERATIONS_NAME@,
            STACK_OPERATIONS_DESCRIPTION@,
            STACK_OPERATIONS_CODE@,
            STACK_OPERATIONS_HINT@,
        )
    } else if i == 3 {
        (MAX_OF_TWO_NAME@, MAX_OF_TWO_DESCRIPTION@, MAX_OF_TWO_CODE@, MAX_OF_TWO_HINT@)
    } else {
        (
            BYTE_SIGN_EXTENSION_NAME@,
            BYTE_SIGN_EXTENSION_DESCRIPTION@,
            BYTE_SIGN_EXTENSION_CODE@,
            BYTE_SIGN_EXTENSION_HINT@,
        )
    }
}

/// A challenge from its texts and expected register values.
fn make_challenge(
    id: usize,
    name: &str,
    description: &str,
    initial_code: &str,
    hint: &str,
    expected: Vec<(u8, u32)>,
) -> (r: Challenge)
    ensures
        r.id == id,
        r.name@ == name@,
        r.description@ == description@,
        r.initial_code@ == initial_code@,
        r.hint@ == hint@,
        r.validator.expected@ == expected@,
{
    Challenge {
        id,
        name: name.to_owned(),
        description: description.to_owned(),
        initial_code: initial_code.to_owned(),
        hint: hint.to_owned(),
        validator: RegisterCheck { expected },
    }
}

/// Get all available challenges: ids 1 to 5, in order.
pub fn get_challenges() -> (r: Vec<Challenge>)
    ensures
        r@.len() == 5,
        forall|i: int|
            0 <= i < 5 ==> {
                &&& #[trigger] r@[i].id == i + 1
                &&& challenge_checks(r@[i].id) == Some(r@[i].validator.expected@)
                &&& (r@[i].name@, r@[i].description@, r@[i].initial_code@, r@[i].hint@)
                    == challenge_text(i)
            },
{
    let mut v: Vec<Challenge> = Vec::new();
    let e1 = vec![(0u8, 15u32)];
    assert(e1@ =~= seq![(0u8, 15u32)]);
    v.push(make_challenge(1, LOAD_AND_ADD_NAME, LOAD_AND_ADD_DESCRIPTION, LOAD_AND_ADD_CODE, LOAD_AND_ADD_HINT, e1));
    let e2 = vec![(0u8, 1u32)];
    assert(e2@ =~= seq![(0u8, 1u32)]);
    v.push(make_challenge(2, COMPARE_AND_BRANCH_NAME, COMPARE_AND_BRANCH_DESCRIPTION, COMPARE_AND_BRANCH_CODE, COMPARE_AND_BRANCH_HINT, e2));
    let e3 = vec![(0u8, 3u32), (1u8, 2u32), (2u8, 1u32)];
    assert(e3@ =~= seq![(0u8, 3u32), (1u8, 2u32), (2u8, 1u32)]);
    v.push(make_challenge(3, STACK_OPERATIONS_NAME, STACK_OPERATIONS_DESCRIPTION, STACK_OPERATIONS_CODE, STACK_OPERATIONS_HINT, e3));
    let e4 = vec![(0u8, 12u32)];
    assert(e4@ =~= seq![(0u8, 12u32)]);
    v.push(make_challenge(4, MAX_OF_TWO_NAME, MAX_OF_TWO_DESCRIPTION, MAX_OF_TWO_CODE, MAX_OF_TWO_HINT, e4));
    let e5 = vec![(0u8, 0xFFFFCEu32)];
    assert(e5@ =~= seq![(0u8, 0xFFFFCEu32)]);
    v.push(make_challenge(5, BYTE_SIGN_EXTENSION_NAME, BYTE_SIGN_EXTENSION_DESCRIPTION, BYTE_SIGN_EXTENSION_CODE, BYTE_SIGN_EXTENSION_HINT, e5));
    v
}

/// Title, summary and source of the `i`-th example program.
pub open spec fn example_text(i: int) -> (Seq<char>, Seq<char>, Seq<char>) {
    if i == 0 {
        (EXAMPLE_BASIC_ARITHMETIC_TITLE@, EXAMPLE_BASIC_ARITHMETIC_SUMMARY@, EXAMPLE_BASIC_ARITHMETIC_SOURCE@)
    } else if i == 1 {
        (EXAMPLE_COMPARE_BRANCH_TITLE@, EXAMPLE_COMPARE_BRANCH_SUMMARY@, EXAMPLE_COMPARE_BRANCH_SOURCE@)
    } else if i == 2 {
        (EXAMPLE_STACK_FRAME_TITLE@, EXAMPLE_STACK_FRAME_SUMMARY@, EXAMPLE_STACK_FRAME_SOURCE@)
    } else if i == 3 {
        (EXAMPLE_LOOP_COUNTER_TITLE@, EXAMPLE_LOOP_COUNTER_SUMMARY@, EXAMPLE_LOOP_COUNTER_SOURCE@)
    } else if i == 4 {
        (EXAMPLE_MEMORY_ACCESS_TITLE@, EXAMPLE_MEMORY_ACCESS_SUMMARY@, EXAMPLE_MEMORY_ACCESS_SOURCE@)
    } else if i == 5 {
        (EXAMPLE_CONDITION_FLAG_TITLE@, EXAMPLE_CONDITION_FLAG_SUMMARY@, EXAMPLE_CONDITION_FLAG_SOURCE@)
    } else if i == 6 {
        (EXAMPLE_SIGN_EXTENSION_TITLE@, EXAMPLE_SIGN_EXTENSION_SUMMARY@, EXAMPLE_SIGN_EXTENSION_SOURCE@)
    } else {
        (EXAMPLE_ARITHMETIC_24_TITLE@, EXAMPLE_ARITHMETIC_24_SUMMARY@, EXAMPLE_ARITHMETIC_24_SOURCE@)
    }
}

/// Get example programs: eight (title, summary, source) triples, in order.
pub fn get_examples() -> (r: Vec<(String, String, String)>)
    ensures
        r@.len() == 8,
        forall|i: int| 0 <= i < 8 ==> (#[trigger] r@[i].0@, r@[i].1@, r@[i].2@) == example_text(i),
{
    let mut v: Vec<(String, String, String)> = Vec::new();
    v.push((EXAMPLE_BASIC_ARITHMETIC_TITLE.to_owned(), EXAMPLE_BASIC_ARITHMETIC_SUMMARY.to_owned(), EXAMPLE_BASIC_ARITHMETIC_SOURCE.to_owned()));
    v.push((EXAMPLE_COMPARE_BRANCH_TITLE.to_owned(), EXAMPLE_COMPARE_BRANCH_SUMMARY.to_owned(), EXAMPLE_COMPARE_BRANCH_SOURCE.to_owned()));
    v.push((EXAMPLE_STACK_FRAME_TITLE.to_owned(), EXAMPLE_STACK_FRAME_SUMMARY.to_owned(), EXAMPLE_STACK_FRAME_SOURCE.to_owned()));
    v.push((EXAMPLE_LOOP_COUNTER_TITLE.to_owned(), EXAMPLE_LOOP_COUNTER_SUMMARY.to_owned(), EXAMPLE_LOOP_COUNTER_SOURCE.to_owned()));
    v.push((EXAMPLE_MEMORY_ACCESS_TITLE.to_owned(), EXAMPLE_MEMORY_ACCESS_SUMMARY.to_owned(), EXAMPLE_MEMORY_ACCESS_SOURCE.to_owned()));
    v.push((EXAMPLE_CONDITION_FLAG_TITLE.to_owned(), EXAMPLE_CONDITION_FLAG_SUMMARY.to_owned(), EXAMPLE_CONDITION_FLAG_SOURCE.to_owned()));
    v.push((EXAMPLE_SIGN_EXTENSION_TITLE.to_owned(), EXAMPLE_SIGN_EXTENSION_SUMMARY.to_owned(), EXAMPLE_SIGN_EXTENSION_SOURCE.to_owned()));
    v.push((EXAMPLE_ARITHMETIC_24_TITLE.to_owned(), EXAMPLE_ARITHMETIC_24_SUMMARY.to_owned(), EXAMPLE_ARITHMETIC_24_SOURCE.to_owned()));
    v
}

/// The cycle budget of one run.
pub const RUN_CYCLES: u64 = 100000;

/// A fresh machine with `bytes` loaded from address 0.
pub open spec fn program_state(bytes: Seq<u8>) -> CpuView {
    initial_view().with_mem(store_bytes(initial_view().mem, 0, bytes, bytes.len()))
}

/// The message for a run that stopped on an invalid instruction or a memory error.
pub open spec fn run_error_text(r: ExecuteResult) -> Seq<char> {
    match r {
        ExecuteResult::InvalidInstruction(b) => "Invalid instruction: 0x"@ + hex_upper(b as nat, 2),
        ExecuteResult::MemoryError(a) => "Memory error at address: 0x"@ + hex_upper(a as nat, 6),
        _ => Seq::empty(),
    }
}

/// The message for a run result: `Executed` and `Halted` are fine, the others are errors.
pub fn run_error_message(r: ExecuteResult) -> (m: Option<String>)
    ensures
        m matches Some(s) ==> s@ == run_error_text(r),
        m is None <==> (r is Executed || r is Halted),
{
    match r {
        ExecuteResult::Executed | ExecuteResult::Halted => None,
        ExecuteResult::InvalidInstruction(byte) => {
            let mut msg: Vec<char> = Vec::new();
            push_str(&mut msg, "Invalid instruction: 0x");
            push_hex(&mut msg, byte as u64, 2);
            Some(string_of(&msg))
        },
        ExecuteResult::MemoryError(addr) => {
            let mut msg: Vec<char> = Vec::new();
            push_str(&mut msg, "Memory error at address: 0x");
            push_hex(&mut msg, addr as u64, 6);
            Some(string_of(&msg))
        },
    }
}

/// The outcome of checking `source` against challenge `id`: the challenge must exist, the
/// source must assemble without errors, and the program, run from a fresh machine for at
/// most `RUN_CYCLES` cycles, must stop or run out of cycles without an error; the answer is
/// then whether the final state passes the challenge's check.
pub open spec fn validation(id: usize, source: Seq<char>) -> Result<bool, Seq<char>> {
    match challenge_checks(id) {
        None => Err("Challenge "@ + decimal(id as nat) + " not found"@),
        Some(checks) => {
            let m = assembly(source);
            if m.errors.len() > 0 {
                Err(join(m.errors, seq!['\n']))
            } else {
                let (t, r) = run_spec(program_state(m.output), RUN_CYCLES as nat);
                if r is Executed || r is Halted {
                    Ok(checks_hold(checks, t))
                } else {
                    Err(run_error_text(r))
                }
            }
        },
    }
}

/// A result with a string error as one with a character-sequence error.
pub open spec fn result_view(r: Result<bool, String>) -> Result<bool, Seq<char>> {
    match r {
        Ok(b) => Ok(b),
        Err(s) => Err(s@),
    }
}

/// Check a solution for a challenge.
pub fn validate_challenge(challenge_id: usize, source: &str) -> (r: Result<bool, String>)
    requires
        assembly_fits(source@),
    ensures
        result_view(r) == validation(challenge_id, source@),
{
    let challenges = get_challenges();
    let mut k: usize = 0;
    while k < challenges.len() && challenges[k].id != challenge_id
        invariant
            k <= challenges@.len(),
            challenges@.len() == 5,
            forall|i: int| 0 <= i < 5 ==> #[trigger] challenges@[i].id == i + 1
                && challenge_checks(challenges@[i].id) == Some(challenges@[i].validator.expected@),
            forall|i: int| 0 <= i < k ==> challenges@[i].id != challenge_id,
        decreases challenges@.len() - k,
    {
        k += 1;
    }
    if k >= challenges.len() {
        let mut msg: Vec<char> = Vec::new();
        push_str(&mut msg, "Challenge ");
        push_decimal(&mut msg, challenge_id as u128);
        push_str(&mut msg, " not found");
        assert(challenge_checks(challenge_id) is None) by {
            if 1 <= challenge_id <= 5 {
                assert(challenges@[challenge_id - 1].id == challenge_id);
            }
        }
        return Err(string_of(&msg));
    }
    let mut assembler = Assembler::new();
    let result = assembler.assemble(source);
    if result.errors.len() > 0 {
        let mut joined: Vec<char> = Vec::new();
        let mut i: usize = 0;
        while i < result.errors.len()
            invariant
                i <= result.errors@.len(),
                joined@ == join(string_views(result.errors@).take(i as int), seq!['\n']),
            decreases result.errors@.len() - i,
        {
            if i > 0 {
                joined.push('\n');
            }
            let piece = chars_of(result.errors[i].as_str());
            push_chars(&mut joined, &piece);
            proof {
                let t = string_views(result.errors@).take(i + 1);
                assert(t.drop_last() =~= string_views(result.errors@).take(i as int));
            }
            i += 1;
        }
        assert(string_views(result.errors@).take(result.errors@.len() as int) =~= string_views(result.errors@));
        return Err(string_of(&joined));
    }
    let mut cpu = CpuState::new();
    cpu.load_program(0, &result.bytes);
    proof {
        lemma_run_counts_fit(cpu@, RUN_CYCLES as nat);
    }
    let executor = Executor::new();
    let outcome = executor.run(&mut cpu, RUN_CYCLES);
    match run_error_message(outcome) {
        None => Ok(challenges[k].validator.check(&cpu)),
        Some(msg) => Err(msg),
    }
}

/// Check a solution for a challenge, or `None` where assembling it would compute an address
/// or branch offset out of its integer range.
pub fn try_validate_challenge(challenge_id: usize, source: &str) -> (r: Option<Result<bool, String>>)
    ensures
        r is Some <==> assembly_fits(source@),
        r matches Some(v) ==> result_view(v) == validation(challenge_id, source@),
{
    let mut assembler = Assembler::new();
    if assembler.try_assemble(source).is_some() {
        Some(validate_challenge(challenge_id, source))
    } else {
        None
    }
}

/// What each challenge's task asks the registers to hold when the program has run:
/// 1: r0 = 10 + 5; 2: r0 = 1 if 5 < 10 (signed), else 0; 3: after pushing 1, 2, 3 and
/// popping into r0, r1, r2 (last in, first out), r0 = 3, r1 = 2, r2 = 1; 4: r0 = the larger
/// of 7 and 12; 5: r0 = the byte 0xCE (-50) sign-extended to 24 bits.
pub open spec fn challenge_goal(id: usize, s: CpuView) -> bool {
    let r0 = reg_value(s.regs, 0) as int;
    let r1 = reg_value(s.regs, 1) as int;
    let r2 = reg_value(s.regs, 2) as int;
    if id == 1 {
        r0 == 10 + 5
    } else if id == 2 {
        r0 == (if 5int < 10int { 1int } else { 0int })
    } else if id == 3 {
        let pushed = seq![1int, 2int, 3int];
        r0 == pushed[2] && r1 == pushed[1] && r2 == pushed[0]
    } else if id == 4 {
        r0 == (if 7int > 12int { 7int } else { 12int })
    } else if id == 5 {
        r0 == 0xCE - 256 + 0x1000000
    } else {
        false
    }
}

/// A challenge's register check is its task: for the challenges 1 to 5 the checks hold of a
/// machine exactly when the task's goal does, and there is no other challenge.
pub proof fn lemma_checks_are_goals(id: usize, s: CpuView)
    ensures
        (1 <= id <= 5) <==> challenge_checks(id) is Some,
        challenge_checks(id) matches Some(c) ==> (checks_hold(c, s) <==> challenge_goal(id, s)),
{
    if 1 <= id <= 5 {
        let c = challenge_checks(id).unwrap();
        if checks_hold(c, s) {
            assert(reg_value(s.regs, c[0].0) == c[0].1);
            if id == 3 {
                assert(reg_value(s.regs, c[1].0) == c[1].1);
                assert(reg_value(s.regs, c[2].0) == c[2].1);
            }
        }
        if challenge_goal(id, s) {
            assert forall|i: int| 0 <= i < c.len() implies reg_value(s.regs, #[trigger] c[i].0) == c[i].1 by {
                if id == 3 {
                    assert(i == 0 || i == 1 || i == 2);
                }
            }
        }
    }
}

/// A solution that assembles and runs without an error passes its challenge exactly when the
/// machine it leaves meets the challenge's goal.
pub proof fn lemma_validation_meets_goal(id: usize, source: Seq<char>)
    ensures
        validation(id, source) matches Ok(b) ==> (b <==> challenge_goal(
            id,
            run_spec(program_state(assembly(source).output), RUN_CYCLES as nat).0,
        )),
        !(1 <= id <= 5) ==> validation(id, source) is Err,
{
    lemma_checks_are_goals(id, run_spec(program_state(assembly(source).output), RUN_CYCLES as nat).0);
}

} // verus!
