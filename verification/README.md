# cor24

An emulator and assembler for COR24, a C-oriented 24-bit RISC processor, with every
function of the library proved correct against a mathematical model with Verus.

## Layout

- `src/cpu/`: the instruction set (`instruction`), the decode ROM (`decode_rom`), the
  inverse encoding (`encode`), the machine state (`state`) and the executor (`executor`).
  `step_spec` and `run_spec` say what one step and a bounded run do.
- `src/assembler/`: the assembler. `model` states an assembly run as a fold over the lines
  and the forward references; `Assembler::assemble` is proved to return exactly its output,
  listing, errors and symbol table.
- `src/challenge.rs`: the challenges, the example programs and the checking of a solution.
- `src/session.rs`: an emulator session (assemble and load, step, run, inspect), as a web
  front end drives it.
- `src/runner/`: the LED demo board and its compact two-pass assembler (both using the
  decode ROM's encoding), and the command-line
  options of the demo runner.
- `src/text.rs`: string handling on character sequences (trimming, splitting, number parsing
  and formatting) with contracts over `Seq<char>`.
- `app/`: the command-line demo runner (`main.rs`) and the JavaScript bindings (`wasm.rs`).
- `tests/`: the test suite.

The library verifies with Verus; the tests run with `cargo test`.
