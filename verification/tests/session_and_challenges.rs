//! The emulator session and the challenges.

use cor24::challenge::{try_validate_challenge, validate_challenge};
use cor24::session::{get_challenge_count, WasmCpu};
use cor24::{get_challenges, get_examples, Assembler, CpuState, ExecuteResult, Executor};

#[test]
fn session_starts_at_reset_state() {
    let cpu = WasmCpu::new();
    assert_eq!(cpu.pc(), 0);
    assert_eq!(cpu.get_registers(), vec![0, 0, 0, 0, 0xFC00, 0, 0, 0]);
    assert!(!cpu.is_halted());
    assert!(cpu.get_assembled_lines().is_empty());
}

#[test]
fn session_assembles_lists_and_steps() {
    let mut cpu = WasmCpu::new();
    assert_eq!(cpu.assemble("lc r0,42\nlc r1,1"), Ok(()));
    assert_eq!(
        cpu.get_assembled_lines(),
        vec![format!("0000: {:12} lc r0,42", "44 2A"), format!("0002: {:12} lc r1,1", "45 01")]
    );
    assert_eq!(cpu.get_memory_slice(0, 3), vec![0x44, 0x2A, 0x45]);
    assert_eq!(cpu.step(), Ok(true));
    assert_eq!(cpu.read_register(0), 42);
    assert_eq!(cpu.get_current_instruction(), "0002: 45  lc");
    assert_eq!(cpu.instruction_count(), 1);
}

#[test]
fn session_label_line_listing() {
    let mut cpu = WasmCpu::new();
    assert_eq!(cpu.assemble("top:"), Ok(()));
    assert_eq!(cpu.get_assembled_lines(), vec!["       top:".to_string()]);
}

#[test]
fn session_reports_assembly_errors() {
    let mut cpu = WasmCpu::new();
    assert_eq!(
        cpu.assemble("foo\npush r9"),
        Err("Line 1: Unknown instruction 'foo'\nLine 2: Invalid register 'r9'".to_string())
    );
    assert!(cpu.last_result().is_none());
}

#[test]
fn session_halts_on_zero_at_address_zero() {
    let mut cpu = WasmCpu::new();
    assert_eq!(cpu.step(), Ok(false));
    assert!(cpu.is_halted());
    assert_eq!(cpu.get_current_instruction(), "HALTED");
}

#[test]
fn session_reports_invalid_instruction() {
    let mut cpu = WasmCpu::new();
    assert_eq!(cpu.assemble(".byte 0xC8"), Ok(()));
    assert_eq!(cpu.step(), Err("Invalid instruction: 0xC8".to_string()));
}

#[test]
fn session_run_spends_the_cycle_budget() {
    let mut cpu = WasmCpu::new();
    assert_eq!(cpu.assemble("lc r0,7\nloop: bra loop"), Ok(()));
    assert_eq!(cpu.run(), Ok(()));
    assert_eq!(cpu.read_register(0), 7);
    assert_eq!(cpu.cycle_count(), 100000);
    assert!(cpu.should_stop_for_led());
    assert_eq!(cpu.get_cycle_count(), 100000);
}

#[test]
fn challenges_are_listed_in_order() {
    let challenges = get_challenges();
    assert_eq!(challenges.len(), 5);
    assert_eq!(get_challenge_count(), 5);
    assert_eq!(challenges[0].name, "Load and Add");
    assert_eq!(challenges[2].validator.expected, vec![(0, 3), (1, 2), (2, 1)]);
    assert_eq!(challenges[4].id, 5);
    assert_eq!(challenges[4].validator.expected, vec![(0, 0xFFFFCE)]);
    let examples = get_examples();
    assert_eq!(examples.len(), 8);
    assert_eq!(examples[7].0, "24-bit Arithmetic");
}

#[test]
fn challenge_passes_and_fails() {
    assert_eq!(validate_challenge(1, "lc r0,15\nloop: bra loop"), Ok(true));
    assert_eq!(validate_challenge(1, "lc r0,14\nloop: bra loop"), Ok(false));
    let stack = "lc r0,1\npush r0\nlc r0,2\npush r0\nlc r0,3\npush r0\npop r0\npop r1\npop r2\nloop: bra loop";
    assert_eq!(validate_challenge(3, stack), Ok(true));
}

#[test]
fn challenge_errors() {
    assert_eq!(validate_challenge(9, "nop"), Err("Challenge 9 not found".to_string()));
    assert_eq!(validate_challenge(1, "bogus"), Err("Line 1: Unknown instruction 'bogus'".to_string()));
    assert_eq!(validate_challenge(2, ".byte 0xC8"), Err("Invalid instruction: 0xC8".to_string()));
    assert_eq!(try_validate_challenge(1, "lc r0,15\nloop: bra loop"), Some(Ok(true)));
}

#[test]
fn session_peripherals_start_off_and_respond() {
    let mut cpu = WasmCpu::new();
    assert_eq!(cpu.get_leds(), 0);
    assert_eq!(cpu.get_led_value(), 0);
    assert_eq!(cpu.get_switches(), 0);
    assert_eq!(cpu.get_uart_output(), "");
    cpu.set_switches(0b1010_0000);
    assert_eq!(cpu.get_switches(), 0b1010_0000);
    cpu.toggle_switch(0);
    cpu.toggle_switch(7);
    assert_eq!(cpu.get_switches(), 0b0010_0001);
    cpu.toggle_switch(8);
    assert_eq!(cpu.get_switches(), 0b0010_0001);
    cpu.uart_send_char('A');
    cpu.clear_uart_output();
    assert_eq!(cpu.get_uart_output(), "");
    cpu.hard_reset();
    assert_eq!(cpu.get_switches(), 0b0010_0001);
}

#[test]
fn halt_stops_the_first_example() {
    let examples = get_examples();
    let mut assembler = Assembler::new();
    let result = assembler.assemble(&examples[0].2);
    assert!(result.errors.is_empty());
    assert_eq!(&result.bytes[result.bytes.len() - 4..], &[0xC7, 0x00, 0x00, 0x00]);
    let mut cpu = CpuState::new();
    cpu.load_program(0, &result.bytes);
    let exec = Executor::new();
    assert_eq!(exec.run(&mut cpu, 100000), ExecuteResult::Halted);
    assert!(cpu.halted);
    assert_eq!(cpu.get_reg(0), 35);
    assert_eq!(cpu.get_reg(1), 20);
    assert_eq!(cpu.get_reg(2), 5);
}

#[test]
fn challenge_hint_solution_with_halt_passes() {
    assert_eq!(validate_challenge(1, "lc r0,10\nadd r0,5\nhalt"), Ok(true));
    assert_eq!(validate_challenge(1, "lc r0,10\nadd r0,4\nhalt"), Ok(false));
}

#[test]
fn session_step_reports_halt() {
    let mut cpu = WasmCpu::new();
    assert_eq!(cpu.assemble("lc r0,1\nhalt"), Ok(()));
    assert_eq!(cpu.step(), Ok(true));
    assert_eq!(cpu.step(), Ok(false));
    assert!(cpu.is_halted());
    assert_eq!(cpu.pc(), 2);
    assert_eq!(cpu.run(), Ok(()));
}
