//! The LED demo runner: options, the board and its assembler.

use cor24::runner::assembler::Assembler;
use cor24::runner::machine::{batch_size, led_display, Cpu};
use cor24::runner::{parse_args, DEMO_SOURCE};

fn args(list: &[&str]) -> Vec<String> {
    list.iter().map(|s| s.to_string()).collect()
}

#[test]
fn options_demo_with_speed_and_time() {
    let o = parse_args(&args(&["cor24-run", "--demo", "--speed", "5000", "-t", "3"]));
    assert_eq!(o.command, "demo");
    assert_eq!(o.speed, 5000);
    assert_eq!(o.time_text, Some("3".to_string()));
    assert_eq!(o.file, None);
}

#[test]
fn options_run_and_positional_file() {
    let o = parse_args(&args(&["cor24-run", "--run", "a.s"]));
    assert_eq!(o.command, "run");
    assert_eq!(o.file, Some("a.s".to_string()));
    let p = parse_args(&args(&["cor24-run", "x.s", "--speed", "abc"]));
    assert_eq!(p.command, "");
    assert_eq!(p.file, Some("x.s".to_string()));
    assert_eq!(p.speed, 100_000);
}

#[test]
fn led_line_and_batch_sizes() {
    assert_eq!(
        led_display(0x05),
        "\rLEDs: ○○○○○\x1b[91m●\x1b[0m○\x1b[91m●\x1b[0m  (0x05)  ".to_string()
    );
    assert_eq!(batch_size(0), 10000);
    assert_eq!(batch_size(50), 1);
    assert_eq!(batch_size(100_000), 1000);
}

#[test]
fn demo_source_assembles() {
    let mut assembler = Assembler::new();
    assert_eq!(assembler.try_assemble(DEMO_SOURCE), Some(Ok(())));
    let out = assembler.output().to_vec();
    assert_eq!(out.len(), 34);
    assert_eq!(&out[0..12], &[0x80, 0x65, 0x0C, 0xFD, 0x2A, 0x00, 0x00, 0xFF, 0x44, 0x00, 0xA6, 0x00]);
    assert_eq!(&out[12..20], &[0x4D, 0x00, 0x81, 0x00, 0x2B, 0x98, 0x3A, 0x00]);
    assert_eq!(&out[20..25], &[0x44, 0x01, 0xA0, 0x15, 0xFB]);
    assert_eq!(&out[25..32], &[0x4D, 0x00, 0x46, 0x01, 0x02, 0xA6, 0x00]);
    assert_eq!(&out[32..34], &[0x13, 0xEA]);
    let listing = assembler.listing();
    assert_eq!(listing[0], " ".repeat(20));
    assert!(listing.iter().any(|l| l.starts_with("000C:               main_loop:")));
    assert!(listing.iter().any(|l| *l == format!("0000: {:14}         push    fp", "80")));
}

#[test]
fn runner_encodes_with_the_isa_bytes() {
    let cases: [(&str, &[u8]); 9] = [
        ("push fp", &[0x80]),
        ("pop r1", &[0x7A]),
        ("mov fp, sp", &[0x65]),
        ("mov sp, fp", &[0x69]),
        ("lw r0, 4(fp)", &[0x4D, 0x04]),
        ("la r0, 0x1234", &[0x29, 0x34, 0x12, 0x00]),
        ("lc r0, 42", &[0x44, 0x2A]),
        ("add r0, r1", &[0x01]),
        ("sb r1, 2(r0)", &[0x84, 0x02]),
    ];
    for (line, bytes) in cases.iter() {
        let mut a = Assembler::new();
        assert_eq!(a.try_assemble(line), Some(Ok(())));
        assert_eq!(a.output(), *bytes);
    }
}

#[test]
fn runner_label_after_register_add() {
    let mut a = Assembler::new();
    assert_eq!(a.try_assemble("add r0,r1\nx:\nbra x"), Some(Ok(())));
    assert_eq!(a.output(), &[0x01, 0x13, 0xFE]);
}

#[test]
fn runner_assembler_errors() {
    let mut a = Assembler::new();
    assert_eq!(a.try_assemble("foo"), Some(Err("Unknown: foo".to_string())));
    let mut b = Assembler::new();
    assert_eq!(b.try_assemble("bra nowhere"), Some(Err("Undefined: nowhere".to_string())));
    let mut c = Assembler::new();
    assert_eq!(c.try_assemble("sub r0,r3"), Some(Err("Unsupported sub encoding: r0,r3".to_string())));
    let mut m = Assembler::new();
    assert_eq!(m.try_assemble("mov r3,r0"), Some(Err("Unsupported mov encoding: r3,r0".to_string())));
    let mut d = Assembler::new();
    let expected = "xyz".parse::<i32>().unwrap_err().to_string();
    assert_eq!(d.try_assemble("lc r0,xyz"), Some(Err(expected)));
    let mut e = Assembler::new();
    assert_eq!(e.try_assemble("la r0"), None);
    assert!(e.output().is_empty());
}

#[test]
fn board_runs_what_the_assembler_emits() {
    let mut a = Assembler::new();
    let source = "lc r0,7\nlc r1,5\nadd r1,r0\nmov r2,r1\npush r2\npop r0\nceq r0,r1\nmov r2,c\nhalt";
    assert_eq!(a.try_assemble(source), Some(Ok(())));
    let mut cpu = Cpu::new();
    cpu.load_program(a.output());
    let mut steps = 0;
    while cpu.step().running {
        steps += 1;
    }
    assert_eq!(steps, 8);
    assert!(cpu.halted);
    assert_eq!(cpu.get_reg(1), 12);
    assert_eq!(cpu.get_reg(0), 12);
    assert_eq!(cpu.get_reg(2), 1);
    assert_eq!(cpu.get_reg(4), 0xFE00);
}

#[test]
fn board_add_register_steps_once() {
    let mut a = Assembler::new();
    assert_eq!(a.try_assemble("add r1,r0"), Some(Ok(())));
    assert_eq!(a.output(), &[0x03]);
    let mut cpu = Cpu::new();
    cpu.set_reg(0, 0xFFFFFF);
    cpu.set_reg(1, 2);
    cpu.load_program(a.output());
    assert!(cpu.step().running);
    assert_eq!(cpu.get_reg(1), 1);
    assert_eq!(cpu.pc, 1);
}

#[test]
fn board_demo_counts_on_the_leds() {
    let mut a = Assembler::new();
    assert_eq!(a.try_assemble(DEMO_SOURCE), Some(Ok(())));
    let mut cpu = Cpu::new();
    cpu.load_program(a.output());
    let mut shown: Vec<u8> = Vec::new();
    let mut steps = 0;
    while shown.len() < 2 && steps < 200_000 {
        let out = cpu.step();
        assert!(out.running);
        shown.extend(out.leds);
        steps += 1;
    }
    assert_eq!(shown, vec![0, 1]);
    assert!(steps > 45_000);
}

#[test]
fn board_runs_and_shows_leds() {
    let mut cpu = Cpu::new();
    cpu.load_program(&[0x2A, 0x00, 0x00, 0xFF, 0x44, 0x05, 0x81, 0x00, 0x81, 0x00]);
    assert!(cpu.step().running);
    assert_eq!(cpu.get_reg(1), 0xFF0000);
    assert!(cpu.step().running);
    assert_eq!(cpu.get_reg(0), 5);
    let shown = cpu.step();
    assert!(shown.running);
    assert_eq!(shown.leds, vec![5]);
    let again = cpu.step();
    assert!(again.leds.is_empty());
    assert_eq!(cpu.leds, 5);
    assert_eq!(cpu.pc, 10);
}

#[test]
fn board_stops_on_halt_and_unknown_opcode() {
    let mut cpu = Cpu::new();
    cpu.load_program(&[0xC7, 0, 0, 0]);
    let halt = cpu.step();
    assert!(!halt.running);
    assert!(cpu.halted);
    assert_eq!(halt.unknown_opcode, None);
    let mut other = Cpu::new();
    other.load_program(&[0xFF]);
    let unknown = other.step();
    assert!(!unknown.running);
    assert_eq!(unknown.unknown_opcode, Some((0xFF, 0)));
}
