//! The one-turn-at-a-time entry points, the loader's assembly step, the
//! comparison's start search, and the laws added with them, on concrete
//! values.

use riscv_emulator::bus::DRAM_BASE;
use riscv_emulator::cpu::Cpu;
use riscv_emulator::difftest::{parse_log, run_checked, start_index, DiffResult, Event};
use riscv_emulator::exception::Exception;
use riscv_emulator::harness::{self, Outcome as TestOutcome, Traced};
use riscv_emulator::inst::{decode, decode_compressed, Inst};
use riscv_emulator::linux::{self, Outcome, Step, A0, A1, A2, A7, EBADF, EIO, SYS_WRITE};
use riscv_emulator::loader::{assemble, LoadError, SegmentEntry};

fn cpu_with_program(words: &[u32]) -> Cpu {
    let mut cpu = Cpu::new();
    for (i, w) in words.iter().enumerate() {
        cpu.bus.store32(DRAM_BASE + 4 * i as u64, *w).unwrap();
    }
    cpu.pc = DRAM_BASE;
    cpu
}

/// ecall; li a7, 93; ecall: write(...), then exit with what write returned.
const WRITE_THEN_EXIT: &[u32] = &[0x00000073, 0x05d00893, 0x00000073];
const MSG: u64 = DRAM_BASE + 0x100;

fn write_cpu(fd: u64, len: u64) -> Cpu {
    let mut cpu = cpu_with_program(WRITE_THEN_EXIT);
    for (i, b) in b"Hello".iter().enumerate() {
        cpu.bus.store8(MSG + i as u64, *b).unwrap();
    }
    cpu.regs[A7] = SYS_WRITE;
    cpu.regs[A0] = fd;
    cpu.regs[A1] = MSG;
    cpu.regs[A2] = len;
    cpu
}

#[test]
fn a_write_step_hands_the_bytes_to_the_host() {
    let mut cpu = write_cpu(1, 5);
    match linux::step(&mut cpu) {
        Step::Write(bytes) => assert_eq!(bytes, b"Hello".to_vec()),
        _ => panic!("expected a write"),
    }
    assert_eq!(cpu.regs[A0], 5);
    assert_eq!(cpu.pc, DRAM_BASE + 4);
}

#[test]
fn a_failed_host_write_returns_eio_to_the_guest() {
    let mut cpu = write_cpu(2, 5);
    assert!(matches!(linux::step(&mut cpu), Step::Write(_)));
    linux::write_failed(&mut cpu);
    assert_eq!(cpu.regs[A0] as i64, EIO);
    assert!(matches!(linux::step(&mut cpu), Step::Continue));
    match linux::step(&mut cpu) {
        Step::Done(Outcome::Exited(code)) => assert_eq!(code, EIO),
        _ => panic!("expected the exit"),
    }
}

#[test]
fn a_refused_write_continues_without_reaching_the_host() {
    let mut cpu = write_cpu(3, 5);
    assert!(matches!(linux::step(&mut cpu), Step::Continue));
    assert_eq!(cpu.regs[A0] as i64, EBADF);
}

#[test]
fn run_agrees_with_repeated_steps() {
    let mut a = write_cpu(1, 5);
    let mut out = Vec::new();
    let outcome = linux::run(&mut a, &mut out, 10);
    let mut b = write_cpu(1, 5);
    let mut host = Vec::new();
    let ended = loop {
        match linux::step(&mut b) {
            Step::Continue => {}
            Step::Write(bytes) => host.extend_from_slice(&bytes),
            Step::Done(o) => break o,
        }
    };
    assert_eq!(outcome, Outcome::Exited(5));
    assert_eq!(ended, outcome);
    assert_eq!(out, host);
    assert_eq!(a.regs, b.regs);
}

#[test]
fn a_traced_turn_reports_what_happened() {
    // addi x1, x0, 1; sd x1, 0x100(x0+DRAM) via x2; then an illegal word.
    // sd x1, 0(x2) = 0x00113023
    let mut cpu = cpu_with_program(&[0x00100093, 0x00113023, 0x00000000]);
    cpu.regs[2] = DRAM_BASE + 0x200;
    let tohost = DRAM_BASE + 0x200;
    assert_eq!(
        harness::trace_step(&mut cpu, tohost),
        Traced::Ran {
            pc: DRAM_BASE,
            raw: 0x00100093,
            inst: Inst::Addi { rd: 1, rs1: 0, imm: 1 },
            report: None,
        }
    );
    assert_eq!(
        harness::trace_step(&mut cpu, tohost),
        Traced::Ran {
            pc: DRAM_BASE + 4,
            raw: 0x00113023,
            inst: Inst::Sd { rs1: 2, rs2: 1, offset: 0 },
            report: Some(TestOutcome::Pass),
        }
    );
    assert_eq!(
        harness::trace_step(&mut cpu, tohost),
        Traced::Unfetched { pc: DRAM_BASE + 8, e: Exception::IllegalInstruction(0) }
    );
    assert_eq!(cpu.pc, DRAM_BASE + 8);
}

#[test]
fn a_traced_fault_leaves_pc_at_the_instruction() {
    // ld x1, 0(x2) with x2 = 0: a load access fault.
    let mut cpu = cpu_with_program(&[0x00013083]);
    assert_eq!(
        harness::trace_step(&mut cpu, DRAM_BASE + 0x200),
        Traced::Faulted {
            pc: DRAM_BASE,
            raw: 0x00013083,
            inst: Inst::Ld { rd: 1, rs1: 2, offset: 0 },
            e: Exception::LoadAccessFault(0),
        }
    );
    assert_eq!(cpu.pc, DRAM_BASE);
}

#[test]
fn a_run_with_no_budget_stops_at_once() {
    let mut cpu = cpu_with_program(&[0x00000000]);
    assert_eq!(harness::run(&mut cpu, DRAM_BASE + 0x200, 0), TestOutcome::StepLimit);
    assert_eq!(cpu.pc, DRAM_BASE);
    assert_eq!(
        harness::run(&mut cpu, DRAM_BASE + 0x200, 5),
        TestOutcome::Exception { pc: DRAM_BASE, e: Exception::IllegalInstruction(0) }
    );
}

#[test]
fn the_comparison_starts_at_the_first_event_in_dram() {
    let events = vec![
        Event::Commit { pc: 0x1000, raw: 0x00000297, write: Some((5, 0x1000)) },
        Event::Commit { pc: DRAM_BASE, raw: 0x00500093, write: Some((1, 5)) },
        Event::Commit { pc: DRAM_BASE, raw: 0x00500093, write: Some((1, 5)) },
    ];
    assert_eq!(start_index(&events, DRAM_BASE), Some(1));
    assert_eq!(start_index(&events, 0x2000), None);
}

#[test]
fn only_a_reached_write_to_no_register_stops_the_comparison() {
    // addi x1, x0, 5 twice; the log names x40 on the second event.
    let bad = vec![
        Event::Commit { pc: DRAM_BASE, raw: 0x00500093, write: Some((1, 5)) },
        Event::Commit { pc: DRAM_BASE + 4, raw: 0x00500093, write: Some((40, 5)) },
    ];
    let mut cpu = cpu_with_program(&[0x00500093, 0x00500093]);
    assert_eq!(run_checked(&mut cpu, &bad), None);
    // A divergence before it: the bad write is never reached.
    let unreached = vec![
        Event::Commit { pc: DRAM_BASE, raw: 0x00500093, write: Some((1, 6)) },
        Event::Commit { pc: DRAM_BASE + 4, raw: 0x00500093, write: Some((40, 5)) },
    ];
    let mut cpu = cpu_with_program(&[0x00500093, 0x00500093]);
    assert!(matches!(
        run_checked(&mut cpu, &unreached),
        Some(DiffResult::Diverged { index: 0, .. })
    ));
}

#[test]
fn assembling_stops_at_an_unreadable_segment() {
    let segs = vec![
        SegmentEntry { addr: DRAM_BASE, data: Ok(vec![1, 2, 3]), size: 8 },
        SegmentEntry { addr: DRAM_BASE + 0x1000, data: Err("bad segment".to_string()), size: 4 },
    ];
    match assemble(DRAM_BASE, segs, vec![]) {
        Err(LoadError::Parse(m)) => assert_eq!(m, "bad segment"),
        _ => panic!("expected the segment's error"),
    }
}

#[test]
fn assembling_keeps_named_symbols_and_the_last_definition() {
    let segs = vec![SegmentEntry { addr: DRAM_BASE, data: Ok(vec![1, 2, 3]), size: 8 }];
    let syms = vec![
        (Some("tohost".to_string()), 0x10),
        (None, 0x20),
        (Some("start".to_string()), 0x30),
        (Some("tohost".to_string()), 0x40),
    ];
    let elf = assemble(0x1234, segs, syms).unwrap();
    assert_eq!(elf.entry(), 0x1234);
    assert_eq!(elf.segments().len(), 1);
    assert_eq!(elf.segments()[0].data, vec![1, 2, 3]);
    assert_eq!(elf.segments()[0].mem_size, 8);
    assert_eq!(elf.symbol("tohost"), Some(0x40));
    assert_eq!(elf.symbol("start"), Some(0x30));
    assert_eq!(elf.symbol(""), None);
}

#[test]
fn a_load_is_the_join_of_its_bytes() {
    let mut cpu = Cpu::new();
    let a = DRAM_BASE + 3;
    cpu.bus.write_bytes(a, &[0x11, 0x22, 0x33, 0x44, 0x55, 0x66, 0x77, 0x88]).unwrap();
    let b = |k: u64| cpu.bus.load8(a + k).unwrap() as u64;
    assert_eq!(cpu.bus.load16(a).unwrap() as u64, b(0) | b(1) << 8);
    assert_eq!(cpu.bus.load32(a).unwrap() as u64, b(0) | b(1) << 8 | b(2) << 16 | b(3) << 24);
    let joined = (0..8).fold(0u64, |acc, k| acc | b(k) << (8 * k));
    assert_eq!(cpu.bus.load64(a).unwrap(), joined);
    assert_eq!(joined, 0x8877_6655_4433_2211);
}

#[test]
fn written_bytes_read_back_one_by_one() {
    let mut cpu = Cpu::new();
    cpu.bus.store8(DRAM_BASE + 9, 0xee).unwrap();
    cpu.bus.write_bytes(DRAM_BASE + 4, &[9, 8, 7]).unwrap();
    assert_eq!(cpu.bus.load8(DRAM_BASE + 4).unwrap(), 9);
    assert_eq!(cpu.bus.load8(DRAM_BASE + 5).unwrap(), 8);
    assert_eq!(cpu.bus.load8(DRAM_BASE + 6).unwrap(), 7);
    assert_eq!(cpu.bus.load8(DRAM_BASE + 7).unwrap(), 0);
    assert_eq!(cpu.bus.load8(DRAM_BASE + 9).unwrap(), 0xee);
}

#[test]
fn word_loads_sign_extend() {
    // lw x1, 0(x2); lr.w x3, (x2); amoadd.w x4, x0, (x2)
    // lr.w x3, (x2) = 0x100121af; amoadd.w x4, x0, (x2) = 0x0001222f
    let mut cpu = cpu_with_program(&[0x00012083, 0x100121af, 0x0001222f]);
    cpu.regs[2] = DRAM_BASE + 0x100;
    cpu.bus.store32(DRAM_BASE + 0x100, 0x8000_0000).unwrap();
    for _ in 0..3 {
        cpu.step().unwrap();
    }
    assert_eq!(cpu.regs[1], 0xffff_ffff_8000_0000);
    assert_eq!(cpu.regs[3], 0xffff_ffff_8000_0000);
    assert_eq!(cpu.regs[4], 0xffff_ffff_8000_0000);
}

#[test]
fn decoded_immediates_stay_in_their_ranges() {
    // addi x1, x0, -2048; jal x0, -1048576; beq x0, x0, -4096; lui x1, 0x80000
    assert_eq!(decode(0x8000_0093), Ok(Inst::Addi { rd: 1, rs1: 0, imm: -2048 }));
    assert_eq!(decode(0x8000_006f), Ok(Inst::Jal { rd: 0, offset: -0x10_0000 }));
    assert_eq!(decode(0x8000_0063), Ok(Inst::Beq { rs1: 0, rs2: 0, offset: -0x1000 }));
    assert_eq!(decode(0x8000_00b7), Ok(Inst::Lui { rd: 1, imm: -0x8000_0000 }));
    // c.j with every offset bit set: -2
    assert_eq!(decode_compressed(0xbffd), Ok(Inst::Jal { rd: 0, offset: -2 }));
}

#[test]
fn lines_that_are_not_events_are_skipped_anywhere() {
    let a = "core   0: exception trap_illegal_instruction, epc 0x00000000800000e0";
    let b = "core   0:           tval 0x0000000074445073";
    let x = "core   0: 0x0000000000001000 (0x00000297) auipc   t0, 0x0";
    let y = "core   0: >>>>  write_tohost";
    let plain = parse_log(&format!("{a}\n{b}"));
    assert_eq!(parse_log(&format!("{a}\n{x}\n{b}")), plain);
    assert_eq!(parse_log(&format!("{a}\n{y}\n{b}")), plain);
    assert_eq!(
        plain,
        vec![Event::Trap {
            epc: 0x8000_00e0,
            cause: "trap_illegal_instruction".to_string(),
            tval: Some(0x74445073),
        }]
    );
}
