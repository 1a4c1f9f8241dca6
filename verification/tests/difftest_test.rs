//! Spike commit-log parsing and the lockstep comparison.

use riscv_emulator::cpu::Cpu;
use riscv_emulator::difftest::{parse_log, run, DiffResult, Divergence, Event};

use riscv_emulator::bus::DRAM_BASE;

/// Verbatim lines from `spike -l --log-commits rv64ui-p-add` (plus a
/// store and a no-write jump), exercising every line shape at once.
const SAMPLE: &str = "\
core   0: 0x0000000000001000 (0x00000297) auipc   t0, 0x0
core   0: 3 0x0000000000001000 (0x00000297) x5  0x0000000000001000
core   0: 3 0x000000000000100c (0x0182b283) x5  0x0000000080000000 mem 0x0000000000001018
core   0: 3 0x0000000080000010 (0x00028067)
core   0: 3 0x0000000080000040 (0xfc3f2223) mem 0x0000000080001000 0x00000001
core   0: 3 0x00000000800000dc (0x30529073) c773_mtvec 0x00000000800000e4
core   0: exception trap_illegal_instruction, epc 0x00000000800000e0
core   0:           tval 0x0000000074445073
core   0: >>>>  write_tohost
";

#[test]
fn parses_every_line_shape() {
    let events = parse_log(SAMPLE);
    assert_eq!(
        events,
        vec![
            // -l disassembly line skipped; commit with a write kept
            Event::Commit { pc: 0x1000, raw: 0x00000297, write: Some((5, 0x1000)) },
            // load: x-write kept, mem address ignored
            Event::Commit {
                pc: 0x100c,
                raw: 0x0182b283,
                write: Some((5, DRAM_BASE)),
            },
            // jump: no writeback
            Event::Commit { pc: 0x8000_0010, raw: 0x00028067, write: None },
            // store: mem-only effect, no x-write
            Event::Commit { pc: 0x8000_0040, raw: 0xfc3f2223, write: None },
            // csr write: not an x-register, ignored
            Event::Commit { pc: 0x8000_00dc, raw: 0x30529073, write: None },
            // exception with its tval; the >>>> annotation is skipped
            Event::Trap {
                epc: 0x8000_00e0,
                cause: "trap_illegal_instruction".to_string(),
                tval: Some(0x74445073),
            },
        ]
    );
}

fn cpu_with_program(words: &[u32]) -> Cpu {
    let mut cpu = Cpu::new();
    for (i, w) in words.iter().enumerate() {
        cpu.bus.store32(DRAM_BASE + 4 * i as u64, *w).unwrap();
    }
    cpu.pc = DRAM_BASE;
    cpu
}

#[test]
fn lockstep_when_we_agree() {
    // addi x1, x0, 5 then addi x1, x1, 2 — and a log that agrees.
    let mut cpu = cpu_with_program(&[0x00500093, 0x00208093]);
    let events = vec![
        Event::Commit { pc: DRAM_BASE, raw: 0x00500093, write: Some((1, 5)) },
        Event::Commit { pc: DRAM_BASE + 4, raw: 0x00208093, write: Some((1, 7)) },
    ];
    assert_eq!(run(&mut cpu, &events), DiffResult::Lockstep { instructions: 2 });
}

#[test]
fn reports_a_register_divergence() {
    let mut cpu = cpu_with_program(&[0x00500093]);
    // Claim Spike computed 6 where we compute 5.
    let events = vec![Event::Commit {
        pc: DRAM_BASE,
        raw: 0x00500093,
        write: Some((1, 6)),
    }];
    assert_eq!(
        run(&mut cpu, &events),
        DiffResult::Diverged {
            index: 0,
            kind: Divergence::Reg { rd: 1, spike: 6, ours: 5 },
        }
    );
}

#[test]
fn reports_a_pc_divergence() {
    // Our jal lands at +8; the log claims Spike retired +4 next.
    let mut cpu = cpu_with_program(&[0x0080006f]);
    let events = vec![
        Event::Commit { pc: DRAM_BASE, raw: 0x0080006f, write: None },
        Event::Commit { pc: DRAM_BASE + 4, raw: 0, write: None },
    ];
    assert_eq!(
        run(&mut cpu, &events),
        DiffResult::Diverged {
            index: 1,
            kind: Divergence::Pc { spike: DRAM_BASE + 4, ours: DRAM_BASE + 8 },
        }
    );
}

#[test]
fn stops_successfully_at_the_final_ecall() {
    let mut cpu = cpu_with_program(&[0x00500093, 0x00000073]);
    let events = vec![
        Event::Commit { pc: DRAM_BASE, raw: 0x00500093, write: Some((1, 5)) },
        Event::Trap {
            epc: DRAM_BASE + 4,
            cause: "trap_user_ecall".to_string(),
            tval: None,
        },
    ];
    assert_eq!(
        run(&mut cpu, &events),
        DiffResult::LockstepUntilEcall { instructions: 1 }
    );
}

#[test]
fn follows_spike_through_a_spurious_sc_failure() {
    // lr.w a4, (a0) then sc.w a4, a5, (a0): our sc would succeed, but
    // the log says Spike's failed (a legal spurious failure). The
    // runner drops our reservation so both fail identically, and the
    // store must not happen.
    let mut cpu = cpu_with_program(&[0x1005272f, 0x18f5272f]);
    cpu.regs[10] = DRAM_BASE + 0x100;
    cpu.regs[15] = 99;
    let events = vec![
        Event::Commit { pc: DRAM_BASE, raw: 0x1005272f, write: Some((14, 0)) },
        Event::Commit { pc: DRAM_BASE + 4, raw: 0x18f5272f, write: Some((14, 1)) },
    ];
    assert_eq!(run(&mut cpu, &events), DiffResult::Lockstep { instructions: 2 });
    assert_eq!(cpu.bus.load32(DRAM_BASE + 0x100).unwrap(), 0, "no store");
}

#[test]
fn follows_spike_through_a_shared_trap() {
    // Both sides fault: an all-zero word does not decode. Our trap()
    // must redirect to mtvec so the next pc check still matches.
    let mut cpu = cpu_with_program(&[0x00000000]);
    cpu.csrs[0x305] = DRAM_BASE + 0x40; // mtvec
    cpu.bus.store32(DRAM_BASE + 0x40, 0x00500093).unwrap();
    let events = vec![
        Event::Trap {
            epc: DRAM_BASE,
            cause: "trap_illegal_instruction".to_string(),
            tval: Some(0),
        },
        Event::Commit {
            pc: DRAM_BASE + 0x40,
            raw: 0x00500093,
            write: Some((1, 5)),
        },
    ];
    assert_eq!(run(&mut cpu, &events), DiffResult::Lockstep { instructions: 1 });
}
