//! The riscv-tests pass/fail harness.

use riscv_emulator::cpu::Cpu;
use riscv_emulator::exception::Exception;
use riscv_emulator::harness::{run, Outcome};

use riscv_emulator::bus::DRAM_BASE;

/// tohost location used by the hand-written programs below (any in-DRAM
/// address away from the code works).
const TOHOST: u64 = DRAM_BASE + 0x100;

fn cpu_with_program(words: &[u32]) -> Cpu {
    let mut cpu = Cpu::new();
    for (i, w) in words.iter().enumerate() {
        cpu.bus.store32(DRAM_BASE + 4 * i as u64, *w).unwrap();
    }
    cpu.pc = DRAM_BASE;
    cpu
}

/// The write_tohost idiom in miniature: build the address, store the
/// result, spin. auipc (not lui) because lui 0x80000 would sign-extend
/// to 0xffff_ffff_8000_0000 on RV64.
fn tohost_writer(result: u32) -> Vec<u32> {
    vec![
        0x00000117,                  // auipc x2, 0      -> x2 = DRAM_BASE
        0x00000093 | (result << 20), // addi  x1, x0, result
        0x10113023,                  // sd    x1, 0x100(x2)
        0x0000006f,                  // jal   x0, 0      (spin)
    ]
}

#[test]
fn pass_is_tohost_one() {
    let mut cpu = cpu_with_program(&tohost_writer(1));
    assert_eq!(run(&mut cpu, TOHOST, 10), Outcome::Pass);
}

#[test]
fn fail_decodes_the_test_number() {
    // tohost = 5 = (2 << 1) | 1: test case 2 failed.
    let mut cpu = cpu_with_program(&tohost_writer(5));
    assert_eq!(run(&mut cpu, TOHOST, 10), Outcome::Fail { testnum: 2 });
}

#[test]
fn escaped_exception_reports_the_pc() {
    // 0x00000000 does not decode; the harness reports instead of panicking.
    let mut cpu = cpu_with_program(&[0x00000000]);
    assert_eq!(
        run(&mut cpu, TOHOST, 10),
        Outcome::Exception {
            pc: DRAM_BASE,
            e: Exception::IllegalInstruction(0),
        }
    );
}

#[test]
fn step_limit_stops_a_livelock() {
    // jal x0, 0: a legal infinite loop that never touches tohost.
    let mut cpu = cpu_with_program(&[0x0000006f]);
    assert_eq!(run(&mut cpu, TOHOST, 3), Outcome::StepLimit);
}
