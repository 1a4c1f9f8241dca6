//! Linux user-mode emulation: the syscalls the run loop answers.

use riscv_emulator::cpu::Cpu;
use riscv_emulator::linux::{run, Outcome, A0, A1, A2, A7, EBADF, EFAULT, SYS_WRITE};

use riscv_emulator::bus::DRAM_BASE;

/// Guest buffer location for the write tests (clear of the code).
const MSG: u64 = DRAM_BASE + 0x100;

fn cpu_with_program(words: &[u32]) -> Cpu {
    let mut cpu = Cpu::new();
    for (i, w) in words.iter().enumerate() {
        cpu.bus.store32(DRAM_BASE + 4 * i as u64, *w).unwrap();
    }
    cpu.pc = DRAM_BASE;
    cpu
}

/// ecall; li a7, 93; ecall — write(...), then exit(a0). Because exit's
/// code is whatever write left in a0, the exit code observes write's
/// return value.
const WRITE_THEN_EXIT: &[u32] = &[0x00000073, 0x05d00893, 0x00000073];

fn write_syscall_cpu(fd: u64, buf: u64, len: u64) -> Cpu {
    let mut cpu = cpu_with_program(WRITE_THEN_EXIT);
    cpu.regs[A7] = SYS_WRITE;
    cpu.regs[A0] = fd;
    cpu.regs[A1] = buf;
    cpu.regs[A2] = len;
    cpu
}

#[test]
fn write_reaches_the_host_and_returns_the_byte_count() {
    let mut cpu = write_syscall_cpu(1, MSG, 5);
    for (i, b) in b"Hello".iter().enumerate() {
        cpu.bus.store8(MSG + i as u64, *b).unwrap();
    }
    let mut out = Vec::new();
    assert_eq!(run(&mut cpu, &mut out, 10), Outcome::Exited(5));
    assert_eq!(out, b"Hello");
}

#[test]
fn write_to_a_bad_pointer_returns_efault() {
    // buf = 0 is outside DRAM: the guest gets -EFAULT back, not a crash.
    let mut cpu = write_syscall_cpu(1, 0, 1);
    let mut out = Vec::new();
    assert_eq!(run(&mut cpu, &mut out, 10), Outcome::Exited(EFAULT));
    assert!(out.is_empty());
}

#[test]
fn write_to_an_unopened_fd_returns_ebadf() {
    let mut cpu = write_syscall_cpu(7, MSG, 1);
    let mut out = Vec::new();
    assert_eq!(run(&mut cpu, &mut out, 10), Outcome::Exited(EBADF));
}

#[test]
fn unknown_syscall_stops_the_run() {
    let mut cpu = cpu_with_program(&[0x00000073]);
    cpu.regs[A7] = 222; // mmap: real, but not provided here
    let mut out = Vec::new();
    assert_eq!(
        run(&mut cpu, &mut out, 10),
        Outcome::UnknownSyscall { pc: DRAM_BASE, a7: 222 }
    );
}
