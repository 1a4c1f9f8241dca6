//! Linux user-mode emulation (qemu-user style): run a statically linked
//! Linux ELF by having the emulator itself act as the operating system.
//!
//! The run loop here intercepts ECALL before execute() sees it, so the same
//! instruction that the riscv-tests harness lets trap into a guest handler
//! is answered directly by the host in this environment. That is the whole
//! point of ECALL's design: the instruction only says "call the environment";
//! each environment gives it meaning. The Cpu stays a pure machine.
//!
//! Syscall ABI (Linux riscv64): number in a7, arguments in a0..a5, return
//! value in a0 — a negated errno on failure, just like the real kernel ABI.
//!
//! `step` is one turn of the loop: when the guest writes to stdout/stderr it
//! hands the bytes to the host as an action, and `write_failed` tells the
//! guest (EIO) when the host could not take them. `run` is the whole loop
//! with the output collected in a byte buffer, which never fails.

use vstd::prelude::*;

use crate::alu::{to_reg, wadd64};
use crate::bus::{lemma_read_bound, DRAM_SIZE};
use crate::bytes::lemma_pow256_facts;
use crate::cpu::{Cpu, Machine};
use crate::exception::Exception;
use crate::inst::Inst;

verus! {

// Linux riscv64 syscall numbers (the generic asm-generic table), as needed.
pub const SYS_WRITE: u64 = 64;

pub const SYS_EXIT: u64 = 93;

pub const SYS_EXIT_GROUP: u64 = 94;

// Negated errno values, returned to the guest in a0.
pub const EBADF: i64 = -9;

pub const EFAULT: i64 = -14;

pub const EIO: i64 = -5;

// Argument/return registers of the calling convention.
pub const A0: usize = 10;

pub const A1: usize = 11;

pub const A2: usize = 12;

pub const A7: usize = 17;

/// How a Linux-mode run ended.
#[derive(Debug, Clone, Copy, PartialEq, Eq, Structural)]
pub enum Outcome {
    /// The guest called exit/exit_group with this code.
    Exited(i64),
    /// An exception escaped (unimplemented instruction, access fault, ...);
    /// `pc` is the offending instruction.
    Exception { pc: u64, e: Exception },
    /// The guest used a syscall this environment does not provide yet.
    UnknownSyscall { pc: u64, a7: u64 },
    /// The step budget ran out (livelock guard).
    StepLimit,
}

/// write(fd, buf, len) in state `m`: the bytes that reach the host and the
/// value returned to the guest. Only fds 1 and 2 are open (EBADF
/// otherwise); a buffer with any unreadable byte gives EFAULT and writes
/// nothing; otherwise all `len` bytes are written and `len` is returned.
pub open spec fn write_call(m: Machine) -> (Seq<u8>, i64) {
    let (fd, buf, len) = (m.x(A0), m.x(A1), m.x(A2));
    if fd != 1 && fd != 2 {
        (Seq::empty(), EBADF)
    } else if forall|i: int| 0 <= i < len ==> #[trigger] m.read(to_reg(buf + i), 1) is Some {
        (Seq::new(len as nat, |i: int| m.read(to_reg(buf + i), 1).unwrap() as u8), len as i64)
    } else {
        (Seq::empty(), EFAULT)
    }
}

/// Where a run of at most `steps` steps from `m` ends, what the guest wrote
/// on the way (appended to `out`), and how the run ended. ECALL is answered
/// here instead of trapping: write returns its result in a0 and retires
/// like any other instruction, exit and exit_group end the run.
pub open spec fn linux_run(m: Machine, out: Seq<u8>, steps: nat) -> (Machine, Seq<u8>, Outcome)
    decreases steps,
{
    if steps == 0 {
        (m, out, Outcome::StepLimit)
    } else {
        match m.fetched() {
            Err(e) => (m, out, Outcome::Exception { pc: m.pc, e }),
            Ok((inst, len, _)) => if inst is Ecall {
                let a7 = m.x(A7);
                if a7 == SYS_WRITE {
                    let (bytes, ret) = write_call(m);
                    let next = Machine {
                        regs: m.regs.update(A0 as int, ret as u64),
                        pc: to_reg(m.pc + len),
                        ..m
                    };
                    linux_run(next, out + bytes, (steps - 1) as nat)
                } else if a7 == SYS_EXIT || a7 == SYS_EXIT_GROUP {
                    (m, out, Outcome::Exited(m.x(A0) as i64))
                } else {
                    (m, out, Outcome::UnknownSyscall { pc: m.pc, a7 })
                }
            } else {
                let (next, r) = m.exec(inst, len);
                match r {
                    Err(e) => (next, out, Outcome::Exception { pc: next.pc, e }),
                    Ok(()) => linux_run(next, out, (steps - 1) as nat),
                }
            },
        }
    }
}

/// Run the loop until the guest exits, faults, or exhausts `step_limit`.
/// Guest writes to stdout/stderr both land in `out`.
pub fn run(cpu: &mut Cpu, out: &mut Vec<u8>, step_limit: u64) -> (r: Outcome)
    requires
        old(cpu).wf(),
    ensures
        ({
            let (m, bytes, outcome) = linux_run(old(cpu)@, old(out)@, step_limit as nat);
            &&& r == outcome
            &&& final(cpu).is_state(m)
            &&& final(out)@ == bytes
        }),
{
    let mut i: u64 = 0;
    proof {
        cpu.lemma_view(old(cpu)@);
    }
    while i < step_limit
        invariant
            i <= step_limit,
            cpu.wf(),
            linux_run(old(cpu)@, old(out)@, step_limit as nat) == linux_run(
                cpu@,
                out@,
                (step_limit - i) as nat,
            ),
        decreases step_limit - i,
    {
        let ghost (before, before_out) = (cpu@, out@);
        proof {
            law_run_is_repeated_steps(before, before_out, (step_limit - i - 1) as nat);
        }
        let turn = step(cpu);
        proof {
            cpu.lemma_view(linux_step(before).0);
        }
        match turn {
            Step::Continue => {},
            Step::Write(mut bytes) => out.append(&mut bytes),
            Step::Done(o) => return o,
        }
        i = i + 1;
    }
    Outcome::StepLimit
}

/// Whether write(fd, buf, len) in state `m` reaches the host: the fd is
/// stdout or stderr and every byte of the buffer is readable.
pub open spec fn write_reaches_host(m: Machine) -> bool {
    let (fd, buf, len) = (m.x(A0), m.x(A1), m.x(A2));
    (fd == 1 || fd == 2) && forall|i: int| 0 <= i < len ==> #[trigger] m.read(to_reg(buf + i), 1) is Some
}

/// write(fd, buf, len): the `len` guest bytes at `buf`, or the negated errno
/// the kernel gives: EBADF for a fd not handed out, EFAULT for an unmapped
/// buffer.
fn sys_write(cpu: &Cpu) -> (r: Result<Vec<u8>, i64>)
    requires
        cpu.wf(),
    ensures
        match r {
            Ok(bytes) => write_reaches_host(cpu@) && bytes@ == write_call(cpu@).0
                && write_call(cpu@).1 == cpu@.x(A2) as i64,
            Err(e) => !write_reaches_host(cpu@) && e == write_call(cpu@).1 && write_call(
                cpu@,
            ).0 == Seq::<u8>::empty(),
        },
{
    let (fd, buf, len) = (cpu.regs[A0], cpu.regs[A1], cpu.regs[A2]);
    if fd != 1 && fd != 2 {
        return Err(EBADF);
    }
    proof {
        lemma_pow256_facts();
    }
    let mut bytes: Vec<u8> = Vec::new();
    let mut i: u64 = 0;
    while i < len
        invariant
            cpu.wf(),
            i <= len,
            len == cpu@.x(A2),
            buf == cpu@.x(A1),
            fd == cpu@.x(A0),
            fd == 1 || fd == 2,
            bytes@.len() == i,
            forall|j: int| 0 <= j < i ==> #[trigger] cpu@.read(to_reg(buf + j), 1) is Some,
            forall|j: int|
                0 <= j < i ==> bytes@[j] == cpu@.read(to_reg(buf + j), 1).unwrap() as u8,
        decreases len - i,
    {
        let a = wadd64(buf, i);
        proof {
            lemma_read_bound(cpu.bus.mem(), cpu.bus.clint_state(), a, 1);
        }
        match cpu.bus.load8(a) {
            Ok(b) => bytes.push(b),
            Err(_) => {
                assert(cpu@.read(to_reg(buf + i), 1) is None);
                assert(!(forall|j: int| 0 <= j < len ==> #[trigger] cpu@.read(to_reg(buf + j), 1) is Some));
                return Err(EFAULT);
            },
        }
        i = i + 1;
    }
    assert(bytes@ =~= write_call(cpu@).0);
    Ok(bytes)
}

// --- One turn at a time ----------------------------------------------------------

/// What one turn of the loop asks of the host.
pub enum Step {
    /// The instruction ran (a refused write included); go on.
    Continue,
    /// The guest wrote these bytes to stdout/stderr: hand them to the host,
    /// and call `write_failed` if the host could not take them.
    Write(Vec<u8>),
    /// The run is over.
    Done(Outcome),
}

/// A step with its bytes as a sequence.
pub enum StepView {
    Continue,
    Write(Seq<u8>),
    Done(Outcome),
}

impl View for Step {
    type V = StepView;

    open spec fn view(&self) -> StepView {
        match self {
            Step::Continue => StepView::Continue,
            Step::Write(b) => StepView::Write(b@),
            Step::Done(o) => StepView::Done(*o),
        }
    }
}

/// An ECALL of length `len` answered in state `m`: write returns its result
/// in a0 and retires (handing its bytes to the host when they reach it),
/// exit and exit_group end the run, any other call is unknown.
pub open spec fn syscall_step(m: Machine, len: u64) -> (Machine, StepView) {
    let a7 = m.x(A7);
    if a7 == SYS_WRITE {
        let (bytes, ret) = write_call(m);
        let next = Machine { regs: m.regs.update(A0 as int, ret as u64), pc: to_reg(m.pc + len), ..m };
        (
            next,
            if write_reaches_host(m) {
                StepView::Write(bytes)
            } else {
                StepView::Continue
            },
        )
    } else if a7 == SYS_EXIT || a7 == SYS_EXIT_GROUP {
        (m, StepView::Done(Outcome::Exited(m.x(A0) as i64)))
    } else {
        (m, StepView::Done(Outcome::UnknownSyscall { pc: m.pc, a7 }))
    }
}

/// One turn from `m`: the state after it and what it asks of the host. A
/// write that reaches the host has already returned its byte count in a0
/// and retired; the host's failure is reported afterwards (`write_failed`).
pub open spec fn linux_step(m: Machine) -> (Machine, StepView) {
    match m.fetched() {
        Err(e) => (m, StepView::Done(Outcome::Exception { pc: m.pc, e })),
        Ok((inst, len, _)) => if inst is Ecall {
            syscall_step(m, len)
        } else {
            let (next, r) = m.exec(inst, len);
            match r {
                Err(e) => (next, StepView::Done(Outcome::Exception { pc: next.pc, e })),
                Ok(()) => (next, StepView::Continue),
            }
        },
    }
}

/// Answer an ECALL of length `len` at pc.
fn answer_syscall(cpu: &mut Cpu, len: u64) -> (r: Step)
    requires
        old(cpu).wf(),
    ensures
        final(cpu).is_state(syscall_step(old(cpu)@, len).0),
        r@ == syscall_step(old(cpu)@, len).1,
{
    let ghost before = cpu@;
    proof {
        cpu.lemma_view(before);
    }
    let a7 = cpu.regs[A7];
    if a7 == SYS_WRITE {
        let r = match sys_write(cpu) {
            Ok(bytes) => {
                cpu.regs[A0] = cpu.regs[A2] as i64 as u64;
                Step::Write(bytes)
            },
            Err(e) => {
                cpu.regs[A0] = e as u64;
                Step::Continue
            },
        };
        // The syscall is the ecall's execution: retire it like any other
        // non-jump instruction.
        cpu.pc = wadd64(cpu.pc, len);
        proof {
            let (bytes, ret) = write_call(before);
            cpu.lemma_view(
                Machine {
                    regs: before.regs.update(A0 as int, ret as u64),
                    pc: to_reg(before.pc + len),
                    ..before
                },
            );
        }
        r
    } else if a7 == SYS_EXIT || a7 == SYS_EXIT_GROUP {
        // exit and exit_group only differ for multi-threaded guests.
        Step::Done(Outcome::Exited(cpu.regs[A0] as i64))
    } else {
        Step::Done(Outcome::UnknownSyscall { pc: cpu.pc, a7 })
    }
}

/// Run one turn of the loop: fetch, then answer an ECALL or execute.
pub fn step(cpu: &mut Cpu) -> (r: Step)
    requires
        old(cpu).wf(),
    ensures
        final(cpu).is_state(linux_step(old(cpu)@).0),
        r@ == linux_step(old(cpu)@).1,
{
    let ghost before = cpu@;
    proof {
        cpu.lemma_view(before);
    }
    let (inst, len) = match cpu.fetch_decode() {
        Ok((inst, len, _)) => (inst, len),
        Err(e) => return Step::Done(Outcome::Exception { pc: cpu.pc, e }),
    };
    if let Inst::Ecall = inst {
        answer_syscall(cpu, len)
    } else {
        let r = cpu.execute(inst, len);
        proof {
            cpu.lemma_view(before.exec(inst, len).0);
        }
        match r {
            Err(e) => Step::Done(Outcome::Exception { pc: cpu.pc, e }),
            Ok(()) => Step::Continue,
        }
    }
}

/// The host could not take the bytes of the write just made: the guest's
/// write returns EIO instead of the byte count.
pub fn write_failed(cpu: &mut Cpu)
    requires
        old(cpu).wf(),
    ensures
        final(cpu).is_state(Machine { regs: old(cpu)@.regs.update(A0 as int, EIO as u64), ..old(cpu)@ }),
{
    cpu.regs[A0] = EIO as u64;
}

/// `run` is `step` repeated with every write reaching the host: a turn that
/// continues goes on from its state, a write appends its bytes, and the
/// turn that ends the run ends it with its outcome and state.
pub proof fn law_run_is_repeated_steps(m: Machine, out: Seq<u8>, steps: nat)
    ensures
        linux_run(m, out, steps + 1) == match linux_step(m) {
            (next, StepView::Continue) => linux_run(next, out, steps),
            (next, StepView::Write(bytes)) => linux_run(next, out + bytes, steps),
            (next, StepView::Done(o)) => (next, out, o),
        },
{
    if m.fetched() matches Ok((inst, len, _)) && inst is Ecall && m.x(A7) == SYS_WRITE
        && !write_reaches_host(m) {
        assert(out + write_call(m).0 =~= out);
    }
}

/// exit (93) and exit_group (94) both end the run with the guest's a0
/// (x10) as the exit code: no bytes reach the host and the state is left
/// as it was.
pub proof fn law_exit_and_exit_group_end_the_run(m: Machine, out: Seq<u8>, steps: nat)
    requires
        m.fetched() matches Ok((inst, _, _)) && inst is Ecall,
        m.regs[17] == 93 || m.regs[17] == 94,
    ensures
        linux_step(m) == (m, StepView::Done(Outcome::Exited(m.regs[10] as i64))),
        linux_run(m, out, steps + 1) == (m, out, Outcome::Exited(m.regs[10] as i64)),
{
}

/// What a write call (64) gives, for an ECALL of length `len`.
proof fn lemma_write_call_content(m: Machine, len: u64)
    requires
        m.regs.len() == 32,
        m.mem.len() == DRAM_SIZE,
        m.regs[17] == 64,
    ensures
        ({
            let (fd, buf, n) = (m.regs[10], m.regs[11], m.regs[12]);
            let (next, v) = syscall_step(m, len);
            &&& next.pc == to_reg(m.pc + len)
            &&& next.mem == m.mem
            &&& forall|r: int| 0 <= r < 32 && r != 10 ==> next.regs[r] == m.regs[r]
            &&& (fd != 1 && fd != 2) ==> v == StepView::Continue && next.regs[10] == (-9i64) as u64
            &&& ((fd == 1 || fd == 2) && forall|i: int|
                0 <= i < n ==> #[trigger] m.read(to_reg(buf + i), 1) is Some) ==> {
                &&& next.regs[10] == n
                &&& v matches StepView::Write(bytes) && bytes.len() == n && forall|i: int|
                    0 <= i < n ==> bytes[i] as nat == #[trigger] m.read(to_reg(buf + i), 1).unwrap()
            }
        }),
{
    let (fd, buf, n) = (m.regs[10], m.regs[11], m.regs[12]);
    assert(m.x(A7) == 64 && m.x(A0) == fd && m.x(A1) == buf && m.x(A2) == n);
    if (fd == 1 || fd == 2) && forall|i: int|
        0 <= i < n ==> #[trigger] m.read(to_reg(buf + i), 1) is Some {
        assert forall|i: int| 0 <= i < n implies write_call(m).0[i] as nat == #[trigger] m.read(
            to_reg(buf + i),
            1,
        ).unwrap() by {
            lemma_read_bound(m.mem, m.clint, to_reg(buf + i), 1);
            lemma_pow256_facts();
        }
        assert((n as i64) as u64 == n) by (bit_vector);
    }
}

/// write (64) to stdout or stderr (fd 1 or 2 in x10) of a readable buffer
/// (address in x11, length in x12) hands the host exactly the buffer's
/// bytes, in order, returns their number in x10 and moves past the ECALL;
/// to any other fd it returns -9 (EBADF) and hands nothing over.
pub proof fn law_write_hands_over_the_buffer(m: Machine, len: u64, raw: u32)
    requires
        m.fetched() == Ok::<(Inst, u64, u32), Exception>((Inst::Ecall, len, raw)),
        m.regs.len() == 32,
        m.mem.len() == DRAM_SIZE,
        m.regs[17] == 64,
    ensures
        ({
            let (fd, buf, n) = (m.regs[10], m.regs[11], m.regs[12]);
            let (next, v) = linux_step(m);
            &&& next.pc == to_reg(m.pc + len)
            &&& next.mem == m.mem
            &&& forall|r: int| 0 <= r < 32 && r != 10 ==> next.regs[r] == m.regs[r]
            &&& (fd != 1 && fd != 2) ==> v == StepView::Continue && next.regs[10] == (-9i64) as u64
            &&& ((fd == 1 || fd == 2) && forall|i: int|
                0 <= i < n ==> #[trigger] m.read(to_reg(buf + i), 1) is Some) ==> {
                &&& next.regs[10] == n
                &&& v matches StepView::Write(bytes) && bytes.len() == n && forall|i: int|
                    0 <= i < n ==> bytes[i] as nat == #[trigger] m.read(to_reg(buf + i), 1).unwrap()
            }
        }),
{
    assert(linux_step(m) == syscall_step(m, len));
    lemma_write_call_content(m, len);
}

/// Any other ECALL number ends the run as an unknown syscall at the ECALL,
/// naming the number.
pub proof fn law_unknown_syscall(m: Machine, out: Seq<u8>, steps: nat)
    requires
        m.fetched() matches Ok((inst, _, _)) && inst is Ecall,
        m.regs[17] != 64 && m.regs[17] != 93 && m.regs[17] != 94,
    ensures
        linux_run(m, out, steps + 1) == (m, out, Outcome::UnknownSyscall { pc: m.pc, a7: m.regs[17] }),
{
}

} // verus!
