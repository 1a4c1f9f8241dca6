//! riscv-tests pass/fail harness.
//!
//! The rv64ui-p tests report their result through `tohost`, a 64-bit variable
//! whose address is published in the ELF symbol table. The pass epilogue writes
//! 1; a failing test case writes (testnum << 1) | 1. Either way the test then
//! spins forever, so the harness polls tohost after every step and stops on the
//! first non-zero value.
//!
//! (Spike's HTIF multiplexes console and syscalls over tohost as well; the
//! bare-metal `-p` tests only ever use the exit code, so that is all we read.)

use vstd::prelude::*;

use crate::alu::lemma_bit_facts;
use crate::bus::{in_dram, law_dram_store_load_roundtrip, lemma_read_bound, DRAM_SIZE};
use crate::bytes::lemma_pow256_facts;
use crate::cpu::{Cpu, Machine};
use crate::exception::Exception;
use crate::cpu::law_fault_commits_nothing;
use crate::inst::{decode, decode_spec, Inst};

verus! {

/// How a test run ended.
#[derive(Debug, Clone, Copy, PartialEq, Eq, Structural)]
pub enum Outcome {
    /// tohost = 1: every test case passed.
    Pass,
    /// tohost = (testnum << 1) | 1: `testnum` is the failing test case.
    Fail { testnum: u64 },
    /// The emulator gave up: an exception surfaced out of step(), i.e. the
    /// guest hit something not implemented (or a real bug). `pc` is the
    /// offending instruction (step() leaves pc uncommitted on error).
    Exception { pc: u64, e: Exception },
    /// The step budget ran out before tohost was written (livelock guard).
    StepLimit,
}

/// What the harness makes of a value `v` in tohost.
pub open spec fn report_of(v: u64) -> Option<Outcome> {
    if v == 0 {
        None
    } else if v == 1 {
        Some(Outcome::Pass)
    } else {
        Some(Outcome::Fail { testnum: v / 2 })
    }
}

/// What tohost says in state `m`: nothing yet while it reads 0 or cannot
/// be read, pass for 1, otherwise the failing test case in the upper bits.
pub open spec fn tohost_report(m: Machine, tohost: u64) -> Option<Outcome> {
    match m.read(tohost, 8) {
        None => None,
        Some(v) => report_of(v as u64),
    }
}

/// Where a run of at most `steps` steps from `m` ends, and how: step, then
/// poll tohost, until an exception escapes, tohost reports, or the budget
/// is spent.
pub open spec fn test_run(m: Machine, tohost: u64, steps: nat) -> (Machine, Outcome)
    decreases steps,
{
    if steps == 0 {
        (m, Outcome::StepLimit)
    } else {
        let (next, r) = m.step();
        match r {
            Err(e) => (next, Outcome::Exception { pc: next.pc, e }),
            Ok(()) => match tohost_report(next, tohost) {
                Some(o) => (next, o),
                None => test_run(next, tohost, (steps - 1) as nat),
            },
        }
    }
}

/// Poll tohost: Some(outcome) once the test has reported, None while it is
/// still running. A read fault (tohost outside DRAM) reads as "not yet".
pub fn check_tohost(cpu: &Cpu, tohost: u64) -> (r: Option<Outcome>)
    requires
        cpu.wf(),
    ensures
        r == tohost_report(cpu@, tohost),
{
    proof {
        lemma_pow256_facts();
        lemma_read_bound(cpu.bus.mem(), cpu.bus.clint_state(), tohost, 8);
    }
    match cpu.bus.load64(tohost) {
        Ok(0) | Err(_) => None,
        Ok(1) => Some(Outcome::Pass),
        Ok(v) => {
            let testnum = v >> 1;
            proof {
                lemma_bit_facts(v, 0, 0, 0);
            }
            Some(Outcome::Fail { testnum })
        },
    }
}

/// Run the interpreter loop until the test reports through tohost, an
/// exception escapes, or `step_limit` steps elapse.
pub fn run(cpu: &mut Cpu, tohost: u64, step_limit: u64) -> (r: Outcome)
    requires
        old(cpu).wf(),
    ensures
        r == test_run(old(cpu)@, tohost, step_limit as nat).1,
        final(cpu).is_state(test_run(old(cpu)@, tohost, step_limit as nat).0),
{
    let mut i: u64 = 0;
    proof {
        cpu.lemma_view(old(cpu)@);
    }
    while i < step_limit
        invariant
            i <= step_limit,
            cpu.wf(),
            test_run(old(cpu)@, tohost, step_limit as nat) == test_run(
                cpu@,
                tohost,
                (step_limit - i) as nat,
            ),
        decreases step_limit - i,
    {
        let ghost before = cpu@;
        let stepped = cpu.step();
        proof {
            cpu.lemma_view(before.step().0);
        }
        if let Err(e) = stepped {
            return Outcome::Exception { pc: cpu.pc, e };
        }
        if let Some(outcome) = check_tohost(cpu, tohost) {
            return outcome;
        }
        i = i + 1;
    }
    Outcome::StepLimit
}

/// The harness reads back what the test stores: after an SD of `v` to a
/// tohost in DRAM succeeds, polling reports 1 as a pass, (n << 1) | 1 as
/// the failure of test case n, and 0 as still running.
pub proof fn law_tohost_reports_the_stored_value(m: Machine, sd: Inst, len: u64, tohost: u64)
    requires
        m.mem.len() == DRAM_SIZE,
        sd is Sd,
        m.exec(sd, len).1 is Ok,
        m.ea(sd->Sd_rs1, sd->Sd_offset) == tohost,
        in_dram(tohost, 8),
    ensures
        tohost_report(m.exec(sd, len).0, tohost) == report_of(m.x(sd->Sd_rs2)),
{
    let v = m.x(sd->Sd_rs2);
    lemma_pow256_facts();
    law_dram_store_load_roundtrip(m.mem, m.clint, tohost, v as nat, 8);
}

// --- A traced run, one turn at a time ------------------------------------------------

/// What one traced turn did, with what a trace shows of it.
#[derive(Debug, Clone, Copy, PartialEq, Eq, Structural)]
pub enum Traced {
    /// The word at `pc` could not be fetched or decoded: nothing ran.
    Unfetched { pc: u64, e: Exception },
    /// The word `raw` at `pc` decoded to `inst`, which raised `e`; the state
    /// is as it was (pc still at the instruction).
    Faulted { pc: u64, raw: u32, inst: Inst, e: Exception },
    /// The word `raw` at `pc` decoded to `inst` and ran; `report` is what
    /// tohost says afterwards (`None` while the test is still running).
    Ran { pc: u64, raw: u32, inst: Inst, report: Option<Outcome> },
}

/// One traced turn from `m`: fetch the 32-bit word at pc, decode it, execute
/// it, then poll tohost. The state after it, and what happened.
pub open spec fn traced_step(m: Machine, tohost: u64) -> (Machine, Traced) {
    match m.read(m.pc, 4) {
        None => (m, Traced::Unfetched { pc: m.pc, e: Exception::LoadAccessFault(m.pc) }),
        Some(w) => match decode_spec(w as u32) {
            Err(e) => (m, Traced::Unfetched { pc: m.pc, e }),
            Ok(inst) => {
                let (next, r) = m.exec(inst, 4);
                match r {
                    Err(e) => (next, Traced::Faulted { pc: m.pc, raw: w as u32, inst, e }),
                    Ok(()) => (
                        next,
                        Traced::Ran { pc: m.pc, raw: w as u32, inst, report: tohost_report(next, tohost) },
                    ),
                }
            },
        },
    }
}

/// One turn of a traced run: fetch and decode by hand (so a trace can show
/// the instruction), execute, then poll tohost.
pub fn trace_step(cpu: &mut Cpu, tohost: u64) -> (r: Traced)
    requires
        old(cpu).wf(),
    ensures
        final(cpu).is_state(traced_step(old(cpu)@, tohost).0),
        r == traced_step(old(cpu)@, tohost).1,
{
    let ghost before = cpu@;
    proof {
        cpu.lemma_view(before);
        lemma_pow256_facts();
        lemma_read_bound(cpu.bus.mem(), cpu.bus.clint_state(), cpu.pc, 4);
    }
    let pc = cpu.pc;
    let raw = match cpu.fetch() {
        Ok(raw) => raw,
        Err(e) => return Traced::Unfetched { pc, e },
    };
    let inst = match decode(raw) {
        Ok(inst) => inst,
        Err(e) => return Traced::Unfetched { pc, e },
    };
    let r = cpu.execute(inst, 4);
    proof {
        cpu.lemma_view(before.exec(inst, 4).0);
    }
    match r {
        Err(e) => Traced::Faulted { pc, raw, inst, e },
        Ok(()) => {
            let report = check_tohost(cpu, tohost);
            Traced::Ran { pc, raw, inst, report }
        },
    }
}

/// `run` is the traced turn repeated: a turn that cannot fetch, or whose
/// instruction faults, ends the run with that exception at the
/// instruction's pc (nothing committed); a turn after which tohost reports
/// ends it with the report; any other turn goes on.
pub proof fn law_run_is_traced_steps(m: Machine, tohost: u64, steps: nat)
    ensures
        test_run(m, tohost, steps + 1) == match traced_step(m, tohost) {
            (next, Traced::Unfetched { pc, e }) => (next, Outcome::Exception { pc, e }),
            (next, Traced::Faulted { pc, e, .. }) => (next, Outcome::Exception { pc, e }),
            (next, Traced::Ran { report: Some(o), .. }) => (next, o),
            (next, Traced::Ran { report: None, .. }) => test_run(next, tohost, steps),
        },
{
    if let Some(w) = m.read(m.pc, 4) {
        if let Ok(inst) = decode_spec(w as u32) {
            if m.exec(inst, 4).1 is Err {
                law_fault_commits_nothing(m, inst, 4);
            }
        }
    }
}

/// Every step of `m` for `steps` steps succeeds and leaves tohost silent.
pub open spec fn runs_quietly(m: Machine, tohost: u64, steps: nat) -> bool
    decreases steps,
{
    steps == 0 || {
        let (next, r) = m.step();
        r is Ok && tohost_report(next, tohost) is None && runs_quietly(next, tohost, (steps - 1) as nat)
    }
}

/// How a run ends: with no budget at once, in the state it started in; with
/// the step limit only after every step of the budget succeeded with
/// tohost silent; with an exception at the pc of the instruction that
/// raised it, which the final state still points at.
pub proof fn law_run_outcomes(m: Machine, tohost: u64, steps: nat)
    ensures
        test_run(m, tohost, 0) == (m, Outcome::StepLimit),
        test_run(m, tohost, steps).1 is StepLimit ==> runs_quietly(m, tohost, steps),
        test_run(m, tohost, steps).1 matches Outcome::Exception { pc, .. } ==> test_run(
            m,
            tohost,
            steps,
        ).0.pc == pc,
    decreases steps,
{
    if steps > 0 {
        law_run_outcomes(m.step().0, tohost, (steps - 1) as nat);
    }
}

} // verus!
