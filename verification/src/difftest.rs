//! Spike diff testing: replay Spike's commit log on our Cpu in lockstep and
//! find the first instruction where the two implementations disagree.
//!
//! `spike -l --log-commits` writes one commit line per retired instruction
//! (pc, instruction word, and the register it wrote). We parse that into
//! [`Event`]s, then step our Cpu alongside: before each event the pc must
//! match, after it the written register must hold the same value. Where
//! Spike takes a trap we either trap too or the next pc check catches us.
//!
//! Two Spike behaviors shape the loop:
//! - A trapped instruction does not commit: the log shows an `exception`
//!   line instead, and execution continues at mtvec. The riscv-tests
//!   startup relies on this (it probes optional CSRs like mnstatus with
//!   mtvec aimed at the next instruction, so trap and no-trap converge).
//! - Spike drops to U-mode for the rv64ui tests, so the final ECALL raises
//!   cause 8 (user ecall) where our M-mode-only Cpu raises 11. Both land in
//!   the same handler, but the handler's `csrr t5, mcause` would diverge.
//!   Until privilege modes exist, comparison therefore stops (and counts as
//!   success) at the first ecall trap: every test case body has run by then.

use vstd::prelude::*;

use crate::cpu::{Cpu, Machine};
use crate::display::{digits, law_printed_numbers_parse_back, lemma_digits_are_a_word};
use crate::exception::Exception;
use crate::inst::{decode, decode_spec, Inst};
use crate::text::{
    chars_of, equals_at, is_gap, is_space, is_word, lemma_tokens_then_word, lemma_tokens_word,
    lemma_token_spans, parse_number, parse_unsigned, spans_of, split_lines,
    string_of, token_spans, tokens, trim_end, trim_start,
};

verus! {

/// One line of Spike's log that matters for the comparison.
#[derive(Debug, Clone, PartialEq, Eq)]
pub enum Event {
    /// A retired instruction: its pc, raw word, and x-register write (if
    /// any). CSR/memory effects in the log are ignored: memory follows from
    /// matching stores, and CSRs are compared indirectly when read back.
    Commit { pc: u64, raw: u32, write: Option<(usize, u64)> },
    /// A taken trap: the faulting pc and Spike's cause name (plus mtval).
    Trap { epc: u64, cause: String, tval: Option<u64> },
}

/// An event with its cause name as a character sequence.
pub enum EventView {
    Commit { pc: u64, raw: u32, write: Option<(usize, u64)> },
    Trap { epc: u64, cause: Seq<char>, tval: Option<u64> },
}

impl EventView {
    /// The pc our Cpu must be at when this event begins.
    pub open spec fn pc(self) -> u64 {
        match self {
            EventView::Commit { pc, .. } => pc,
            EventView::Trap { epc, .. } => epc,
        }
    }
}

impl View for Event {
    type V = EventView;

    open spec fn view(&self) -> EventView {
        match self {
            Event::Commit { pc, raw, write } => EventView::Commit { pc: *pc, raw: *raw, write: *write },
            Event::Trap { epc, cause, tval } => EventView::Trap { epc: *epc, cause: cause@, tval: *tval },
        }
    }
}

impl Event {
    /// The pc our Cpu must be at when this event begins.
    pub fn pc(&self) -> (r: u64)
        ensures
            r == self@.pc(),
    {
        match self {
            Event::Commit { pc, .. } => *pc,
            Event::Trap { epc, .. } => *epc,
        }
    }
}

/// Where and how the two implementations disagreed.
#[derive(Debug, Clone, Copy, PartialEq, Eq, Structural)]
pub enum Divergence {
    /// We are about to execute a different instruction than Spike retired.
    Pc { spike: u64, ours: u64 },
    /// Same instruction, different result in the written register.
    Reg { rd: usize, spike: u64, ours: u64 },
    /// Spike retired the instruction but our step raised an exception.
    OurException(Exception),
}

#[derive(Debug, Clone, Copy, PartialEq, Eq, Structural)]
pub enum DiffResult {
    /// Spike's whole log matched.
    Lockstep { instructions: u64 },
    /// Everything up to the test's final ecall matched (see module docs:
    /// the trap path diverges on mcause while privilege modes are missing).
    LockstepUntilEcall { instructions: u64 },
    /// First disagreement, as an index into the event slice.
    Diverged { index: usize, kind: Divergence },
}

/// The characters of "ecall".
pub open spec fn ecall_chars() -> Seq<char> {
    seq!['e', 'c', 'a', 'l', 'l']
}

/// `s` contains "ecall".
pub open spec fn mentions_ecall(s: Seq<char>) -> bool {
    exists|i: int| 0 <= i && i + 5 <= s.len() && #[trigger] s.subrange(i, i + 5) == ecall_chars()
}

/// The log shows a store-conditional that failed (wrote a non-zero result).
#[verifier::opaque]
pub open spec fn logged_sc_failure(ev: EventView) -> bool {
    match ev {
        EventView::Commit { raw, write, .. } => {
            &&& decode_spec(raw) matches Ok(inst) && (inst is ScW || inst is ScD)
            &&& write matches Some((_, v)) && v != 0
        },
        _ => false,
    }
}

/// One step of our machine, as the comparison replays it.
#[verifier::opaque]
pub open spec fn replay(m: Machine) -> (Machine, Result<(), Exception>) {
    m.step()
}

/// Whether the comparison from event `i` on, with our machine in state `m`,
/// comes to compare a logged register write that names no x-register (the
/// comparison cannot read such a register).
pub open spec fn reaches_bad_write(m: Machine, events: Seq<EventView>, i: nat) -> bool
    decreases events.len() - i,
{
    if i >= events.len() {
        false
    } else {
        let ev = events[i as int];
        if m.pc != ev.pc() {
            false
        } else {
            match ev {
                EventView::Commit { write, .. } => {
                    let start = if logged_sc_failure(ev) {
                        Machine { reservation: None, ..m }
                    } else {
                        m
                    };
                    let (next, r) = replay(start);
                    match r {
                        Err(_) => false,
                        Ok(()) => match write {
                            Some((rd, v)) => rd >= 32 || (next.x(rd) == v && reaches_bad_write(
                                next,
                                events,
                                i + 1,
                            )),
                            None => reaches_bad_write(next, events, i + 1),
                        },
                    }
                },
                EventView::Trap { cause, .. } => if mentions_ecall(cause) {
                    false
                } else {
                    let (next, r) = replay(m);
                    match r {
                        Err(e) => reaches_bad_write(next.take_trap(e), events, i + 1),
                        Ok(()) => reaches_bad_write(next, events, i + 1),
                    }
                },
            }
        }
    }
}

/// The comparison from event `i` on, with our machine in state `m` and `n`
/// instructions matched so far: where our machine ends, and the verdict.
///
/// Before each event the pcs must agree. A commit is replayed by one step
/// (after dropping our reservation where Spike's SC failed spuriously) and
/// its register write compared. A trap either ends the comparison (an
/// ecall) or is followed: our step must trap too, and then we enter our
/// handler; if it does not, the next pc check decides.
pub open spec fn diff_run(m: Machine, events: Seq<EventView>, i: nat, n: u64) -> (Machine, DiffResult)
    decreases events.len() - i,
{
    if i >= events.len() {
        (m, DiffResult::Lockstep { instructions: n })
    } else {
        let ev = events[i as int];
        if m.pc != ev.pc() {
            (m, DiffResult::Diverged { index: i as usize, kind: Divergence::Pc { spike: ev.pc(), ours: m.pc } })
        } else {
            match ev {
                EventView::Commit { write, .. } => {
                    let start = if logged_sc_failure(ev) {
                        Machine { reservation: None, ..m }
                    } else {
                        m
                    };
                    let (next, r) = replay(start);
                    match r {
                        Err(e) => (next, DiffResult::Diverged { index: i as usize, kind: Divergence::OurException(e) }),
                        Ok(()) => match write {
                            Some((rd, v)) => if next.x(rd) != v {
                                (
                                    next,
                                    DiffResult::Diverged {
                                        index: i as usize,
                                        kind: Divergence::Reg { rd, spike: v, ours: next.x(rd) },
                                    },
                                )
                            } else {
                                diff_run(next, events, i + 1, (n + 1) as u64)
                            },
                            None => diff_run(next, events, i + 1, (n + 1) as u64),
                        },
                    }
                },
                EventView::Trap { cause, .. } => if mentions_ecall(cause) {
                    (m, DiffResult::LockstepUntilEcall { instructions: n })
                } else {
                    let (next, r) = replay(m);
                    match r {
                        // Both trapped: follow Spike into the handler.
                        Err(e) => diff_run(next.take_trap(e), events, i + 1, n),
                        Ok(()) => diff_run(next, events, i + 1, n),
                    }
                },
            }
        }
    }
}

/// Whether `s` contains "ecall".
fn contains_ecall(s: &String) -> (r: bool)
    ensures
        r == mentions_ecall(s@),
{
    let t = s.as_str();
    let n = t.unicode_len();
    let pat = ['e', 'c', 'a', 'l', 'l'];
    assert(pat@ == ecall_chars());
    if n < 5 {
        return false;
    }
    let mut i: usize = 0;
    while i < n - 4
        invariant
            5 <= n == t@.len(),
            i <= n - 4,
            t@ == s@,
            pat@ == ecall_chars(),
            forall|j: int| 0 <= j < i ==> #[trigger] t@.subrange(j, j + 5) != ecall_chars(),
        decreases n - i,
    {
        let mut k: usize = 0;
        let mut same = true;
        while k < 5
            invariant
                i + 5 <= n == t@.len(),
                pat@ == ecall_chars(),
                k <= 5,
                same == (forall|q: int| 0 <= q < k ==> t@[i + q] == pat@[q]),
            decreases 5 - k,
        {
            if t.get_char(i + k) != pat[k] {
                same = false;
            }
            k = k + 1;
        }
        if same {
            assert(t@.subrange(i as int, i + 5) =~= ecall_chars());
            return true;
        }
        assert(t@.subrange(i as int, i + 5) != ecall_chars()) by {
            let q = choose|q: int| 0 <= q < 5 && t@[i + q] != pat@[q];
            assert(t@.subrange(i as int, i + 5)[q] != ecall_chars()[q]);
        }
        i = i + 1;
    }
    false
}

/// Step our Cpu through Spike's events and compare. The comparison must
/// not come to a logged write to a register other than x0-x31.
pub fn run(cpu: &mut Cpu, events: &[Event]) -> (r: DiffResult)
    requires
        old(cpu).wf(),
        !reaches_bad_write(old(cpu)@, events@.map_values(|e: Event| e@), 0),
    ensures
        r == diff_run(old(cpu)@, events@.map_values(|e: Event| e@), 0, 0).1,
        final(cpu).is_state(diff_run(old(cpu)@, events@.map_values(|e: Event| e@), 0, 0).0),
{
    match run_checked(cpu, events) {
        Some(r) => r,
        None => {
            assert(false);
            DiffResult::Lockstep { instructions: 0 }
        },
    }
}

/// `run` for any log: `None` when the comparison comes to a logged write to
/// a register other than x0-x31 (which it cannot read), else the verdict.
pub fn run_checked(cpu: &mut Cpu, events: &[Event]) -> (r: Option<DiffResult>)
    requires
        old(cpu).wf(),
    ensures
        r is None <==> reaches_bad_write(old(cpu)@, events@.map_values(|e: Event| e@), 0),
        r matches Some(d) ==> {
            &&& d == diff_run(old(cpu)@, events@.map_values(|e: Event| e@), 0, 0).1
            &&& final(cpu).is_state(diff_run(old(cpu)@, events@.map_values(|e: Event| e@), 0, 0).0)
        },
{
    let ghost evs = events@.map_values(|e: Event| e@);
    let mut instructions: u64 = 0;
    let mut index: usize = 0;
    proof {
        cpu.lemma_view(old(cpu)@);
    }
    while index < events.len()
        invariant
            evs == events@.map_values(|e: Event| e@),
            reaches_bad_write(old(cpu)@, evs, 0) == reaches_bad_write(cpu@, evs, index as nat),
            cpu.wf(),
            index <= events.len(),
            instructions <= index,
            diff_run(old(cpu)@, evs, 0, 0) == diff_run(cpu@, evs, index as nat, instructions),
        decreases events.len() - index,
    {
        let event = &events[index];
        assert(evs[index as int] == event@);
        if cpu.pc != event.pc() {
            let kind = Divergence::Pc { spike: event.pc(), ours: cpu.pc };
            return Some(DiffResult::Diverged { index, kind });
        }
        match event {
            Event::Commit { raw, write, .. } => {
                // A store-conditional may fail spuriously: the ISA lets
                // the environment drop a reservation at any time, and
                // Spike does so on its internal scheduling boundaries.
                // When the log shows a failed SC, drop our reservation
                // too, so both implementations take the same
                // architecturally-legal path.
                let is_sc = match decode(*raw) {
                    Ok(Inst::ScW { .. }) | Ok(Inst::ScD { .. }) => true,
                    _ => false,
                };
                if is_sc {
                    if let Some((_, result)) = write {
                        if *result != 0 {
                            cpu.reservation = None;
                        }
                    }
                }
                let ghost start = cpu@;
                let stepped = cpu.step();
                proof {
                    cpu.lemma_view(start.step().0);
                    reveal(replay);
                    reveal(logged_sc_failure);
                }
                if let Err(e) = stepped {
                    let kind = Divergence::OurException(e);
                    return Some(DiffResult::Diverged { index, kind });
                }
                instructions = instructions + 1;
                if let Some((rd, spike)) = *write {
                    if rd >= 32 {
                        return None;
                    }
                    let ours = cpu.regs[rd];
                    if ours != spike {
                        let kind = Divergence::Reg { rd, spike, ours };
                        return Some(DiffResult::Diverged { index, kind });
                    }
                }
            },
            Event::Trap { cause, .. } => {
                if contains_ecall(cause) {
                    return Some(DiffResult::LockstepUntilEcall { instructions });
                }
                let ghost start = cpu@;
                let stepped = cpu.step();
                proof {
                    cpu.lemma_view(start.step().0);
                    reveal(replay);
                }
                match stepped {
                    // Both trapped: follow Spike into the handler.
                    Err(e) => {
                        let ghost trapped = cpu@;
                        cpu.trap(&e);
                        proof {
                            cpu.lemma_view(trapped.take_trap(e));
                        }
                    },
                    // We executed what Spike refused (e.g. a CSR we model
                    // too permissively). The startup's mtvec-at-next-label
                    // pattern makes both paths converge; if they do not,
                    // the next event's pc check reports it.
                    Ok(()) => {},
                }
            },
        }
        index = index + 1;
    }
    Some(DiffResult::Lockstep { instructions })
}

/// The event is a trap that an ecall raised.
pub open spec fn is_ecall_trap(ev: EventView) -> bool {
    ev matches EventView::Trap { cause, .. } && mentions_ecall(cause)
}

/// The register write a commit event logs, if any.
pub open spec fn logged_write_of(ev: EventView) -> Option<(usize, u64)> {
    match ev {
        EventView::Commit { write, .. } => write,
        _ => None,
    }
}

/// The number of commit events in `s`.
pub open spec fn commits(s: Seq<EventView>) -> nat
    decreases s.len(),
{
    if s.len() == 0 {
        0
    } else {
        (if s[0] is Commit {
            1nat
        } else {
            0nat
        }) + commits(s.drop_first())
    }
}

/// What a verdict says: a full match counts every commit replayed; a match
/// up to an ecall counts the commits before that ecall's trap event; a
/// divergence names an event of the log; a pc divergence gives that
/// event's pc and ours, which differ, and leaves our machine at its pc; a
/// register divergence names the event's logged write and the value our
/// machine holds in that register, which differs from it.
#[verifier::rlimit(60)]
pub proof fn law_diff_verdicts(m: Machine, events: Seq<EventView>, i: nat, n: u64)
    requires
        i <= events.len() <= usize::MAX,
        n + (events.len() - i) <= u64::MAX,
    ensures
        ({
            let (last, v) = diff_run(m, events, i, n);
            &&& v matches DiffResult::Lockstep { instructions } ==> instructions == n + commits(
                events.subrange(i as int, events.len() as int),
            )
            &&& v matches DiffResult::LockstepUntilEcall { instructions } ==> exists|j: int|
                i <= j < events.len() && is_ecall_trap(#[trigger] events[j]) && instructions == n + commits(
                    events.subrange(i as int, j),
                )
            &&& v matches DiffResult::Diverged { index, kind } ==> {
                &&& i <= index < events.len()
                &&& kind matches Divergence::Pc { spike, ours } ==> spike == events[index as int].pc()
                    && ours == last.pc && spike != ours
                &&& kind matches Divergence::Reg { rd, spike, ours } ==> logged_write_of(
                    events[index as int],
                ) == Some((rd, spike)) && ours == last.x(rd) && spike != ours
            }
        }),
    decreases events.len() - i,
{
    if i < events.len() {
        let ev = events[i as int];
        let rest = events.subrange(i as int, events.len() as int);
        assert(rest.drop_first() =~= events.subrange(i + 1 as int, events.len() as int));
        assert(rest[0] == ev);
        assert(commits(rest) == (if ev is Commit {
            1nat
        } else {
            0nat
        }) + commits(events.subrange(i + 1 as int, events.len() as int)));
        if m.pc == ev.pc() {
            match ev {
                EventView::Commit { .. } => {
                    let start = if logged_sc_failure(ev) {
                        Machine { reservation: None, ..m }
                    } else {
                        m
                    };
                    let next = replay(start).0;
                    law_diff_verdicts(next, events, i + 1, (n + 1) as u64);
                    let (_, v) = diff_run(next, events, i + 1, (n + 1) as u64);
                    if let DiffResult::LockstepUntilEcall { instructions } = v {
                        let j = choose|j: int|
                            i + 1 <= j < events.len() && is_ecall_trap(#[trigger] events[j]) && instructions == (n + 1) as u64 + commits(
                                events.subrange(i + 1 as int, j),
                            );
                        assert(events.subrange(i as int, j).drop_first() =~= events.subrange(i + 1 as int, j));
                        assert(is_ecall_trap(events[j]));
                    }
                },
                EventView::Trap { cause, .. } => {
                    if mentions_ecall(cause) {
                        assert(events.subrange(i as int, i as int) =~= Seq::<EventView>::empty());
                        assert(is_ecall_trap(events[i as int]));
                    } else {
                        let (next, r) = replay(m);
                        let after = match r {
                            Err(e) => next.take_trap(e),
                            Ok(()) => next,
                        };
                        law_diff_verdicts(after, events, i + 1, n);
                        let (_, v) = diff_run(after, events, i + 1, n);
                        if let DiffResult::LockstepUntilEcall { instructions } = v {
                            let j = choose|j: int|
                                i + 1 <= j < events.len() && is_ecall_trap(#[trigger] events[j]) && instructions == n + commits(
                                    events.subrange(i + 1 as int, j),
                                );
                            assert(events.subrange(i as int, j).drop_first() =~= events.subrange(i + 1 as int, j));
                            assert(is_ecall_trap(events[j]));
                        }
                    }
                },
            }
        }
    } else {
        assert(events.subrange(i as int, events.len() as int) =~= Seq::<EventView>::empty());
    }
}

/// Cutting the log after event `k`: a comparison that has not stopped
/// before `k` runs the first `k` events clean and carries on from where
/// that left it; one that stops before `k` stops alike on the cut log.
#[verifier::rlimit(60)]
proof fn lemma_diff_prefix(m: Machine, events: Seq<EventView>, i: nat, n: u64, k: nat)
    requires
        i <= k <= events.len() <= usize::MAX,
        n + (events.len() - i) <= u64::MAX,
    ensures
        ({
            let v = diff_run(m, events, i, n).1;
            let (s, c) = diff_run(m, events.take(k as int), i, n);
            &&& (v matches DiffResult::Diverged { index, .. } && index >= k) ==> (c is Lockstep
                && diff_run(m, events, i, n) == diff_run(s, events, k, c->Lockstep_instructions))
            &&& (v matches DiffResult::Diverged { index, .. } && index < k) ==> diff_run(
                m,
                events.take(k as int),
                i,
                n,
            ) == diff_run(m, events, i, n)
        }),
    decreases events.len() - i,
{
    let cut = events.take(k as int);
    law_diff_verdicts(m, events, i, n);
    if i < k {
        let ev = events[i as int];
        assert(cut[i as int] == ev);
        if m.pc == ev.pc() {
            match ev {
                EventView::Commit { .. } => {
                    let start = if logged_sc_failure(ev) {
                        Machine { reservation: None, ..m }
                    } else {
                        m
                    };
                    let next = replay(start).0;
                    lemma_diff_prefix(next, events, i + 1, (n + 1) as u64, k);
                },
                EventView::Trap { cause, .. } => {
                    if !mentions_ecall(cause) {
                        let (next, r) = replay(m);
                        let after = match r {
                            Err(e) => next.take_trap(e),
                            Ok(()) => next,
                        };
                        lemma_diff_prefix(after, events, i + 1, n, k);
                    }
                },
            }
        }
    }
}

/// There are no more commits than events.
proof fn lemma_commits_bound(s: Seq<EventView>)
    ensures
        commits(s) <= s.len(),
    decreases s.len(),
{
    if s.len() > 0 {
        lemma_commits_bound(s.drop_first());
    }
}

/// The step the comparison replays is our machine's step.
pub proof fn law_replay_is_step(x: Machine)
    ensures
        replay(x) == x.step(),
{
    reveal(replay);
}

/// A comparison that reports our exception at the event it starts from
/// replayed a commit there, at our pc, and our step raised it.
proof fn lemma_our_exception(s: Machine, events: Seq<EventView>, i: nat, c: u64, e: Exception)
    requires
        i < events.len() <= usize::MAX,
        c + (events.len() - i) <= u64::MAX,
        diff_run(s, events, i, c).1 == (DiffResult::Diverged { index: i as usize, kind: Divergence::OurException(e) }),
    ensures
        events[i as int] is Commit,
        s.pc == events[i as int].pc(),
        replay(s).1 == Err::<(), Exception>(e) || replay(Machine { reservation: None, ..s }).1 == Err::<
            (),
            Exception,
        >(e),
{
    let ev = events[i as int];
    if ev is Commit {
        let start = if logged_sc_failure(ev) {
            Machine { reservation: None, ..s }
        } else {
            s
        };
        law_diff_verdicts(replay(start).0, events, i + 1, (c + 1) as u64);
    }
    if ev is Trap && !mentions_ecall(ev->Trap_cause) {
        law_diff_verdicts(replay(s).0, events, i + 1, c);
        if let Err(e2) = replay(s).1 {
            law_diff_verdicts(replay(s).0.take_trap(e2), events, i + 1, c);
        }
    }
}

/// A divergence is reported at the event where the comparison stopped:
/// every event before it replays without divergence (the log cut just
/// before it compares clean), and the log cut just after it gives the same
/// verdict.
pub proof fn law_divergence_is_where_it_stops(m: Machine, events: Seq<EventView>)
    requires
        events.len() <= usize::MAX,
        events.len() <= u64::MAX,
    ensures
        diff_run(m, events, 0, 0).1 matches DiffResult::Diverged { index, kind } ==> {
            &&& index < events.len()
            &&& diff_run(m, events.take(index as int), 0, 0).1 is Lockstep
            &&& diff_run(m, events.take(index + 1), 0, 0).1 == diff_run(m, events, 0, 0).1
        },
{
    law_diff_verdicts(m, events, 0, 0);
    if let DiffResult::Diverged { index, kind } = diff_run(m, events, 0, 0).1 {
        lemma_diff_prefix(m, events, 0, 0, index as nat);
        lemma_diff_prefix(m, events, 0, 0, (index + 1) as nat);
    }
}

/// When our machine raised the exception, the event reported is a commit
/// at our pc in the state the clean prefix reached, and our step from there
/// raised it (after dropping the reservation where the log shows a failed
/// store-conditional). The replayed step is our step (`law_replay_is_step`).
pub proof fn law_our_exception_is_our_step(m: Machine, events: Seq<EventView>)
    requires
        events.len() <= usize::MAX,
        events.len() <= u64::MAX,
    ensures
        diff_run(m, events, 0, 0).1 matches DiffResult::Diverged {
            index,
            kind: Divergence::OurException(e),
        } ==> {
            let s = diff_run(m, events.take(index as int), 0, 0).0;
            &&& events[index as int] is Commit
            &&& s.pc == events[index as int].pc()
            &&& replay(s).1 == Err::<(), Exception>(e) || replay(Machine { reservation: None, ..s }).1
                == Err::<(), Exception>(e)
        },
{
    law_diff_verdicts(m, events, 0, 0);
    if let DiffResult::Diverged { index, kind: Divergence::OurException(e) } = diff_run(
        m,
        events,
        0,
        0,
    ).1 {
        lemma_diff_prefix(m, events, 0, 0, index as nat);
        let cut = events.take(index as int);
        let (s, c) = diff_run(m, cut, 0, 0);
        law_diff_verdicts(m, cut, 0, 0);
        assert(cut.subrange(0, cut.len() as int) =~= cut);
        lemma_commits_bound(cut);
        lemma_our_exception(s, events, index as nat, c->Lockstep_instructions, e);
    }
}

/// A logged trap at our pc: an ecall's ends the comparison as matching up
/// to it; for any other, our machine steps, and if it traps too it enters
/// its handler (the CSRs record the trap, pc goes to mtvec) before the next
/// event is compared; if it does not trap, the next event's pc check
/// decides.
pub proof fn law_trap_events_are_followed(m: Machine, events: Seq<EventView>, i: nat, n: u64)
    requires
        i < events.len(),
        events[i as int] is Trap,
        m.pc == events[i as int].pc(),
    ensures
        mentions_ecall(events[i as int]->Trap_cause) ==> diff_run(m, events, i, n) == (
            m,
            DiffResult::LockstepUntilEcall { instructions: n },
        ),
        !mentions_ecall(events[i as int]->Trap_cause) ==> diff_run(m, events, i, n) == match m.step() {
            (next, Err(e)) => diff_run(next.take_trap(e), events, i + 1, n),
            (next, Ok(())) => diff_run(next, events, i + 1, n),
        },
{
    law_replay_is_step(m);
}

/// The index of the first event at `pc`, if any (where a comparison starts
/// when the reference ran code of its own before reaching the program).
pub fn start_index(events: &[Event], pc: u64) -> (r: Option<usize>)
    ensures
        match r {
            Some(i) => i < events@.len() && events@[i as int]@.pc() == pc && forall|j: int|
                0 <= j < i ==> #[trigger] events@[j]@.pc() != pc,
            None => forall|j: int| 0 <= j < events@.len() ==> #[trigger] events@[j]@.pc() != pc,
        },
{
    let mut i: usize = 0;
    while i < events.len()
        invariant
            i <= events@.len(),
            forall|j: int| 0 <= j < i ==> #[trigger] events@[j]@.pc() != pc,
        decreases events.len() - i,
    {
        if events[i].pc() == pc {
            return Some(i);
        }
        i = i + 1;
    }
    None
}

// --- Reading Spike's log -----------------------------------------------------------

pub open spec fn word_core() -> Seq<char> {
    seq!['c', 'o', 'r', 'e']
}

pub open spec fn word_exception() -> Seq<char> {
    seq!['e', 'x', 'c', 'e', 'p', 't', 'i', 'o', 'n']
}

pub open spec fn word_epc() -> Seq<char> {
    seq!['e', 'p', 'c']
}

pub open spec fn word_tval() -> Seq<char> {
    seq!['t', 'v', 'a', 'l']
}

/// `0x…` → value (also accepts a `(0x…)`-wrapped instruction word): the
/// parentheses are trimmed, "0x" is required, the rest is read in base 16.
pub open spec fn hex_value(tok: Seq<char>) -> Option<u64> {
    let t = trim_end(trim_start(tok, '('), ')');
    if t.len() >= 2 && t[0] == '0' && t[1] == 'x' {
        match parse_unsigned(t.skip(2), 16, u64::MAX as nat) {
            Some(v) => Some(v as u64),
            None => None,
        }
    } else {
        None
    }
}

/// `x<n>` → n, the name of an x-register write among a commit's effects.
pub open spec fn register_name(tok: Seq<char>) -> Option<usize> {
    if tok.len() >= 1 && tok[0] == 'x' {
        match parse_unsigned(tok.skip(1), 10, usize::MAX as nat) {
            Some(v) => Some(v as usize),
            None => None,
        }
    } else {
        None
    }
}

/// The register write read from the effect pairs (rest[j], rest[j + 1])
/// for j < k: every register name sets it to its value (or to none when the
/// value is not hexadecimal), so the last one wins.
pub open spec fn writes_upto(rest: Seq<Seq<char>>, k: nat) -> Option<(usize, u64)>
    decreases k,
{
    if k == 0 {
        None
    } else {
        match register_name(rest[k - 1]) {
            Some(rd) => match hex_value(rest[k as int]) {
                Some(v) => Some((rd, v)),
                None => None,
            },
            None => writes_upto(rest, (k - 1) as nat),
        }
    }
}

/// The register write of a commit line, from the tokens after the raw word.
pub open spec fn logged_write(rest: Seq<Seq<char>>) -> Option<(usize, u64)> {
    if rest.len() < 2 {
        None
    } else {
        writes_upto(rest, (rest.len() - 1) as nat)
    }
}

/// A logged register write names its register in decimal: the effect
/// tokens `x<n>` (n in decimal) and `0x<v>` (v in hexadecimal) are a write
/// of v to register n.
pub proof fn law_register_writes_are_decimal(n: nat, v: u64)
    requires
        n < 32,
    ensures
        logged_write(seq![seq!['x'] + digits(n, 10), seq!['0', 'x'] + digits(v as nat, 16)]) == Some(
            (n as usize, v),
        ),
{
    let name = seq!['x'] + digits(n, 10);
    let value = seq!['0', 'x'] + digits(v as nat, 16);
    law_printed_numbers_parse_back(n, 10, usize::MAX as nat);
    law_printed_numbers_parse_back(v as nat, 16, u64::MAX as nat);
    assert(name.skip(1) =~= digits(n, 10));
    assert(value.skip(2) =~= digits(v as nat, 16));
    assert(trim_start(value, '(') == value);
    assert(value.last() == digits(v as nat, 16).last());
    assert(trim_end(value, ')') == value);
    let rest = seq![name, value];
    assert(rest[0] == name && rest[1] == value);
}

/// A run of plain spaces.
pub open spec fn is_blanks(g: Seq<char>) -> bool {
    g.len() > 0 && forall|i: int| 0 <= i < g.len() ==> g[i] == ' '
}

/// A commit line as Spike writes it: `core`, the hart `0:`, the privilege
/// character `p`, the pc, the raw word in parentheses, then the write of
/// `v` to register x`rd`; numbers in hexadecimal after `0x`, the register
/// in decimal, and the six gaps `g` runs of spaces.
pub open spec fn commit_line_text(
    p: char,
    pc: u64,
    raw: u32,
    rd: nat,
    v: u64,
    g: Seq<Seq<char>>,
) -> Seq<char> {
    seq!['c', 'o', 'r', 'e'] + g[0] + seq!['0', ':'] + g[1] + seq![p] + g[2] + (seq!['0', 'x']
        + digits(pc as nat, 16)) + g[3] + (seq!['(', '0', 'x'] + digits(raw as nat, 16) + seq![')'])
        + g[4] + (seq!['x'] + digits(rd, 10)) + g[5] + (seq!['0', 'x'] + digits(v as nat, 16))
}

/// No newline in `s`.
pub open spec fn one_line(s: Seq<char>) -> bool {
    forall|j: int| 0 <= j < s.len() ==> s[j] != '\n'
}

/// A word and spaces continue a line.
proof fn lemma_one_line_join(a: Seq<char>, g: Seq<char>, w: Seq<char>)
    requires
        one_line(a),
        is_blanks(g),
        is_word(w),
    ensures
        one_line(a + g + w),
        is_gap(g),
{
    assert forall|j: int| 0 <= j < w.len() implies w[j] != '\n' by {
        assert(!is_space(w[j]));
    }
    assert forall|j: int| 0 <= j < g.len() implies is_space(#[trigger] g[j]) by {
        assert(g[j] == ' ');
    }
}

/// Commit lines are read field by field: a line in Spike's commit format is
/// one commit event with its pc, raw word and register write.
#[verifier::rlimit(50)]
#[verifier::spinoff_prover]
pub proof fn law_commit_lines_parse(p: char, pc: u64, raw: u32, rd: nat, v: u64, g: Seq<Seq<char>>)
    requires
        !is_space(p),
        (p as u32) < 0x80,
        rd < 32,
        g.len() == 6,
        forall|k: int| 0 <= k < 6 ==> is_blanks(#[trigger] g[k]),
    ensures
        log_events(commit_line_text(p, pc, raw, rd, v, g)) == seq![
            EventView::Commit { pc, raw, write: Some((rd as usize, v)) },
        ],
{
    let w0 = seq!['c', 'o', 'r', 'e'];
    let w1 = seq!['0', ':'];
    let w2 = seq![p];
    let w3 = seq!['0', 'x'] + digits(pc as nat, 16);
    let w4 = seq!['(', '0', 'x'] + digits(raw as nat, 16) + seq![')'];
    let w5 = seq!['x'] + digits(rd, 10);
    let w6 = seq!['0', 'x'] + digits(v as nat, 16);
    lemma_digits_are_a_word(pc as nat, 16);
    lemma_digits_are_a_word(raw as nat, 16);
    lemma_digits_are_a_word(rd, 10);
    lemma_digits_are_a_word(v as nat, 16);
    assert(is_word(w0) && is_word(w1) && is_word(w2));
    assert(is_word(w3) && is_word(w4) && is_word(w5) && is_word(w6)) by {
        assert forall|i: int| 0 <= i < w3.len() implies !is_space(#[trigger] w3[i]) by {
            if i >= 2 {
                assert(w3[i] == digits(pc as nat, 16)[i - 2]);
            }
        }
        assert forall|i: int| 0 <= i < w4.len() implies !is_space(#[trigger] w4[i]) by {
            if 3 <= i < w4.len() - 1 {
                assert(w4[i] == digits(raw as nat, 16)[i - 3]);
            }
        }
        assert forall|i: int| 0 <= i < w5.len() implies !is_space(#[trigger] w5[i]) by {
            if i >= 1 {
                assert(w5[i] == digits(rd, 10)[i - 1]);
            }
        }
        assert forall|i: int| 0 <= i < w6.len() implies !is_space(#[trigger] w6[i]) by {
            if i >= 2 {
                assert(w6[i] == digits(v as nat, 16)[i - 2]);
            }
        }
    }
    let t1 = w0 + g[0] + w1;
    let t2 = t1 + g[1] + w2;
    let t3 = t2 + g[2] + w3;
    let t4 = t3 + g[3] + w4;
    let t5 = t4 + g[4] + w5;
    let t6 = t5 + g[5] + w6;
    assert(t6 == commit_line_text(p, pc, raw, rd, v, g));
    assert(is_blanks(g[0]) && is_blanks(g[1]) && is_blanks(g[2]) && is_blanks(g[3]) && is_blanks(g[4])
        && is_blanks(g[5]));
    assert(one_line(w0)) by {
        assert(!is_space(w0[0]) && !is_space(w0[1]) && !is_space(w0[2]) && !is_space(w0[3]));
    }
    lemma_one_line_join(w0, g[0], w1);
    lemma_one_line_join(t1, g[1], w2);
    lemma_one_line_join(t2, g[2], w3);
    lemma_one_line_join(t3, g[3], w4);
    lemma_one_line_join(t4, g[4], w5);
    lemma_one_line_join(t5, g[5], w6);
    lemma_tokens_word(w0);
    lemma_tokens_then_word(w0, g[0], w1);
    lemma_tokens_then_word(t1, g[1], w2);
    lemma_tokens_then_word(t2, g[2], w3);
    lemma_tokens_then_word(t3, g[3], w4);
    lemma_tokens_then_word(t4, g[4], w5);
    lemma_tokens_then_word(t5, g[5], w6);
    let toks = tokens(t6);
    assert(toks =~= seq![w0, w1, w2, w3, w4, w5, w6]);
    lemma_split_lines_one(t6);
    assert(split_lines(t6).drop_last() =~= Seq::<Seq<char>>::empty());
    // the fields
    law_printed_numbers_parse_back(pc as nat, 16, u64::MAX as nat);
    law_printed_numbers_parse_back(raw as nat, 16, u64::MAX as nat);
    assert(w3.skip(2) =~= digits(pc as nat, 16));
    assert(trim_start(w3, '(') == w3);
    assert(trim_end(w3, ')') == w3);
    let w4a = w4.drop_first();
    assert(w4a =~= seq!['0', 'x'] + digits(raw as nat, 16) + seq![')']);
    assert(trim_start(w4a, '(') == w4a);
    assert(trim_start(w4, '(') == w4a);
    let w4b = seq!['0', 'x'] + digits(raw as nat, 16);
    assert(w4a.drop_last() =~= w4b);
    assert(trim_end(w4b, ')') == w4b);
    assert(trim_end(w4a, ')') == w4b);
    assert(w4b.skip(2) =~= digits(raw as nat, 16));
    assert(hex_value(w3) == Some(pc));
    assert(hex_value(w4) == Some(raw as u64));
    law_register_writes_are_decimal(rd, v);
    assert(toks.skip(5) =~= seq![w5, w6]);
    assert(w0 =~= word_core());
    assert(toks[0] == word_core() && toks[2] == w2 && toks[3] == w3 && toks[4] == w4);
    assert(!is_trap_line(toks) && !is_tval_line(toks));
    assert(is_commit_line(toks));
    assert(((raw as u64) as u32) == raw);
    let ev = EventView::Commit { pc, raw, write: Some((rd as usize, v)) };
    assert(commit_line(toks) == Some(ev));
    let lines = split_lines(t6);
    assert(lines == seq![t6]);
    assert(lines.drop_last() =~= Seq::<Seq<char>>::empty());
    assert(parse_lines(lines.drop_last()) == Seq::<EventView>::empty());
    assert(parse_lines(lines) == parse_line(Seq::<EventView>::empty(), toks));
    assert(Seq::<EventView>::empty().push(ev) =~= seq![ev]);
}

/// A trap line as Spike writes it: `core 0: exception <cause>, epc 0x<epc>`
/// (gaps `g`, runs of spaces).
pub open spec fn trap_line_text(cause: Seq<char>, epc: u64, g: Seq<Seq<char>>) -> Seq<char> {
    seq!['c', 'o', 'r', 'e'] + g[0] + seq!['0', ':'] + g[1] + word_exception() + g[2] + (cause
        + seq![',']) + g[3] + word_epc() + g[4] + (seq!['0', 'x'] + digits(epc as nat, 16))
}

/// The tval line that follows a trap: `core 0: tval 0x<tval>`.
pub open spec fn tval_line_text(tval: u64, g: Seq<Seq<char>>) -> Seq<char> {
    seq!['c', 'o', 'r', 'e'] + g[0] + seq!['0', ':'] + g[1] + word_tval() + g[2] + (seq!['0', 'x']
        + digits(tval as nat, 16))
}

/// `0x` and the hex digits of `n` are a word that reads as `n`.
proof fn lemma_hex_word(n: u64)
    ensures
        is_word(seq!['0', 'x'] + digits(n as nat, 16)),
        hex_value(seq!['0', 'x'] + digits(n as nat, 16)) == Some(n),
{
    let w = seq!['0', 'x'] + digits(n as nat, 16);
    lemma_digits_are_a_word(n as nat, 16);
    law_printed_numbers_parse_back(n as nat, 16, u64::MAX as nat);
    assert forall|i: int| 0 <= i < w.len() implies !is_space(#[trigger] w[i]) by {
        if i >= 2 {
            assert(w[i] == digits(n as nat, 16)[i - 2]);
        }
    }
    assert(w.skip(2) =~= digits(n as nat, 16));
    assert(trim_start(w, '(') == w);
    assert(trim_end(w, ')') == w);
}

/// The tokens of a trap line.
proof fn lemma_trap_line_tokens(cause: Seq<char>, epc: u64, g: Seq<Seq<char>>)
    requires
        is_word(cause),
        g.len() == 5,
        forall|k: int| 0 <= k < 5 ==> is_blanks(#[trigger] g[k]),
    ensures
        tokens(trap_line_text(cause, epc, g)) == seq![
            seq!['c', 'o', 'r', 'e'],
            seq!['0', ':'],
            word_exception(),
            cause + seq![','],
            word_epc(),
            seq!['0', 'x'] + digits(epc as nat, 16),
        ],
        one_line(trap_line_text(cause, epc, g)),
{
    let w0 = seq!['c', 'o', 'r', 'e'];
    let w1 = seq!['0', ':'];
    let w2 = word_exception();
    let w3 = cause + seq![','];
    let w4 = word_epc();
    let w5 = seq!['0', 'x'] + digits(epc as nat, 16);
    lemma_hex_word(epc);
    assert(is_word(w0) && is_word(w1) && is_word(w2) && is_word(w4));
    assert(is_word(w3)) by {
        assert forall|i: int| 0 <= i < w3.len() implies !is_space(#[trigger] w3[i]) by {
            if i < cause.len() {
                assert(w3[i] == cause[i]);
            }
        }
    }
    assert(is_blanks(g[0]) && is_blanks(g[1]) && is_blanks(g[2]) && is_blanks(g[3]) && is_blanks(g[4]));
    let t1 = w0 + g[0] + w1;
    let t2 = t1 + g[1] + w2;
    let t3 = t2 + g[2] + w3;
    let t4 = t3 + g[3] + w4;
    let t5 = t4 + g[4] + w5;
    assert(one_line(w0)) by {
        assert(!is_space(w0[0]) && !is_space(w0[1]) && !is_space(w0[2]) && !is_space(w0[3]));
    }
    lemma_one_line_join(w0, g[0], w1);
    lemma_one_line_join(t1, g[1], w2);
    lemma_one_line_join(t2, g[2], w3);
    lemma_one_line_join(t3, g[3], w4);
    lemma_one_line_join(t4, g[4], w5);
    lemma_tokens_word(w0);
    lemma_tokens_then_word(w0, g[0], w1);
    lemma_tokens_then_word(t1, g[1], w2);
    lemma_tokens_then_word(t2, g[2], w3);
    lemma_tokens_then_word(t3, g[3], w4);
    lemma_tokens_then_word(t4, g[4], w5);
    assert(tokens(t5) =~= seq![w0, w1, w2, w3, w4, w5]);
}

/// The tokens of a tval line.
proof fn lemma_tval_line_tokens(tval: u64, g: Seq<Seq<char>>)
    requires
        g.len() == 3,
        forall|k: int| 0 <= k < 3 ==> is_blanks(#[trigger] g[k]),
    ensures
        tokens(tval_line_text(tval, g)) == seq![
            seq!['c', 'o', 'r', 'e'],
            seq!['0', ':'],
            word_tval(),
            seq!['0', 'x'] + digits(tval as nat, 16),
        ],
        one_line(tval_line_text(tval, g)),
{
    let w0 = seq!['c', 'o', 'r', 'e'];
    let w1 = seq!['0', ':'];
    let w2 = word_tval();
    let w3 = seq!['0', 'x'] + digits(tval as nat, 16);
    lemma_hex_word(tval);
    assert(is_word(w0) && is_word(w1) && is_word(w2));
    assert(is_blanks(g[0]) && is_blanks(g[1]) && is_blanks(g[2]));
    let t1 = w0 + g[0] + w1;
    let t2 = t1 + g[1] + w2;
    let t3 = t2 + g[2] + w3;
    assert(one_line(w0)) by {
        assert(!is_space(w0[0]) && !is_space(w0[1]) && !is_space(w0[2]) && !is_space(w0[3]));
    }
    lemma_one_line_join(w0, g[0], w1);
    lemma_one_line_join(t1, g[1], w2);
    lemma_one_line_join(t2, g[2], w3);
    lemma_tokens_word(w0);
    lemma_tokens_then_word(w0, g[0], w1);
    lemma_tokens_then_word(t1, g[1], w2);
    lemma_tokens_then_word(t2, g[2], w3);
    assert(tokens(t3) =~= seq![w0, w1, w2, w3]);
}

/// Trap lines are read field by field, and the tval line after one fills
/// in its tval: a trap line in Spike's format followed by its tval line is
/// one trap event with its cause, epc and tval.
#[verifier::rlimit(50)]
#[verifier::spinoff_prover]
pub proof fn law_trap_lines_parse(
    cause: Seq<char>,
    epc: u64,
    tval: u64,
    g: Seq<Seq<char>>,
    h: Seq<Seq<char>>,
)
    requires
        is_word(cause),
        cause.last() != ',',
        g.len() == 5,
        forall|k: int| 0 <= k < 5 ==> is_blanks(#[trigger] g[k]),
        h.len() == 3,
        forall|k: int| 0 <= k < 3 ==> is_blanks(#[trigger] h[k]),
    ensures
        log_events(trap_line_text(cause, epc, g)) == seq![
            EventView::Trap { epc, cause, tval: None },
        ],
        log_events(trap_line_text(cause, epc, g) + seq!['\n'] + tval_line_text(tval, h)) == seq![
            EventView::Trap { epc, cause, tval: Some(tval) },
        ],
{
    let a = trap_line_text(cause, epc, g);
    let b = tval_line_text(tval, h);
    lemma_trap_line_tokens(cause, epc, g);
    lemma_tval_line_tokens(tval, h);
    lemma_hex_word(epc);
    lemma_hex_word(tval);
    let ta = tokens(a);
    let tb = tokens(b);
    assert(ta[0] =~= word_core() && ta[2] =~= word_exception() && ta[4] =~= word_epc());
    assert(is_trap_line(ta));
    let w3 = cause + seq![','];
    assert(w3.drop_last() =~= cause);
    assert(trim_end(cause, ',') == cause);
    assert(trim_end(w3, ',') == cause);
    let ev = EventView::Trap { epc, cause, tval: None };
    assert(trap_line(ta) == Some(ev));
    assert(tb[0] =~= word_core() && tb[2] =~= word_tval());
    assert(!is_trap_line(tb) && is_tval_line(tb));
    lemma_split_lines_one(a);
    lemma_split_lines_one(b);
    lemma_split_lines_join(a, b);
    let one = seq![a];
    assert(one.drop_last() =~= Seq::<Seq<char>>::empty());
    assert(one.last() == a);
    assert(parse_lines(one.drop_last()) == Seq::<EventView>::empty());
    assert(parse_lines(one) == parse_line(Seq::<EventView>::empty(), ta));
    assert(Seq::<EventView>::empty().push(ev) =~= seq![ev]);
    let two = seq![a] + seq![b];
    assert(two.drop_last() =~= one);
    assert(two.last() == b);
    let filled = EventView::Trap { epc, cause, tval: Some(tval) };
    assert(with_tval(seq![ev], tval) =~= seq![filled]);
}

/// A trap line: `core 0: exception <cause>, epc 0x…`.
pub open spec fn is_trap_line(toks: Seq<Seq<char>>) -> bool {
    toks.len() == 6 && toks[0] == word_core() && toks[2] == word_exception() && toks[4] == word_epc()
}

/// The tval line that follows a trap: `core 0: tval 0x…`.
pub open spec fn is_tval_line(toks: Seq<Seq<char>>) -> bool {
    toks.len() == 4 && toks[0] == word_core() && toks[2] == word_tval()
}

/// A commit line: `core 0: <prv> 0x<pc> (0x<raw>) <effects>…`, where the
/// privilege level is a single ASCII character (disassembly lines have the
/// pc third).
pub open spec fn is_commit_line(toks: Seq<Seq<char>>) -> bool {
    toks.len() >= 5 && toks[0] == word_core() && toks[2].len() == 1 && (toks[2][0] as u32) < 0x80
}

/// The trap a trap line reports (cause without its trailing commas), if
/// its epc reads.
pub open spec fn trap_line(toks: Seq<Seq<char>>) -> Option<EventView> {
    match hex_value(toks[5]) {
        Some(epc) => Some(EventView::Trap { epc, cause: trim_end(toks[3], ','), tval: None }),
        None => None,
    }
}

/// The commit a commit line reports, if its pc and raw word read.
pub open spec fn commit_line(toks: Seq<Seq<char>>) -> Option<EventView> {
    match (hex_value(toks[3]), hex_value(toks[4])) {
        (Some(pc), Some(raw)) => Some(
            EventView::Commit { pc, raw: raw as u32, write: logged_write(toks.skip(5)) },
        ),
        _ => None,
    }
}

/// The events with `v` as the tval of the last one, if that is a trap.
pub open spec fn with_tval(evs: Seq<EventView>, v: u64) -> Seq<EventView> {
    if evs.len() > 0 && evs.last() is Trap {
        evs.update(
            evs.len() - 1,
            EventView::Trap { epc: evs.last()->Trap_epc, cause: evs.last()->Trap_cause, tval: Some(v) },
        )
    } else {
        evs
    }
}

/// The events after reading one line, given as its tokens: a trap line
/// adds a trap, a tval line fills in the tval of the trap just read, a
/// commit line adds a commit, and anything else (disassembly, symbol
/// annotations) changes nothing.
pub open spec fn parse_line(evs: Seq<EventView>, toks: Seq<Seq<char>>) -> Seq<EventView> {
    if is_trap_line(toks) {
        match trap_line(toks) {
            Some(e) => evs.push(e),
            None => evs,
        }
    } else if is_tval_line(toks) {
        match hex_value(toks[3]) {
            Some(v) => with_tval(evs, v),
            None => evs,
        }
    } else if is_commit_line(toks) {
        match commit_line(toks) {
            Some(e) => evs.push(e),
            None => evs,
        }
    } else {
        evs
    }
}

/// The events read from `lines`, in order.
pub open spec fn parse_lines(lines: Seq<Seq<char>>) -> Seq<EventView>
    decreases lines.len(),
{
    if lines.len() == 0 {
        Seq::empty()
    } else {
        parse_line(parse_lines(lines.drop_last()), tokens(lines.last()))
    }
}

/// The events of a whole log, read line by line.
pub open spec fn log_events(log: Seq<char>) -> Seq<EventView> {
    parse_lines(split_lines(log))
}

/// A line that reads as no event: not a trap, tval or commit line (a
/// disassembly line, a symbol annotation, a blank line).
pub open spec fn is_other_line(line: Seq<char>) -> bool {
    let toks = tokens(line);
    !is_trap_line(toks) && !is_tval_line(toks) && !is_commit_line(toks)
}

/// Splitting at a newline splits into the pieces before it and after it.
proof fn lemma_split_lines_join(s: Seq<char>, t: Seq<char>)
    ensures
        split_lines(s + seq!['\n'] + t) == split_lines(s) + split_lines(t),
    decreases t.len(),
{
    let st = s + seq!['\n'] + t;
    if t.len() == 0 {
        assert(st.drop_last() =~= s);
        assert(split_lines(s).push(Seq::<char>::empty()) =~= split_lines(s) + seq![Seq::<char>::empty()]);
    } else {
        assert(st.drop_last() =~= s + seq!['\n'] + t.drop_last());
        lemma_split_lines_join(s, t.drop_last());
        lemma_split_lines_nonempty(t.drop_last());
        let p = split_lines(s) + split_lines(t.drop_last());
        if t.last() == '\n' {
            assert(p.push(Seq::<char>::empty()) =~= split_lines(s) + split_lines(t));
        } else {
            assert(p.drop_last().push(p.last().push(t.last())) =~= split_lines(s) + split_lines(t));
        }
    }
}

/// A text without a newline is one line.
proof fn lemma_split_lines_one(x: Seq<char>)
    requires
        forall|j: int| 0 <= j < x.len() ==> x[j] != '\n',
    ensures
        split_lines(x) == seq![x],
    decreases x.len(),
{
    if x.len() > 0 {
        lemma_split_lines_one(x.drop_last());
        assert(x.last() != '\n');
        assert(x.drop_last().push(x.last()) =~= x);
        let p = seq![x.drop_last()];
        assert(p.last() == x.drop_last());
        assert(p.drop_last().push(p.last().push(x.last())) =~= seq![x]);
        assert(split_lines(x) == p.drop_last().push(p.last().push(x.last())));
    } else {
        assert(x =~= Seq::<char>::empty());
    }
}

/// Reading a line that reads as no event, anywhere, changes nothing.
proof fn lemma_parse_lines_skip(a: Seq<Seq<char>>, x: Seq<char>, b: Seq<Seq<char>>)
    requires
        is_other_line(x),
    ensures
        parse_lines(a + seq![x] + b) == parse_lines(a + b),
    decreases b.len(),
{
    if b.len() == 0 {
        assert((a + seq![x] + b).drop_last() =~= a);
        assert(a + b =~= a);
    } else {
        assert((a + seq![x] + b).drop_last() =~= a + seq![x] + b.drop_last());
        assert((a + b).drop_last() =~= a + b.drop_last());
        lemma_parse_lines_skip(a, x, b.drop_last());
    }
}

/// Lines that are not events do not count: inserting one between two logs
/// gives the events of the two logs alone (a tval line after it still
/// fills in the trap before it).
pub proof fn law_other_lines_are_skipped(a: Seq<char>, x: Seq<char>, b: Seq<char>)
    requires
        forall|j: int| 0 <= j < x.len() ==> x[j] != '\n',
        is_other_line(x),
    ensures
        log_events(a + seq!['\n'] + x + seq!['\n'] + b) == log_events(a + seq!['\n'] + b),
{
    lemma_split_lines_join(a, x + seq!['\n'] + b);
    assert(a + seq!['\n'] + x + seq!['\n'] + b =~= a + seq!['\n'] + (x + seq!['\n'] + b));
    lemma_split_lines_join(x, b);
    lemma_split_lines_one(x);
    lemma_split_lines_join(a, b);
    assert(split_lines(a) + (seq![x] + split_lines(b)) =~= split_lines(a) + seq![x] + split_lines(b));
    lemma_parse_lines_skip(split_lines(a), x, split_lines(b));
}

/// Splitting has at least one piece.
proof fn lemma_split_lines_nonempty(s: Seq<char>)
    ensures
        split_lines(s).len() >= 1,
    decreases s.len(),
{
    if s.len() > 0 {
        lemma_split_lines_nonempty(s.drop_last());
    }
}

/// Reading on past the start of a line, up to a point before its end,
/// only grows the last piece.
proof fn lemma_split_lines_extend(s: Seq<char>, start: int, end: int)
    requires
        0 <= start <= end <= s.len(),
        forall|j: int| start <= j < end ==> s[j] != '\n',
        split_lines(s.take(start)).last() == Seq::<char>::empty(),
    ensures
        split_lines(s.take(end)) == split_lines(s.take(start)).drop_last().push(
            s.subrange(start, end),
        ),
    decreases end - start,
{
    let p = split_lines(s.take(start));
    lemma_split_lines_nonempty(s.take(start));
    if end == start {
        assert(s.subrange(start, end) =~= Seq::<char>::empty());
        assert(p.drop_last().push(p.last()) =~= p);
    } else {
        lemma_split_lines_extend(s, start, end - 1);
        assert(s.take(end).drop_last() =~= s.take(end - 1));
        assert(s.take(end).last() == s[end - 1]);
        let q = split_lines(s.take(end - 1));
        assert(q.drop_last() =~= p.drop_last());
        assert(s.subrange(start, end - 1).push(s[end - 1]) =~= s.subrange(start, end));
        assert(q.drop_last().push(q.last().push(s[end - 1])) =~= p.drop_last().push(
            s.subrange(start, end),
        ));
    }
}

/// The view of a list of events.
pub open spec fn events_view(evs: Seq<Event>) -> Seq<EventView> {
    evs.map_values(|e: Event| e@)
}

/// `0x…` at `chars[a..b]`, as `hex_value` reads it.
fn hex_at(chars: &Vec<char>, a: usize, b: usize) -> (r: Option<u64>)
    requires
        a <= b <= chars@.len(),
    ensures
        r == hex_value(chars@.subrange(a as int, b as int)),
{
    let ghost tok = chars@.subrange(a as int, b as int);
    let mut lo = a;
    while lo < b && chars[lo] == '('
        invariant
            a <= lo <= b <= chars@.len(),
            trim_start(tok, '(') == trim_start(chars@.subrange(lo as int, b as int), '('),
        decreases b - lo,
    {
        assert(chars@.subrange(lo as int, b as int).drop_first() =~= chars@.subrange(lo + 1, b as int));
        lo = lo + 1;
    }
    assert(trim_start(tok, '(') == chars@.subrange(lo as int, b as int));
    let mut hi = b;
    while hi > lo && chars[hi - 1] == ')'
        invariant
            a <= lo <= hi <= b <= chars@.len(),
            trim_end(trim_start(tok, '('), ')') == trim_end(chars@.subrange(lo as int, hi as int), ')'),
        decreases hi - lo,
    {
        assert(chars@.subrange(lo as int, hi as int).drop_last() =~= chars@.subrange(lo as int, hi - 1));
        hi = hi - 1;
    }
    let ghost t = chars@.subrange(lo as int, hi as int);
    assert(trim_end(trim_start(tok, '('), ')') == t);
    if hi - lo >= 2 && chars[lo] == '0' && chars[lo + 1] == 'x' {
        assert(t.skip(2) =~= chars@.subrange(lo + 2, hi as int));
        parse_number(chars, lo + 2, hi, 16, u64::MAX)
    } else {
        None
    }
}

/// `x<n>` at `chars[a..b]`, as `register_name` reads it.
fn register_at(chars: &Vec<char>, a: usize, b: usize) -> (r: Option<usize>)
    requires
        a <= b <= chars@.len(),
    ensures
        r == register_name(chars@.subrange(a as int, b as int)),
{
    let ghost tok = chars@.subrange(a as int, b as int);
    if b > a && chars[a] == 'x' {
        assert(tok.skip(1) =~= chars@.subrange(a + 1, b as int));
        match parse_number(chars, a + 1, b, 10, usize::MAX as u64) {
            Some(v) => Some(v as usize),
            None => None,
        }
    } else {
        None
    }
}

/// The tokens named by the positions `pos` in `chars`.
pub open spec fn tokens_at(chars: Seq<char>, pos: Seq<(usize, usize)>) -> Seq<Seq<char>> {
    pos.map_values(|p: (usize, usize)| chars.subrange(p.0 as int, p.1 as int))
}

/// Every position pair lies inside `chars`, in order.
pub open spec fn positions_ok(chars: Seq<char>, pos: Seq<(usize, usize)>) -> bool {
    forall|k: int| 0 <= k < pos.len() ==> #[trigger] pos[k].0 < pos[k].1 <= chars.len()
}

/// An optional event, viewed.
pub open spec fn opt_view(e: Option<Event>) -> Option<EventView> {
    match e {
        Some(ev) => Some(ev@),
        None => None,
    }
}

/// The positions in `chars` of the tokens of `chars[start..end]`.
fn token_positions(chars: &Vec<char>, start: usize, end: usize) -> (r: Vec<(usize, usize)>)
    requires
        start <= end <= chars@.len(),
    ensures
        positions_ok(chars@, r@),
        tokens_at(chars@, r@) == tokens(chars@.subrange(start as int, end as int)),
{
    let ghost line = chars@.subrange(start as int, end as int);
    let spans = spans_of(chars, start, end);
    proof {
        lemma_token_spans(line);
    }
    let mut pos: Vec<(usize, usize)> = Vec::new();
    let mut k: usize = 0;
    while k < spans.len()
        invariant
            start <= end <= chars@.len(),
            line == chars@.subrange(start as int, end as int),
            spans@.len() == token_spans(line).len(),
            forall|q: int|
                0 <= q < spans@.len() ==> (spans@[q].0 as int, spans@[q].1 as int)
                    == #[trigger] token_spans(line)[q],
            forall|q: int|
                0 <= q < token_spans(line).len() ==> 0 <= #[trigger] token_spans(line)[q].0
                    < token_spans(line)[q].1 <= line.len(),
            k <= spans@.len(),
            pos@.len() == k,
            positions_ok(chars@, pos@),
            forall|q: int|
                0 <= q < k ==> #[trigger] chars@.subrange(pos@[q].0 as int, pos@[q].1 as int)
                    == tokens(line)[q],
        decreases spans@.len() - k,
    {
        let (s0, s1) = spans[k];
        assert(token_spans(line)[k as int] == (s0 as int, s1 as int));
        assert(line.subrange(s0 as int, s1 as int) =~= chars@.subrange(start + s0, start + s1));
        pos.push((start + s0, start + s1));
        k = k + 1;
    }
    assert(tokens_at(chars@, pos@) =~= tokens(line));
    pos
}

/// The trap a trap line at `pos` reports.
fn trap_from(chars: &Vec<char>, pos: &Vec<(usize, usize)>) -> (r: Option<Event>)
    requires
        positions_ok(chars@, pos@),
        pos@.len() == 6,
    ensures
        opt_view(r) == trap_line(tokens_at(chars@, pos@)),
{
    let ghost toks = tokens_at(chars@, pos@);
    let epc = match hex_at(chars, pos[5].0, pos[5].1) {
        Some(epc) => epc,
        None => return None,
    };
    let c0 = pos[3].0;
    let mut c1 = pos[3].1;
    while c1 > c0 && chars[c1 - 1] == ','
        invariant
            c0 <= c1 <= pos@[3].1 <= chars@.len(),
            c0 == pos@[3].0,
            trim_end(toks[3], ',') == trim_end(chars@.subrange(c0 as int, c1 as int), ','),
        decreases c1 - c0,
    {
        assert(chars@.subrange(c0 as int, c1 as int).drop_last() =~= chars@.subrange(c0 as int, c1 - 1));
        c1 = c1 - 1;
    }
    let cause = string_of(chars, c0, c1);
    Some(Event::Trap { epc, cause, tval: None })
}

/// The commit a commit line at `pos` reports.
fn commit_from(chars: &Vec<char>, pos: &Vec<(usize, usize)>) -> (r: Option<Event>)
    requires
        positions_ok(chars@, pos@),
        pos@.len() >= 5,
    ensures
        opt_view(r) == commit_line(tokens_at(chars@, pos@)),
{
    let ghost toks = tokens_at(chars@, pos@);
    let pc = hex_at(chars, pos[3].0, pos[3].1);
    let raw = hex_at(chars, pos[4].0, pos[4].1);
    assert(toks[3] == chars@.subrange(pos@[3].0 as int, pos@[3].1 as int));
    assert(toks[4] == chars@.subrange(pos@[4].0 as int, pos@[4].1 as int));
    let (pc, raw) = match (pc, raw) {
        (Some(pc), Some(raw)) => (pc, raw),
        _ => return None,
    };
    // Scan the effects for an x-register write: `x<n>` followed by the
    // value. `mem`/`c<csr>`/float entries are skipped.
    let ghost rest = toks.skip(5);
    let n = pos.len();
    let mut write: Option<(usize, u64)> = None;
    let mut j: usize = 5;
    while j < n - 1
        invariant
            5 <= j <= n,
            j == 5 || j <= n - 1,
            n == pos@.len() == toks.len(),
            toks == tokens_at(chars@, pos@),
            positions_ok(chars@, pos@),
            rest == toks.skip(5),
            write == writes_upto(rest, (j - 5) as nat),
        decreases n - j,
    {
        if let Some(rd) = register_at(chars, pos[j].0, pos[j].1) {
            write = match hex_at(chars, pos[j + 1].0, pos[j + 1].1) {
                Some(v) => Some((rd, v)),
                None => None,
            };
        }
        assert(rest[j - 5] == toks[j as int]);
        assert(rest[j - 4] == toks[j + 1]);
        j = j + 1;
    }
    Some(Event::Commit { pc, raw: raw as u32, write })
}

/// Record `v` as the tval of the last event, if that is a trap.
fn set_tval(events: &mut Vec<Event>, v: u64)
    ensures
        events_view(final(events)@) == with_tval(events_view(old(events)@), v),
{
    let ghost evs0 = events_view(events@);
    if events.len() == 0 {
        return;
    }
    let last = events.pop().unwrap();
    assert(events@ =~= old(events)@.drop_last());
    match last {
        Event::Trap { epc, cause, .. } => {
            let ev = Event::Trap { epc, cause, tval: Some(v) };
            events.push(ev);
            assert(events_view(events@) =~= with_tval(evs0, v));
        },
        other => {
            events.push(other);
            assert(events@ =~= old(events)@);
        },
    }
}

/// Read one line, `chars[start..end]`, into `events`.
fn parse_line_into(chars: &Vec<char>, start: usize, end: usize, events: &mut Vec<Event>)
    requires
        start <= end <= chars@.len(),
    ensures
        events_view(final(events)@) == parse_line(
            events_view(old(events)@),
            tokens(chars@.subrange(start as int, end as int)),
        ),
{
    let pos = token_positions(chars, start, end);
    let ghost toks = tokens_at(chars@, pos@);
    let ghost evs0 = events_view(events@);
    let n = pos.len();
    let core = ['c', 'o', 'r', 'e'];
    let exception = ['e', 'x', 'c', 'e', 'p', 't', 'i', 'o', 'n'];
    let epc_word = ['e', 'p', 'c'];
    let tval_word = ['t', 'v', 'a', 'l'];
    assert(core@ == word_core());
    assert(exception@ == word_exception());
    assert(epc_word@ == word_epc());
    assert(tval_word@ == word_tval());
    if n == 0 || !equals_at(chars, pos[0].0, pos[0].1, &core) {
        return;
    }
    if n == 6 && equals_at(chars, pos[2].0, pos[2].1, &exception) && equals_at(
        chars,
        pos[4].0,
        pos[4].1,
        &epc_word,
    ) {
        // `core   0: exception trap_illegal_instruction, epc 0x...`
        if let Some(ev) = trap_from(chars, &pos) {
            events.push(ev);
            assert(events_view(events@) =~= evs0.push(ev@));
        }
        return;
    }
    if n == 4 && equals_at(chars, pos[2].0, pos[2].1, &tval_word) {
        // `core   0:           tval 0x...` — belongs to the trap above.
        if let Some(v) = hex_at(chars, pos[3].0, pos[3].1) {
            set_tval(events, v);
        }
        return;
    }
    proof {
        if n >= 5 {
            assert(toks[2] == chars@.subrange(pos@[2].0 as int, pos@[2].1 as int));
            assert(pos@[2].0 < pos@[2].1);
            assert(toks[2][0] == chars@[pos@[2].0 as int]);
        }
    }
    if n >= 5 && pos[2].1 - pos[2].0 == 1 && (chars[pos[2].0] as u32) < 0x80 {
        // `core   0: 3 0x<pc> (0x<raw>) x5  0x<val> ...`
        if let Some(ev) = commit_from(chars, &pos) {
            events.push(ev);
            assert(events_view(events@) =~= evs0.push(ev@));
        }
    }
}

/// Parse Spike's stderr. Unknown lines (disassembly from -l, `>>>>` symbol
/// annotations, ...) are skipped, so the parser accepts the combined
/// `-l --log-commits` output.
pub fn parse_log(log: &str) -> (r: Vec<Event>)
    ensures
        events_view(r@) == log_events(log@),
{
    let chars = chars_of(log);
    let n = chars.len();
    let mut events: Vec<Event> = Vec::new();
    let mut start: usize = 0;
    assert(chars@.take(0) =~= Seq::<char>::empty());
    assert(events_view(events@) =~= Seq::<EventView>::empty());
    loop
        invariant
            n == chars@.len(),
            chars@ == log@,
            start <= n,
            split_lines(chars@.take(start as int)).last() == Seq::<char>::empty(),
            events_view(events@) == parse_lines(split_lines(chars@.take(start as int)).drop_last()),
        ensures
            events_view(events@) == log_events(log@),
        decreases n - start,
    {
        let mut end = start;
        while end < n && chars[end] != '\n'
            invariant
                start <= end <= n == chars@.len(),
                forall|j: int| start <= j < end ==> chars@[j] != '\n',
            decreases n - end,
        {
            end = end + 1;
        }
        proof {
            lemma_split_lines_extend(chars@, start as int, end as int);
        }
        let ghost before = split_lines(chars@.take(start as int)).drop_last();
        parse_line_into(&chars, start, end, &mut events);
        let ghost lines = split_lines(chars@.take(end as int));
        assert(lines.drop_last() =~= before);
        assert(lines.last() == chars@.subrange(start as int, end as int));
        if end == n {
            assert(chars@.take(n as int) =~= chars@);
            return events;
        }
        assert(chars@.take(end + 1).drop_last() =~= chars@.take(end as int));
        assert(chars@.take(end + 1).last() == '\n');
        assert(split_lines(chars@.take(end + 1)) == lines.push(Seq::<char>::empty()));
        assert(split_lines(chars@.take(end + 1)).drop_last() =~= lines);
        assert(parse_lines(lines) == parse_line(parse_lines(before), tokens(chars@.subrange(start as int, end as int))));
        start = end + 1;
    }
}

} // verus!
