//! Cpu: owner of the architectural state (integer registers, pc, CSRs, the
//! LR/SC reservation, and the bus), plus the execute stage of the
//! fetch → decode → execute loop.
//!
//! `executed` states what running one instruction does to that state: which
//! register it writes, where pc goes, which CSRs change, what reaches memory,
//! and which exception it raises instead (leaving the state untouched).

use vstd::prelude::*;

use crate::alu::{
    lemma_bit_facts, lemma_signed_order, lemma_to_reg32_idempotent,
    combine_d, amo_d_spec, combine_w, amo_w_spec, compute, compute_spec, imm_bits, is_compute, low32,
    low_word, sext32, signed64, to_reg, to_reg32, wadd64, AmoOp,
};
use crate::bus::{
    clint_after_write, in_dram, law_dram_store_load_roundtrip, lemma_read_bound, mem_after_write,
    read_at, write_ok, Bus, Clint, DRAM_SIZE,
};
use crate::bytes::{le_bytes, lemma_le_bytes_mod, lemma_pow256_facts, pow256};
use crate::exception::Exception;
use crate::inst::{
    c_illegal, decode, decode_compressed, decode_compressed_spec, decode_spec, illegal, sext, Inst,
};
use crate::loader::{LoadedElf, Segment};

verus! {

/// CSR address of mtvec (Machine Trap VECtor): where traps jump to.
pub const MTVEC: usize = 0x305;

/// CSR address of mepc (Machine Exception Program Counter): where a trap saves
/// the interrupted pc, and where MRET returns to.
pub const MEPC: usize = 0x341;

/// CSR address of mcause: why the last trap was taken.
pub const MCAUSE: usize = 0x342;

/// CSR address of mtval (Machine Trap VALue): extra evidence about the trap
/// (faulting address, offending instruction word, ...).
pub const MTVAL: usize = 0x343;

pub struct Cpu {
    /// Integer registers x0..=x31. x0 is always 0 (enforced at the end of execute).
    pub regs: [u64; 32],
    /// Program counter
    pub pc: u64,
    /// Control and status registers, indexed by their 12-bit address (Zicsr).
    ///
    /// Flat array of all 4096 addresses: every CSR reads as 0 until something
    /// writes it, which is the architecturally correct reset value for the
    /// ones the riscv-tests startup reads (e.g. mhartid = hart 0).
    pub csrs: [u64; 4096],
    /// The LR/SC reservation: the address the last LR registered, if no SC
    /// has consumed it yet. Single-hart, so no other-hart invalidation
    /// exists.
    pub reservation: Option<u64>,
    pub bus: Bus,
}

// --- Operands of an instruction -----------------------------------------------------

/// The (rd, rs1, rs2) fields of a computational instruction (0 where absent).
pub open spec fn operands(inst: Inst) -> (usize, usize, usize) {
    match inst {
        Inst::Addi { rd, rs1, .. }
        | Inst::Slti { rd, rs1, .. }
        | Inst::Sltiu { rd, rs1, .. }
        | Inst::Xori { rd, rs1, .. }
        | Inst::Ori { rd, rs1, .. }
        | Inst::Andi { rd, rs1, .. }
        | Inst::Addiw { rd, rs1, .. }
        | Inst::Slli { rd, rs1, .. }
        | Inst::Srli { rd, rs1, .. }
        | Inst::Srai { rd, rs1, .. }
        | Inst::Slliw { rd, rs1, .. }
        | Inst::Srliw { rd, rs1, .. }
        | Inst::Sraiw { rd, rs1, .. } => (rd, rs1, 0),
        Inst::Lui { rd, .. } | Inst::Auipc { rd, .. } => (rd, 0, 0),
        Inst::Add { rd, rs1, rs2 }
        | Inst::Sub { rd, rs1, rs2 }
        | Inst::Sll { rd, rs1, rs2 }
        | Inst::Slt { rd, rs1, rs2 }
        | Inst::Sltu { rd, rs1, rs2 }
        | Inst::Xor { rd, rs1, rs2 }
        | Inst::Srl { rd, rs1, rs2 }
        | Inst::Sra { rd, rs1, rs2 }
        | Inst::Or { rd, rs1, rs2 }
        | Inst::And { rd, rs1, rs2 }
        | Inst::Addw { rd, rs1, rs2 }
        | Inst::Subw { rd, rs1, rs2 }
        | Inst::Sllw { rd, rs1, rs2 }
        | Inst::Srlw { rd, rs1, rs2 }
        | Inst::Sraw { rd, rs1, rs2 }
        | Inst::Mul { rd, rs1, rs2 }
        | Inst::Mulh { rd, rs1, rs2 }
        | Inst::Mulhsu { rd, rs1, rs2 }
        | Inst::Mulhu { rd, rs1, rs2 }
        | Inst::Mulw { rd, rs1, rs2 }
        | Inst::Div { rd, rs1, rs2 }
        | Inst::Divu { rd, rs1, rs2 }
        | Inst::Rem { rd, rs1, rs2 }
        | Inst::Remu { rd, rs1, rs2 }
        | Inst::Divw { rd, rs1, rs2 }
        | Inst::Divuw { rd, rs1, rs2 }
        | Inst::Remw { rd, rs1, rs2 }
        | Inst::Remuw { rd, rs1, rs2 } => (rd, rs1, rs2),
        _ => (0, 0, 0),
    }
}

/// A load: (rd, rs1, offset, width in bytes).
pub open spec fn load_access(inst: Inst) -> Option<(usize, usize, i64, nat)> {
    match inst {
        Inst::Lb { rd, rs1, offset } | Inst::Lbu { rd, rs1, offset } => Some((rd, rs1, offset, 1)),
        Inst::Lh { rd, rs1, offset } | Inst::Lhu { rd, rs1, offset } => Some((rd, rs1, offset, 2)),
        Inst::Lw { rd, rs1, offset } | Inst::Lwu { rd, rs1, offset } => Some((rd, rs1, offset, 4)),
        Inst::Ld { rd, rs1, offset } => Some((rd, rs1, offset, 8)),
        _ => None,
    }
}

/// The register value a load produces from the `v` it read: the plain forms
/// sign-extend, the U forms (and LD) zero-extend.
pub open spec fn load_extend(inst: Inst, v: nat) -> u64 {
    match inst {
        Inst::Lb { .. } => to_reg(sext(v as int, 0x80)),
        Inst::Lh { .. } => to_reg(sext(v as int, 0x8000)),
        Inst::Lw { .. } => to_reg(sext(v as int, 0x8000_0000)),
        _ => v as u64,
    }
}

/// A store: (rs1, rs2, offset, width in bytes).
pub open spec fn store_access(inst: Inst) -> Option<(usize, usize, i64, nat)> {
    match inst {
        Inst::Sb { rs1, rs2, offset } => Some((rs1, rs2, offset, 1)),
        Inst::Sh { rs1, rs2, offset } => Some((rs1, rs2, offset, 2)),
        Inst::Sw { rs1, rs2, offset } => Some((rs1, rs2, offset, 4)),
        Inst::Sd { rs1, rs2, offset } => Some((rs1, rs2, offset, 8)),
        _ => None,
    }
}

/// An atomic memory operation: (rd, rs1, rs2, combining function, is a word op).
pub open spec fn amo_access(inst: Inst) -> Option<(usize, usize, usize, AmoOp, bool)> {
    match inst {
        Inst::AmoaddW { rd, rs1, rs2 } => Some((rd, rs1, rs2, AmoOp::Add, true)),
        Inst::AmoaddD { rd, rs1, rs2 } => Some((rd, rs1, rs2, AmoOp::Add, false)),
        Inst::AmoswapW { rd, rs1, rs2 } => Some((rd, rs1, rs2, AmoOp::Swap, true)),
        Inst::AmoswapD { rd, rs1, rs2 } => Some((rd, rs1, rs2, AmoOp::Swap, false)),
        Inst::AmoxorW { rd, rs1, rs2 } => Some((rd, rs1, rs2, AmoOp::Xor, true)),
        Inst::AmoxorD { rd, rs1, rs2 } => Some((rd, rs1, rs2, AmoOp::Xor, false)),
        Inst::AmoorW { rd, rs1, rs2 } => Some((rd, rs1, rs2, AmoOp::Or, true)),
        Inst::AmoorD { rd, rs1, rs2 } => Some((rd, rs1, rs2, AmoOp::Or, false)),
        Inst::AmoandW { rd, rs1, rs2 } => Some((rd, rs1, rs2, AmoOp::And, true)),
        Inst::AmoandD { rd, rs1, rs2 } => Some((rd, rs1, rs2, AmoOp::And, false)),
        Inst::AmominW { rd, rs1, rs2 } => Some((rd, rs1, rs2, AmoOp::Min, true)),
        Inst::AmominD { rd, rs1, rs2 } => Some((rd, rs1, rs2, AmoOp::Min, false)),
        Inst::AmomaxW { rd, rs1, rs2 } => Some((rd, rs1, rs2, AmoOp::Max, true)),
        Inst::AmomaxD { rd, rs1, rs2 } => Some((rd, rs1, rs2, AmoOp::Max, false)),
        Inst::AmominuW { rd, rs1, rs2 } => Some((rd, rs1, rs2, AmoOp::Minu, true)),
        Inst::AmominuD { rd, rs1, rs2 } => Some((rd, rs1, rs2, AmoOp::Minu, false)),
        Inst::AmomaxuW { rd, rs1, rs2 } => Some((rd, rs1, rs2, AmoOp::Maxu, true)),
        Inst::AmomaxuD { rd, rs1, rs2 } => Some((rd, rs1, rs2, AmoOp::Maxu, false)),
        _ => None,
    }
}

/// The bytes an access of `width` bytes covers, as a word width (4 for .W).
pub open spec fn amo_width(word: bool) -> nat {
    if word {
        4
    } else {
        8
    }
}

/// The value an AMO writes back to memory, from the `old` value it read and
/// the rs2 value `y`.
pub open spec fn amo_new_value(op: AmoOp, word: bool, old: nat, y: u64) -> nat {
    if word {
        amo_w_spec(op, old as u32, low32(y)) as nat
    } else {
        amo_d_spec(op, old as u64, y) as nat
    }
}

/// What an AMO or LR writes to rd from the `old` memory value: words are
/// sign-extended.
pub open spec fn amo_rd_value(word: bool, old: nat) -> u64 {
    if word {
        to_reg32(old as int)
    } else {
        old as u64
    }
}

/// An LR or SC: (rd, rs1, rs2, is a word op, is SC).
pub open spec fn lr_sc_access(inst: Inst) -> Option<(usize, usize, usize, bool, bool)> {
    match inst {
        Inst::LrW { rd, rs1 } => Some((rd, rs1, 0, true, false)),
        Inst::LrD { rd, rs1 } => Some((rd, rs1, 0, false, false)),
        Inst::ScW { rd, rs1, rs2 } => Some((rd, rs1, rs2, true, true)),
        Inst::ScD { rd, rs1, rs2 } => Some((rd, rs1, rs2, false, true)),
        _ => None,
    }
}

/// The taken-ness of a conditional branch on the values `x` (rs1) and `y`
/// (rs2): signed conditions read the same bits as two's complement.
pub open spec fn branch_taken(inst: Inst, x: u64, y: u64) -> bool {
    match inst {
        Inst::Beq { .. } => x == y,
        Inst::Bne { .. } => x != y,
        Inst::Blt { .. } => signed64(x) < signed64(y),
        Inst::Bge { .. } => signed64(x) >= signed64(y),
        Inst::Bltu { .. } => x < y,
        Inst::Bgeu { .. } => x >= y,
        _ => false,
    }
}

/// A conditional branch: (rs1, rs2, offset).
pub open spec fn branch_access(inst: Inst) -> Option<(usize, usize, i64)> {
    match inst {
        Inst::Beq { rs1, rs2, offset }
        | Inst::Bne { rs1, rs2, offset }
        | Inst::Blt { rs1, rs2, offset }
        | Inst::Bge { rs1, rs2, offset }
        | Inst::Bltu { rs1, rs2, offset }
        | Inst::Bgeu { rs1, rs2, offset } => Some((rs1, rs2, offset)),
        _ => None,
    }
}

/// The new value of a CSR under a Zicsr instruction, from the old value and
/// the source (rs1's value or the immediate), or `None` when it is left
/// alone (set/clear with a zero source register or immediate).
pub open spec fn csr_update(inst: Inst, old: u64, src: u64) -> Option<u64> {
    match inst {
        Inst::Csrrw { .. } | Inst::Csrrwi { .. } => Some(src),
        Inst::Csrrs { rs1, .. } => if rs1 != 0 {
            Some(old | src)
        } else {
            None
        },
        Inst::Csrrc { rs1, .. } => if rs1 != 0 {
            Some(old & !src)
        } else {
            None
        },
        Inst::Csrrsi { uimm, .. } => if uimm != 0 {
            Some(old | src)
        } else {
            None
        },
        Inst::Csrrci { uimm, .. } => if uimm != 0 {
            Some(old & !src)
        } else {
            None
        },
        _ => None,
    }
}

/// A Zicsr instruction: (rd, csr, source register or None for the immediate
/// forms, immediate).
pub open spec fn csr_access(inst: Inst) -> Option<(usize, usize, Option<usize>, u64)> {
    match inst {
        Inst::Csrrw { rd, rs1, csr } | Inst::Csrrs { rd, rs1, csr } | Inst::Csrrc {
            rd,
            rs1,
            csr,
        } => Some((rd, csr, Some(rs1), 0)),
        Inst::Csrrwi { rd, uimm, csr } | Inst::Csrrsi { rd, uimm, csr } | Inst::Csrrci {
            rd,
            uimm,
            csr,
        } => Some((rd, csr, None, uimm)),
        _ => None,
    }
}

/// The architectural state of a hart and its memory, as the semantics of
/// execution sees it: what a `Cpu` holds, without the representation.
pub struct Machine {
    pub regs: Seq<u64>,
    pub pc: u64,
    pub csrs: Seq<u64>,
    pub reservation: Option<u64>,
    pub mem: Seq<u8>,
    pub clint: Clint,
}

impl Machine {
    /// The value of register `r`.
    pub open spec fn x(&self, r: usize) -> u64 {
        self.regs[r as int]
    }

    /// What a read of `len` bytes at `addr` returns, or `None` on a fault.
    pub open spec fn read(&self, addr: u64, len: nat) -> Option<nat> {
        read_at(self.mem, self.clint, addr, len)
    }

    /// The effective address rs1 + offset.
    pub open spec fn ea(&self, rs1: usize, offset: i64) -> u64 {
        to_reg(self.x(rs1) + offset)
    }

    /// The CSR file after a trap for `e` taken at pc: mepc is the pc, mcause
    /// the cause, mtval the exception's payload (the pc itself for EBREAK).
    pub open spec fn trap_csrs(&self, e: Exception) -> Seq<u64> {
        self.csrs.update(MEPC as int, self.pc).update(MCAUSE as int, e.cause_spec()).update(
            MTVAL as int,
            if e is Breakpoint {
                self.pc
            } else {
                e.tval_spec()
            },
        )
    }

    /// Where a trap enters: mtvec with its two mode bits masked off.
    pub open spec fn trap_target(&self) -> u64 {
        self.csrs[MTVEC as int] & !3u64
    }

    /// The exception `inst` raises in this state, if any: an access outside
    /// the implemented memory.
    pub open spec fn fault(&self, inst: Inst) -> Option<Exception> {
        let clint = self.clint;
        match load_access(inst) {
            Some((_, rs1, offset, width)) => {
                let a = self.ea(rs1, offset);
                if self.read(a, width) is Some {
                    None
                } else {
                    Some(Exception::LoadAccessFault(a))
                }
            },
            None => match store_access(inst) {
                Some((rs1, _, offset, width)) => {
                    let a = self.ea(rs1, offset);
                    if write_ok(clint, a, width) {
                        None
                    } else {
                        Some(Exception::StoreAmoAccessFault(a))
                    }
                },
                None => match amo_access(inst) {
                    Some((_, rs1, _, _, word)) => {
                        let a = self.x(rs1);
                        if self.read(a, amo_width(word)) is None {
                            Some(Exception::LoadAccessFault(a))
                        } else if !write_ok(clint, a, amo_width(word)) {
                            Some(Exception::StoreAmoAccessFault(a))
                        } else {
                            None
                        }
                    },
                    None => match lr_sc_access(inst) {
                        Some((_, rs1, _, word, is_sc)) => {
                            let a = self.x(rs1);
                            if !is_sc {
                                if self.read(a, amo_width(word)) is Some {
                                    None
                                } else {
                                    Some(Exception::LoadAccessFault(a))
                                }
                            } else if self.reservation == Some(a) && !write_ok(
                                clint,
                                a,
                                amo_width(word),
                            ) {
                                Some(Exception::StoreAmoAccessFault(a))
                            } else {
                                None
                            }
                        },
                        None => None,
                    },
                },
            },
        }
    }

    /// The register write a successful `inst` of length `len` performs, as
    /// (rd, value), before x0 is forced back to zero.
    pub open spec fn writeback(&self, inst: Inst, len: u64) -> Option<(usize, u64)> {
        if is_compute(inst) {
            let (rd, rs1, rs2) = operands(inst);
            Some((rd, compute_spec(inst, self.x(rs1), self.x(rs2), self.pc)))
        } else {
            match load_access(inst) {
                Some((rd, rs1, offset, width)) => Some(
                    (rd, load_extend(inst, self.read(self.ea(rs1, offset), width).unwrap())),
                ),
                None => match amo_access(inst) {
                    Some((rd, rs1, _, _, word)) => Some(
                        (rd, amo_rd_value(word, self.read(self.x(rs1), amo_width(word)).unwrap())),
                    ),
                    None => match lr_sc_access(inst) {
                        Some((rd, rs1, _, word, is_sc)) => if is_sc {
                            // SC reports success (0) or failure (1).
                            Some(
                                (
                                    rd,
                                    if self.reservation == Some(self.x(rs1)) {
                                        0
                                    } else {
                                        1
                                    },
                                ),
                            )
                        } else {
                            Some(
                                (
                                    rd,
                                    amo_rd_value(
                                        word,
                                        self.read(self.x(rs1), amo_width(word)).unwrap(),
                                    ),
                                ),
                            )
                        },
                        None => match csr_access(inst) {
                            // rd receives the CSR's value before the instruction.
                            Some((rd, csr, _, _)) => Some((rd, self.csrs[csr as int])),
                            None => match inst {
                                // link: the return address
                                Inst::Jal { rd, .. } | Inst::Jalr { rd, .. } => Some(
                                    (rd, to_reg(self.pc + len)),
                                ),
                                _ => None,
                            },
                        },
                    },
                },
            }
        }
    }

    /// The registers after a successful `inst`: the write-back, then x0
    /// cleared (ECALL/EBREAK write nothing and leave the file as it is).
    pub open spec fn regs_after(&self, inst: Inst, len: u64) -> Seq<u64> {
        if inst is Ecall || inst is Ebreak {
            self.regs
        } else {
            match self.writeback(inst, len) {
                Some((rd, v)) => self.regs.update(rd as int, v),
                None => self.regs,
            }.update(0, 0)
        }
    }

    /// The pc after a successful `inst` of length `len`.
    pub open spec fn next_pc(&self, inst: Inst, len: u64) -> u64 {
        match inst {
            Inst::Jal { offset, .. } => to_reg(self.pc + offset),
            // The ISA clears bit 0 of the computed target.
            Inst::Jalr { rs1, offset, .. } => to_reg(self.x(rs1) + offset) & !1u64,
            Inst::Mret => self.csrs[MEPC as int],
            Inst::Ecall | Inst::Ebreak => self.trap_target(),
            _ => match branch_access(inst) {
                Some((rs1, rs2, offset)) => if branch_taken(inst, self.x(rs1), self.x(rs2)) {
                    to_reg(self.pc + offset)
                } else {
                    to_reg(self.pc + len)
                },
                None => to_reg(self.pc + len),
            },
        }
    }

    /// The CSR file after a successful `inst`.
    pub open spec fn next_csrs(&self, inst: Inst) -> Seq<u64> {
        match inst {
            Inst::Ecall => self.trap_csrs(Exception::EnvironmentCallFromMMode),
            Inst::Ebreak => self.trap_csrs(Exception::Breakpoint),
            _ => match csr_access(inst) {
                Some((_, csr, src_reg, uimm)) => {
                    let src = match src_reg {
                        Some(rs1) => self.x(rs1),
                        None => uimm,
                    };
                    match csr_update(inst, self.csrs[csr as int], src) {
                        Some(v) => self.csrs.update(csr as int, v),
                        None => self.csrs,
                    }
                },
                None => self.csrs,
            },
        }
    }

    /// The reservation after `inst`: LR registers its address, SC drops it
    /// whether it succeeds or not.
    pub open spec fn next_reservation(&self, inst: Inst) -> Option<u64> {
        match lr_sc_access(inst) {
            Some((_, rs1, _, _, is_sc)) => if is_sc {
                None
            } else {
                Some(self.x(rs1))
            },
            None => self.reservation,
        }
    }

    /// The memory write a successful `inst` performs, as (address, bytes):
    /// stores write the low bytes of rs2, AMOs the combined value, and SC the
    /// low bytes of rs2 when the reservation holds the address.
    pub open spec fn mem_write(&self, inst: Inst) -> Option<(u64, Seq<u8>)> {
        match store_access(inst) {
            Some((rs1, rs2, offset, width)) => Some(
                (self.ea(rs1, offset), le_bytes(self.x(rs2) as nat, width)),
            ),
            None => match amo_access(inst) {
                Some((_, rs1, rs2, op, word)) => {
                    let a = self.x(rs1);
                    let old = self.read(a, amo_width(word)).unwrap();
                    Some((a, le_bytes(amo_new_value(op, word, old, self.x(rs2)), amo_width(word))))
                },
                None => match lr_sc_access(inst) {
                    Some((_, rs1, rs2, word, is_sc)) => if is_sc && self.reservation == Some(
                        self.x(rs1),
                    ) {
                        Some((self.x(rs1), le_bytes(self.x(rs2) as nat, amo_width(word))))
                    } else {
                        None
                    },
                    None => None,
                },
            },
        }
    }

    /// DRAM after a successful `inst`.
    pub open spec fn next_mem(&self, inst: Inst) -> Seq<u8> {
        match self.mem_write(inst) {
            Some((a, bytes)) => mem_after_write(self.mem, a, bytes),
            None => self.mem,
        }
    }

    /// The CLINT after a successful `inst`.
    pub open spec fn next_clint(&self, inst: Inst) -> Clint {
        match self.mem_write(inst) {
            Some((a, bytes)) => clint_after_write(self.clint, a, bytes),
            None => self.clint,
        }
    }

    /// The state after executing `inst` (of encoded length `len`), and
    /// what execution returns. On success every part of the state moves as
    /// the instruction says; on an exception nothing changes, except that an
    /// SC has already consumed the reservation.
    pub open spec fn exec(self, inst: Inst, len: u64) -> (Machine, Result<(), Exception>) {
        match self.fault(inst) {
            Some(e) => (
                Machine {
                    reservation: if inst is ScW || inst is ScD {
                        None
                    } else {
                        self.reservation
                    },
                    ..self
                },
                Err(e),
            ),
            None => (
                Machine {
                    regs: self.regs_after(inst, len),
                    pc: self.next_pc(inst, len),
                    csrs: self.next_csrs(inst),
                    reservation: self.next_reservation(inst),
                    mem: self.next_mem(inst),
                    clint: self.next_clint(inst),
                },
                Ok(()),
            ),
        }
    }

    /// The state after taking a trap for `e`: the CSRs record it and pc
    /// enters the handler.
    pub open spec fn take_trap(self, e: Exception) -> Machine {
        Machine { csrs: self.trap_csrs(e), pc: self.trap_target(), ..self }
    }

    /// One turn of the interpreter loop: fetch the 32-bit word at pc, decode
    /// it, execute it. A fetch fault or an illegal word leaves the state as
    /// it is.
    pub open spec fn step(self) -> (Machine, Result<(), Exception>) {
        match self.read(self.pc, 4) {
            None => (self, Err(Exception::LoadAccessFault(self.pc))),
            Some(w) => match decode_spec(w as u32) {
                Err(e) => (self, Err(e)),
                Ok(inst) => self.exec(inst, 4),
            },
        }
    }

    /// The instruction at pc, its encoded length and its raw bits: a
    /// 16-bit parcel whose low two bits are not 0b11 is a compressed
    /// instruction; otherwise the full 32-bit word is read and decoded.
    pub open spec fn fetched(self) -> Result<(Inst, u64, u32), Exception> {
        match self.read(self.pc, 2) {
            None => Err(Exception::LoadAccessFault(self.pc)),
            Some(p) => if p % 4 == 3 {
                match self.read(self.pc, 4) {
                    None => Err(Exception::LoadAccessFault(self.pc)),
                    Some(w) => match decode_spec(w as u32) {
                        Ok(inst) => Ok((inst, 4, w as u32)),
                        Err(e) => Err(e),
                    },
                }
            } else {
                match decode_compressed_spec(p as u16) {
                    Ok(inst) => Ok((inst, 2, p as u32)),
                    Err(e) => Err(e),
                }
            },
        }
    }
}

impl View for Cpu {
    type V = Machine;

    open spec fn view(&self) -> Machine {
        Machine {
            regs: self.regs@,
            pc: self.pc,
            csrs: self.csrs@,
            reservation: self.reservation,
            mem: self.bus.mem(),
            clint: self.bus.clint_state(),
        }
    }
}

impl Cpu {
    /// The bus is well formed.
    pub open spec fn wf(&self) -> bool {
        self.bus.wf()
    }

    /// This Cpu holds exactly the state `m`.
    pub open spec fn is_state(&self, m: Machine) -> bool {
        &&& self.wf()
        &&& self.regs@ == m.regs
        &&& self.pc == m.pc
        &&& self.csrs@ == m.csrs
        &&& self.reservation == m.reservation
        &&& self.bus.mem() == m.mem
        &&& self.bus.clint_state() == m.clint
    }

    /// A Cpu that holds the state `m` views as `m`.
    pub proof fn lemma_view(&self, m: Machine)
        requires
            self.is_state(m),
        ensures
            self@ == m,
    {
    }

    /// `after` is this state after executing `inst` (of encoded length
    /// `len`) returned `r`.
    pub open spec fn executed(&self, after: &Cpu, inst: Inst, len: u64, r: Result<(), Exception>) -> bool {
        &&& r == self@.exec(inst, len).1
        &&& after.is_state(self@.exec(inst, len).0)
    }
}


/// The (rd, rs1, rs2) fields of a computational instruction.
fn operands_of(inst: Inst) -> (r: (usize, usize, usize))
    requires
        is_compute(inst),
        inst.wf(),
    ensures
        r == operands(inst),
        r.0 < 32 && r.1 < 32 && r.2 < 32,
{
    match inst {
        Inst::Addi { rd, rs1, .. }
        | Inst::Slti { rd, rs1, .. }
        | Inst::Sltiu { rd, rs1, .. }
        | Inst::Xori { rd, rs1, .. }
        | Inst::Ori { rd, rs1, .. }
        | Inst::Andi { rd, rs1, .. }
        | Inst::Addiw { rd, rs1, .. }
        | Inst::Slli { rd, rs1, .. }
        | Inst::Srli { rd, rs1, .. }
        | Inst::Srai { rd, rs1, .. }
        | Inst::Slliw { rd, rs1, .. }
        | Inst::Srliw { rd, rs1, .. }
        | Inst::Sraiw { rd, rs1, .. } => (rd, rs1, 0),
        Inst::Lui { rd, .. } | Inst::Auipc { rd, .. } => (rd, 0, 0),
        Inst::Add { rd, rs1, rs2 }
        | Inst::Sub { rd, rs1, rs2 }
        | Inst::Sll { rd, rs1, rs2 }
        | Inst::Slt { rd, rs1, rs2 }
        | Inst::Sltu { rd, rs1, rs2 }
        | Inst::Xor { rd, rs1, rs2 }
        | Inst::Srl { rd, rs1, rs2 }
        | Inst::Sra { rd, rs1, rs2 }
        | Inst::Or { rd, rs1, rs2 }
        | Inst::And { rd, rs1, rs2 }
        | Inst::Addw { rd, rs1, rs2 }
        | Inst::Subw { rd, rs1, rs2 }
        | Inst::Sllw { rd, rs1, rs2 }
        | Inst::Srlw { rd, rs1, rs2 }
        | Inst::Sraw { rd, rs1, rs2 }
        | Inst::Mul { rd, rs1, rs2 }
        | Inst::Mulh { rd, rs1, rs2 }
        | Inst::Mulhsu { rd, rs1, rs2 }
        | Inst::Mulhu { rd, rs1, rs2 }
        | Inst::Mulw { rd, rs1, rs2 }
        | Inst::Div { rd, rs1, rs2 }
        | Inst::Divu { rd, rs1, rs2 }
        | Inst::Rem { rd, rs1, rs2 }
        | Inst::Remu { rd, rs1, rs2 }
        | Inst::Divw { rd, rs1, rs2 }
        | Inst::Divuw { rd, rs1, rs2 }
        | Inst::Remw { rd, rs1, rs2 }
        | Inst::Remuw { rd, rs1, rs2 } => (rd, rs1, rs2),
        _ => (0, 0, 0),
    }
}

/// x + offset, wrapping: the address arithmetic of loads, stores and jumps.
fn offset_addr(x: u64, offset: i64) -> (r: u64)
    ensures
        r == to_reg(x + offset),
{
    let c = imm_bits(offset);
    let r = wadd64(x, c);
    assert(r == to_reg(x + offset));
    r
}

impl Cpu {
    pub fn new() -> (cpu: Self)
        ensures
            cpu.wf(),
            cpu.regs@ == Seq::new(32, |i: int| 0u64),
            cpu.pc == 0,
            cpu.csrs@ == Seq::new(4096, |i: int| 0u64),
            cpu.reservation is None,
            cpu.bus.mem() == Seq::new(crate::bus::DRAM_SIZE as nat, |i: int| 0u8),
            cpu.bus.clint_state() == Clint::reset(),
    {
        let cpu = Cpu {
            regs: [0u64; 32],
            pc: 0,
            csrs: [0u64; 4096],
            reservation: None,
            bus: Bus::new(),
        };
        assert(cpu.regs@ =~= Seq::new(32, |i: int| 0u64));
        assert(cpu.csrs@ =~= Seq::new(4096, |i: int| 0u64));
        cpu
    }

    /// Retire a non-jumping instruction: x0 stays zero, pc moves past it.
    fn retire(&mut self, len: u64)
        ensures
            final(self).regs@ == old(self).regs@.update(0, 0),
            final(self).pc == to_reg(old(self).pc + len),
            final(self).csrs == old(self).csrs,
            final(self).reservation == old(self).reservation,
            final(self).bus == old(self).bus,
    {
        self.regs[0] = 0;
        self.pc = wadd64(self.pc, len);
    }

    fn exec_compute(&mut self, inst: Inst, len: u64)
        requires
            old(self).wf(),
            inst.wf(),
            is_compute(inst),
        ensures
            old(self).executed(final(self), inst, len, Ok(())),
    {
        let (rd, rs1, rs2) = operands_of(inst);
        let v = compute(inst, self.regs[rs1], self.regs[rs2], self.pc);
        self.regs[rd] = v;
        self.retire(len);
    }

    // Loads: address = rs1 + offset, then widen to 64 bits. The `as` casts
    // pick sign- vs zero-extension exactly as in the W family. An access
    // fault propagates out of execute before anything is written; pc is not
    // committed in that case, which trap handling relies on.
    fn exec_load(&mut self, inst: Inst, len: u64) -> (r: Result<(), Exception>)
        requires
            old(self).wf(),
            inst.wf(),
            load_access(inst) is Some,
        ensures
            old(self).executed(final(self), inst, len, r),
    {
        proof {
            lemma_pow256_facts();
        }
        match inst {
            Inst::Lb { rd, rs1, offset } => {
                let addr = offset_addr(self.regs[rs1], offset);
                proof {
                    lemma_read_bound(self.bus.mem(), self.bus.clint_state(), addr, 1);
                }
                let b = self.bus.load8(addr)?;
                let v = b as i8 as u64;
                proof {
                    lemma_bit_facts(0, b, 0, 0);
                }
                self.regs[rd] = v;
            },
            Inst::Lh { rd, rs1, offset } => {
                let addr = offset_addr(self.regs[rs1], offset);
                proof {
                    lemma_read_bound(self.bus.mem(), self.bus.clint_state(), addr, 2);
                }
                let h = self.bus.load16(addr)?;
                let v = h as i16 as u64;
                proof {
                    lemma_bit_facts(0, 0, h, 0);
                }
                self.regs[rd] = v;
            },
            Inst::Lw { rd, rs1, offset } => {
                let addr = offset_addr(self.regs[rs1], offset);
                proof {
                    lemma_read_bound(self.bus.mem(), self.bus.clint_state(), addr, 4);
                }
                let w = self.bus.load32(addr)?;
                let v = w as i32 as u64;
                proof {
                    lemma_bit_facts(0, 0, 0, w);
                }
                self.regs[rd] = v;
            },
            Inst::Lbu { rd, rs1, offset } => {
                let addr = offset_addr(self.regs[rs1], offset);
                proof {
                    lemma_read_bound(self.bus.mem(), self.bus.clint_state(), addr, 1);
                }
                self.regs[rd] = self.bus.load8(addr)? as u64;
            },
            Inst::Lhu { rd, rs1, offset } => {
                let addr = offset_addr(self.regs[rs1], offset);
                proof {
                    lemma_read_bound(self.bus.mem(), self.bus.clint_state(), addr, 2);
                }
                self.regs[rd] = self.bus.load16(addr)? as u64;
            },
            Inst::Lwu { rd, rs1, offset } => {
                let addr = offset_addr(self.regs[rs1], offset);
                proof {
                    lemma_read_bound(self.bus.mem(), self.bus.clint_state(), addr, 4);
                }
                self.regs[rd] = self.bus.load32(addr)? as u64;
            },
            Inst::Ld { rd, rs1, offset } => {
                let addr = offset_addr(self.regs[rs1], offset);
                proof {
                    lemma_read_bound(self.bus.mem(), self.bus.clint_state(), addr, 8);
                }
                self.regs[rd] = self.bus.load64(addr)?;
            },
            _ => {},
        }
        self.retire(len);
        Ok(())
    }

    // Stores: truncate rs2 to the access width.
    fn exec_store(&mut self, inst: Inst, len: u64) -> (r: Result<(), Exception>)
        requires
            old(self).wf(),
            inst.wf(),
            store_access(inst) is Some,
        ensures
            old(self).executed(final(self), inst, len, r),
    {
        proof {
            lemma_pow256_facts();
        }
        match inst {
            Inst::Sb { rs1, rs2, offset } => {
                let addr = offset_addr(self.regs[rs1], offset);
                let x = self.regs[rs2];
                let b = x as u8;
                proof {
                    lemma_bit_facts(x, 0, 0, 0);
                }
                proof {
                    lemma_le_bytes_mod(x as nat, 1);
                }
                self.bus.store8(addr, b)?;
            },
            Inst::Sh { rs1, rs2, offset } => {
                let addr = offset_addr(self.regs[rs1], offset);
                let x = self.regs[rs2];
                let h = x as u16;
                proof {
                    lemma_bit_facts(x, 0, 0, 0);
                }
                proof {
                    lemma_le_bytes_mod(x as nat, 2);
                }
                self.bus.store16(addr, h)?;
            },
            Inst::Sw { rs1, rs2, offset } => {
                let addr = offset_addr(self.regs[rs1], offset);
                let x = self.regs[rs2];
                let w = x as u32;
                proof {
                    lemma_bit_facts(x, 0, 0, 0);
                }
                proof {
                    lemma_le_bytes_mod(x as nat, 4);
                }
                self.bus.store32(addr, w)?;
            },
            Inst::Sd { rs1, rs2, offset } => {
                let addr = offset_addr(self.regs[rs1], offset);
                self.bus.store64(addr, self.regs[rs2])?;
            },
            _ => {},
        }
        self.retire(len);
        Ok(())
    }

    /// One 32-bit atomic read-modify-write: rd = sign-extended old value,
    /// memory = op(old, rs2 low 32). A faulting address propagates before
    /// rd is written or pc commits, like any load/store.
    fn amo_w(&mut self, inst: Inst, len: u64, rd: usize, rs1: usize, rs2: usize, op: AmoOp) -> (r:
        Result<(), Exception>)
        requires
            old(self).wf(),
            inst.wf(),
            amo_access(inst) == Some((rd, rs1, rs2, op, true)),
        ensures
            old(self).executed(final(self), inst, len, r),
    {
        proof {
            lemma_pow256_facts();
        }
        let addr = self.regs[rs1];
        proof {
            lemma_read_bound(self.bus.mem(), self.bus.clint_state(), addr, 4);
        }
        let old = self.bus.load32(addr)?;
        let new = combine_w(op, old, low_word(self.regs[rs2]));
        self.bus.store32(addr, new)?;
        self.regs[rd] = sext32(old);
        self.retire(len);
        Ok(())
    }

    /// The 64-bit sibling of [`Self::amo_w`].
    fn amo_d(&mut self, inst: Inst, len: u64, rd: usize, rs1: usize, rs2: usize, op: AmoOp) -> (r:
        Result<(), Exception>)
        requires
            old(self).wf(),
            inst.wf(),
            amo_access(inst) == Some((rd, rs1, rs2, op, false)),
        ensures
            old(self).executed(final(self), inst, len, r),
    {
        proof {
            lemma_pow256_facts();
        }
        let addr = self.regs[rs1];
        let old = self.bus.load64(addr)?;
        let new = combine_d(op, old, self.regs[rs2]);
        self.bus.store64(addr, new)?;
        self.regs[rd] = old;
        self.retire(len);
        Ok(())
    }

    // LR/SC: the reservation is only taken after the load clears its fault
    // check, and SC drops it no matter which way it goes (a failed SC must
    // not leave a live reservation behind).
    fn exec_lr_sc(&mut self, inst: Inst, len: u64) -> (r: Result<(), Exception>)
        requires
            old(self).wf(),
            inst.wf(),
            lr_sc_access(inst) is Some,
        ensures
            old(self).executed(final(self), inst, len, r),
    {
        proof {
            lemma_pow256_facts();
        }
        match inst {
            Inst::LrW { rd, rs1 } => {
                let addr = self.regs[rs1];
                proof {
                    lemma_read_bound(self.bus.mem(), self.bus.clint_state(), addr, 4);
                }
                let w = self.bus.load32(addr)?;
                self.regs[rd] = sext32(w);
                self.reservation = Some(addr);
            },
            Inst::LrD { rd, rs1 } => {
                let addr = self.regs[rs1];
                let d = self.bus.load64(addr)?;
                self.regs[rd] = d;
                self.reservation = Some(addr);
            },
            Inst::ScW { rd, rs1, rs2 } => {
                let addr = self.regs[rs1];
                let held = self.reservation.take();
                let reserved = match held {
                    Some(a) => a == addr,
                    None => false,
                };
                if reserved {
                    let x = self.regs[rs2];
                    let w = low_word(x);
                    assert(w == x % 0x1_0000_0000);
                    proof {
                        lemma_le_bytes_mod(x as nat, 4);
                    }
                    self.bus.store32(addr, w)?;
                    self.regs[rd] = 0;
                } else {
                    self.regs[rd] = 1;
                }
            },
            Inst::ScD { rd, rs1, rs2 } => {
                let addr = self.regs[rs1];
                let held = self.reservation.take();
                let reserved = match held {
                    Some(a) => a == addr,
                    None => false,
                };
                if reserved {
                    self.bus.store64(addr, self.regs[rs2])?;
                    self.regs[rd] = 0;
                } else {
                    self.regs[rd] = 1;
                }
            },
            _ => {},
        }
        self.retire(len);
        Ok(())
    }

    // Zicsr: read the old value first, so rd == rs1 still gets the swap
    // semantics right. The set/clear forms skip the write when the mask
    // source is x0 or a zero immediate, so a plain read never dirties a CSR.
    fn exec_csr(&mut self, inst: Inst, len: u64)
        requires
            old(self).wf(),
            inst.wf(),
            csr_access(inst) is Some,
        ensures
            old(self).executed(final(self), inst, len, Ok(())),
    {
        match inst {
            Inst::Csrrw { rd, rs1, csr } => {
                let old = self.csrs[csr];
                self.csrs[csr] = self.regs[rs1];
                self.regs[rd] = old;
            },
            Inst::Csrrs { rd, rs1, csr } => {
                let old = self.csrs[csr];
                if rs1 != 0 {
                    self.csrs[csr] = old | self.regs[rs1];
                }
                self.regs[rd] = old;
            },
            Inst::Csrrc { rd, rs1, csr } => {
                let old = self.csrs[csr];
                if rs1 != 0 {
                    self.csrs[csr] = old & !self.regs[rs1];
                }
                self.regs[rd] = old;
            },
            Inst::Csrrwi { rd, uimm, csr } => {
                self.regs[rd] = self.csrs[csr];
                self.csrs[csr] = uimm;
            },
            Inst::Csrrsi { rd, uimm, csr } => {
                let old = self.csrs[csr];
                if uimm != 0 {
                    self.csrs[csr] = old | uimm;
                }
                self.regs[rd] = old;
            },
            Inst::Csrrci { rd, uimm, csr } => {
                let old = self.csrs[csr];
                if uimm != 0 {
                    self.csrs[csr] = old & !uimm;
                }
                self.regs[rd] = old;
            },
            _ => {},
        }
        self.retire(len);
    }

    // Jumps, branches, MRET and the fences. The link of JAL/JALR is the
    // address of the next instruction; JALR reads rs1 before writing rd
    // (rd may be the same register) and clears bit 0 of its target.
    fn exec_control(&mut self, inst: Inst, len: u64)
        requires
            old(self).wf(),
            inst.wf(),
            inst is Jal || inst is Jalr || branch_access(inst) is Some || inst is Mret
                || inst is Fence || inst is FenceI,
        ensures
            old(self).executed(final(self), inst, len, Ok(())),
    {
        let fallthrough = wadd64(self.pc, len);
        let next_pc = match inst {
            Inst::Jal { rd, offset } => {
                let target = offset_addr(self.pc, offset);
                self.regs[rd] = fallthrough;
                target
            },
            Inst::Jalr { rd, rs1, offset } => {
                let target = offset_addr(self.regs[rs1], offset) & !1u64;
                self.regs[rd] = fallthrough;
                target
            },
            Inst::Beq { rs1, rs2, offset } => {
                if self.regs[rs1] == self.regs[rs2] {
                    offset_addr(self.pc, offset)
                } else {
                    fallthrough
                }
            },
            Inst::Bne { rs1, rs2, offset } => {
                if self.regs[rs1] != self.regs[rs2] {
                    offset_addr(self.pc, offset)
                } else {
                    fallthrough
                }
            },
            Inst::Blt { rs1, rs2, offset } => {
                let (x, y) = (self.regs[rs1], self.regs[rs2]);
                let taken = (x as i64) < (y as i64);
                proof {
                    lemma_signed_order(0, 0, x, y);
                }
                if taken {
                    offset_addr(self.pc, offset)
                } else {
                    fallthrough
                }
            },
            Inst::Bge { rs1, rs2, offset } => {
                let (x, y) = (self.regs[rs1], self.regs[rs2]);
                let taken = (x as i64) >= (y as i64);
                proof {
                    lemma_signed_order(0, 0, x, y);
                }
                if taken {
                    offset_addr(self.pc, offset)
                } else {
                    fallthrough
                }
            },
            Inst::Bltu { rs1, rs2, offset } => {
                if self.regs[rs1] < self.regs[rs2] {
                    offset_addr(self.pc, offset)
                } else {
                    fallthrough
                }
            },
            Inst::Bgeu { rs1, rs2, offset } => {
                if self.regs[rs1] >= self.regs[rs2] {
                    offset_addr(self.pc, offset)
                } else {
                    fallthrough
                }
            },
            // Minimal MRET: the jump back to mepc.
            Inst::Mret => self.csrs[MEPC],
            // No-ops on this in-order single-hart interpreter; fetch always
            // reads memory directly, so FENCE.I has no cache to flush.
            _ => fallthrough,
        };
        self.regs[0] = 0;
        self.pc = next_pc;
    }

    /// Take a trap: record what happened in the CSRs and redirect pc to the
    /// handler. `self.pc` must still point at the instruction that trapped
    /// (execute guarantees this: pc is only committed on success).
    pub fn trap(&mut self, e: &Exception)
        requires
            old(self).wf(),
        ensures
            final(self).is_state(old(self)@.take_trap(*e)),
            final(self).bus == old(self).bus,
    {
        self.csrs[MEPC] = self.pc;
        self.csrs[MCAUSE] = e.cause();
        self.csrs[MTVAL] = match e {
            // The address of the EBREAK itself goes to mtval; only the
            // dispatcher knows the pc, so it is filled in here.
            Exception::Breakpoint => self.pc,
            _ => e.tval(),
        };
        // The low 2 bits of mtvec select direct vs vectored mode. Vectored
        // only affects interrupts; exceptions always enter at base.
        self.pc = self.csrs[MTVEC] & !0b11u64;
    }

    /// Execute one decoded instruction of encoded length `len` (4, or 2 for
    /// a compressed one): update registers and advance pc.
    ///
    /// During execution `self.pc` still points at the current instruction
    /// (jumps and AUIPC need it); the new pc is committed at the very end,
    /// and not at all when an exception comes out.
    pub fn execute(&mut self, inst: Inst, len: u64) -> (r: Result<(), Exception>)
        requires
            old(self).wf(),
            inst.wf(),
        ensures
            old(self).executed(final(self), inst, len, r),
    {
        match inst {
            Inst::Lb { .. } | Inst::Lh { .. } | Inst::Lw { .. } | Inst::Lbu { .. } | Inst::Lhu {
                ..
            } | Inst::Lwu { .. } | Inst::Ld { .. } => self.exec_load(inst, len),
            Inst::Sb { .. } | Inst::Sh { .. } | Inst::Sw { .. } | Inst::Sd { .. } => self.exec_store(
                inst,
                len,
            ),
            Inst::AmoaddW { rd, rs1, rs2 } => self.amo_w(inst, len, rd, rs1, rs2, AmoOp::Add),
            Inst::AmoaddD { rd, rs1, rs2 } => self.amo_d(inst, len, rd, rs1, rs2, AmoOp::Add),
            Inst::AmoswapW { rd, rs1, rs2 } => self.amo_w(inst, len, rd, rs1, rs2, AmoOp::Swap),
            Inst::AmoswapD { rd, rs1, rs2 } => self.amo_d(inst, len, rd, rs1, rs2, AmoOp::Swap),
            Inst::AmoxorW { rd, rs1, rs2 } => self.amo_w(inst, len, rd, rs1, rs2, AmoOp::Xor),
            Inst::AmoxorD { rd, rs1, rs2 } => self.amo_d(inst, len, rd, rs1, rs2, AmoOp::Xor),
            Inst::AmoorW { rd, rs1, rs2 } => self.amo_w(inst, len, rd, rs1, rs2, AmoOp::Or),
            Inst::AmoorD { rd, rs1, rs2 } => self.amo_d(inst, len, rd, rs1, rs2, AmoOp::Or),
            Inst::AmoandW { rd, rs1, rs2 } => self.amo_w(inst, len, rd, rs1, rs2, AmoOp::And),
            Inst::AmoandD { rd, rs1, rs2 } => self.amo_d(inst, len, rd, rs1, rs2, AmoOp::And),
            Inst::AmominW { rd, rs1, rs2 } => self.amo_w(inst, len, rd, rs1, rs2, AmoOp::Min),
            Inst::AmominD { rd, rs1, rs2 } => self.amo_d(inst, len, rd, rs1, rs2, AmoOp::Min),
            Inst::AmomaxW { rd, rs1, rs2 } => self.amo_w(inst, len, rd, rs1, rs2, AmoOp::Max),
            Inst::AmomaxD { rd, rs1, rs2 } => self.amo_d(inst, len, rd, rs1, rs2, AmoOp::Max),
            Inst::AmominuW { rd, rs1, rs2 } => self.amo_w(inst, len, rd, rs1, rs2, AmoOp::Minu),
            Inst::AmominuD { rd, rs1, rs2 } => self.amo_d(inst, len, rd, rs1, rs2, AmoOp::Minu),
            Inst::AmomaxuW { rd, rs1, rs2 } => self.amo_w(inst, len, rd, rs1, rs2, AmoOp::Maxu),
            Inst::AmomaxuD { rd, rs1, rs2 } => self.amo_d(inst, len, rd, rs1, rs2, AmoOp::Maxu),
            Inst::LrW { .. } | Inst::LrD { .. } | Inst::ScW { .. } | Inst::ScD {
                ..
            } => self.exec_lr_sc(inst, len),
            Inst::Csrrw { .. } | Inst::Csrrs { .. } | Inst::Csrrc { .. } | Inst::Csrrwi { .. }
            | Inst::Csrrsi { .. } | Inst::Csrrci { .. } => {
                self.exec_csr(inst, len);
                Ok(())
            },
            // ECALL/EBREAK do not compute: raising the exception is their
            // whole semantics, and trap() sets pc itself.
            Inst::Ecall => {
                self.trap(&Exception::EnvironmentCallFromMMode);
                Ok(())
            },
            Inst::Ebreak => {
                self.trap(&Exception::Breakpoint);
                Ok(())
            },
            Inst::Jal { .. } | Inst::Jalr { .. } | Inst::Beq { .. } | Inst::Bne { .. }
            | Inst::Blt { .. } | Inst::Bge { .. } | Inst::Bltu { .. } | Inst::Bgeu { .. }
            | Inst::Mret | Inst::Fence | Inst::FenceI => {
                self.exec_control(inst, len);
                Ok(())
            },
            _ => {
                self.exec_compute(inst, len);
                Ok(())
            },
        }
    }

    /// Fetch the 32-bit instruction word at pc.
    pub fn fetch(&self) -> (r: Result<u32, Exception>)
        requires
            self.wf(),
        ensures
            r == (match self.bus.load_result(self.pc, 4) {
                Ok(v) => Ok(v as u32),
                Err(e) => Err::<u32, Exception>(e),
            }),
    {
        self.bus.load32(self.pc)
    }

    /// Fetch and decode the instruction at pc, 16-bit parcel first (the C
    /// extension): returns the instruction, its length in bytes and its raw
    /// encoding.
    pub fn fetch_decode(&self) -> (r: Result<(Inst, u64, u32), Exception>)
        requires
            self.wf(),
        ensures
            r == self@.fetched(),
            r matches Ok((inst, _, _)) ==> inst.wf(),
    {
        proof {
            lemma_pow256_facts();
            lemma_read_bound(self.bus.mem(), self.bus.clint_state(), self.pc, 2);
            lemma_read_bound(self.bus.mem(), self.bus.clint_state(), self.pc, 4);
        }
        let parcel = self.bus.load16(self.pc)?;
        if parcel & 0b11 == 0b11 {
            assert(parcel & 3 == parcel % 4) by {
                lemma_bit_facts(0, 0, parcel, 0);
            }
            let raw = self.bus.load32(self.pc)?;
            let inst = decode(raw)?;
            Ok((inst, 4, raw))
        } else {
            assert(parcel & 3 == parcel % 4) by {
                lemma_bit_facts(0, 0, parcel, 0);
            }
            let inst = decode_compressed(parcel)?;
            Ok((inst, 2, parcel as u32))
        }
    }

    /// One turn of the interpreter loop: fetch → decode → execute.
    pub fn step(&mut self) -> (r: Result<(), Exception>)
        requires
            old(self).wf(),
        ensures
            r == old(self)@.step().1,
            final(self).is_state(old(self)@.step().0),
    {
        proof {
            lemma_pow256_facts();
            lemma_read_bound(self.bus.mem(), self.bus.clint_state(), self.pc, 4);
        }
        let raw = self.fetch()?;
        let inst = decode(raw)?;
        self.execute(inst, 4)
    }
}

/// DRAM, the CLINT and the first exception after writing `segs` in order,
/// stopping at the first segment that does not fit (the ones before it stay
/// written).
pub open spec fn segments_loaded(mem: Seq<u8>, clint: Clint, segs: Seq<Segment>) -> (
    Seq<u8>,
    Clint,
    Option<Exception>,
)
    decreases segs.len(),
{
    if segs.len() == 0 {
        (mem, clint, None)
    } else {
        let (m, c, e) = segments_loaded(mem, clint, segs.drop_last());
        let seg = segs.last();
        if e is Some {
            (m, c, e)
        } else if write_ok(c, seg.addr, seg.data@.len()) {
            (
                mem_after_write(m, seg.addr, seg.data@),
                clint_after_write(c, seg.addr, seg.data@),
                None,
            )
        } else {
            (m, c, Some(Exception::StoreAmoAccessFault(seg.addr)))
        }
    }
}

impl Cpu {
    /// Load an ELF into memory and point pc at the entry (the power-on step).
    /// The tail of a segment past its file bytes (.bss) needs no explicit
    /// zeroing: Bus::new() allocates all of DRAM zero-filled.
    pub fn load_elf(&mut self, elf: &LoadedElf) -> (r: Result<(), Exception>)
        requires
            old(self).wf(),
        ensures
            final(self).wf(),
            ({
                let (m, c, e) = segments_loaded(
                    old(self).bus.mem(),
                    old(self).bus.clint_state(),
                    elf.segment_list(),
                );
                &&& final(self).bus.mem() == m
                &&& final(self).bus.clint_state() == c
                &&& match e {
                    None => r is Ok && final(self).pc == elf.entry_point(),
                    Some(x) => r == Err::<(), Exception>(x) && final(self).pc == old(self).pc,
                }
            }),
            final(self).regs == old(self).regs,
            final(self).csrs == old(self).csrs,
            final(self).reservation == old(self).reservation,
    {
        let segs = elf.segments();
        let mut i: usize = 0;
        while i < segs.len()
            invariant
                i <= segs@.len(),
                segs@ == elf.segment_list(),
                self.wf(),
                self.regs == old(self).regs,
                self.csrs == old(self).csrs,
                self.reservation == old(self).reservation,
                self.pc == old(self).pc,
                ({
                    let (m, c, e) = segments_loaded(
                        old(self).bus.mem(),
                        old(self).bus.clint_state(),
                        segs@.take(i as int),
                    );
                    &&& self.bus.mem() == m
                    &&& self.bus.clint_state() == c
                    &&& e is None
                }),
            decreases segs@.len() - i,
        {
            let seg = &segs[i];
            assert(segs@.take(i + 1).drop_last() =~= segs@.take(i as int));
            let w = self.bus.write_bytes(seg.addr, seg.data.as_slice());
            match w {
                Ok(()) => {},
                Err(e) => {
                    proof {
                        lemma_loaded_stops(
                            old(self).bus.mem(),
                            old(self).bus.clint_state(),
                            segs@,
                            i as int,
                        );
                    }
                    return Err(e);
                },
            }
            i = i + 1;
        }
        assert(segs@.take(i as int) =~= segs@);
        self.pc = elf.entry();
        Ok(())
    }
}

/// Once a segment fails, later segments change nothing: the whole load ends
/// where the prefix ending in the failing segment ended.
proof fn lemma_loaded_stops(mem: Seq<u8>, clint: Clint, segs: Seq<Segment>, i: int)
    requires
        0 <= i < segs.len(),
        segments_loaded(mem, clint, segs.take(i + 1)).2 is Some,
    ensures
        segments_loaded(mem, clint, segs) == segments_loaded(mem, clint, segs.take(i + 1)),
    decreases segs.len(),
{
    if segs.len() == i + 1 {
        assert(segs.take(i + 1) =~= segs);
    } else {
        assert(segs.drop_last().take(i + 1) =~= segs.take(i + 1));
        lemma_loaded_stops(mem, clint, segs.drop_last(), i);
    }
}

impl Default for Cpu {
    fn default() -> (cpu: Self)
        ensures
            cpu.wf(),
            cpu.regs@ == Seq::new(32, |i: int| 0u64),
            cpu.pc == 0,
            cpu.csrs@ == Seq::new(4096, |i: int| 0u64),
            cpu.reservation is None,
            cpu.bus.mem() == Seq::new(crate::bus::DRAM_SIZE as nat, |i: int| 0u8),
            cpu.bus.clint_state() == Clint::reset(),
    {
        Self::new()
    }
}

// --- Laws of execution --------------------------------------------------------------

/// x0 is hardwired to zero: whatever an instruction does, and whether or not
/// it faults, x0 still reads 0 afterwards.
pub proof fn law_x0_stays_zero(m: Machine, inst: Inst, len: u64)
    requires
        inst.wf(),
        m.regs.len() == 32,
        m.regs[0] == 0,
    ensures
        m.exec(inst, len).0.regs[0] == 0,
{
    if m.fault(inst) is None && !(inst is Ecall || inst is Ebreak) {
        let base = match m.writeback(inst, len) {
            Some((rd, v)) => m.regs.update(rd as int, v),
            None => m.regs,
        };
        assert(base.len() == 32);
        assert(m.exec(inst, len).0.regs == base.update(0, 0));
    }
}

/// The computational instructions, division included, never trap: a zero
/// divisor and signed overflow have defined results.
pub proof fn law_compute_never_traps(m: Machine, inst: Inst, len: u64)
    requires
        is_compute(inst),
    ensures
        m.exec(inst, len).1 is Ok,
{
}

/// A fault commits nothing: pc still points at the faulting instruction,
/// and registers, CSRs and memory are as they were (an SC has consumed the
/// reservation, as it does whichever way it goes).
pub proof fn law_fault_commits_nothing(m: Machine, inst: Inst, len: u64)
    requires
        m.exec(inst, len).1 is Err,
    ensures
        m.exec(inst, len).0.pc == m.pc,
        m.exec(inst, len).0.regs == m.regs,
        m.exec(inst, len).0.csrs == m.csrs,
        m.exec(inst, len).0.mem == m.mem,
        m.exec(inst, len).0.clint == m.clint,
{
}

/// Every SC consumes the reservation, whether it succeeds, fails, or faults.
pub proof fn law_sc_consumes_reservation(m: Machine, inst: Inst, len: u64)
    requires
        inst is ScW || inst is ScD,
    ensures
        m.exec(inst, len).0.reservation is None,
{
}

/// An SC succeeds exactly when the reservation holds its address: then it
/// writes 0 to rd and stores the low bytes of rs2 there; otherwise it writes
/// 1 and stores nothing.
pub proof fn law_sc_succeeds_iff_reserved(m: Machine, sc: Inst, len: u64)
    requires
        lr_sc_access(sc) matches Some((_, _, _, _, is_sc)) && is_sc,
    ensures
        ({
            let (rd, rs1, rs2, word, _) = lr_sc_access(sc).unwrap();
            if m.reservation == Some(m.x(rs1)) {
                &&& m.writeback(sc, len) == Some((rd, 0u64))
                &&& m.mem_write(sc) == Some((m.x(rs1), le_bytes(m.x(rs2) as nat, amo_width(word))))
            } else {
                &&& m.writeback(sc, len) == Some((rd, 1u64))
                &&& m.mem_write(sc) is None
            }
        }),
{
}

/// An LR that completes reserves its address, so an SC that follows it at
/// the same address succeeds.
pub proof fn law_lr_then_sc_succeeds(m: Machine, lr: Inst, len: u64, sc: Inst, len2: u64)
    requires
        lr_sc_access(lr) matches Some((_, _, _, _, is_sc)) && !is_sc,
        lr_sc_access(sc) matches Some((_, _, _, _, is_sc)) && is_sc,
        m.exec(lr, len).1 is Ok,
        m.exec(lr, len).0.x(lr_sc_access(sc).unwrap().1) == m.x(lr_sc_access(lr).unwrap().1),
    ensures
        ({
            let t = m.exec(lr, len).0;
            &&& t.writeback(sc, len2) == Some((lr_sc_access(sc).unwrap().0, 0u64))
            &&& t.mem_write(sc) is Some
        }),
{
}

/// A trap records the trapping instruction's address in mepc and enters the
/// handler at mtvec; an MRET executed while mepc still holds that address
/// returns to the trapping instruction.
pub proof fn law_trap_then_mret_returns(m: Machine, trap: Inst, len: u64, u: Machine, len2: u64)
    requires
        trap is Ecall || trap is Ebreak,
        m.csrs.len() == 4096,
        u.csrs[MEPC as int] == m.exec(trap, len).0.csrs[MEPC as int],
    ensures
        m.exec(trap, len).0.pc == m.trap_target(),
        m.exec(trap, len).0.csrs[MEPC as int] == m.pc,
        u.next_pc(Inst::Mret, len2) == m.pc,
{
}

/// JALR clears bit 0 of its target: it never jumps to an odd address.
pub proof fn law_jalr_target_even(m: Machine, inst: Inst, len: u64)
    requires
        inst is Jalr,
    ensures
        m.next_pc(inst, len) % 2 == 0,
{
    let t = to_reg(m.x(inst->Jalr_rs1) + inst->Jalr_offset);
    lemma_bit_facts(t, 0, 0, 0);
}

/// No decoded instruction writes a read-only CSR (address bits [11:10] =
/// 0b11): a Zicsr instruction on one decodes only in a form that leaves the
/// CSR alone.
pub proof fn law_read_only_csrs_never_written(raw: u32, old: u64, src: u64)
    requires
        decode_spec(raw) matches Ok(inst) && csr_access(inst) matches Some((_, csr, _, _))
            && csr / 0x400 == 3,
    ensures
        csr_update(decode_spec(raw).unwrap(), old, src) is None,
{
}

/// Fetch is coherent with stores: fetch reads memory directly, so once an SW
/// into DRAM has run, a step from the stored address executes the word just
/// stored (self-modifying code needs no cache flush, and FENCE.I is a no-op).
pub proof fn law_fetch_sees_stores(m: Machine, sw: Inst, len: u64)
    requires
        sw is Sw,
        m.mem.len() == DRAM_SIZE,
        in_dram(m.ea(sw->Sw_rs1, sw->Sw_offset), 4),
    ensures
        ({
            let a = m.ea(sw->Sw_rs1, sw->Sw_offset);
            let w = m.x(sw->Sw_rs2) as u32;
            let t = Machine { pc: a, ..m.exec(sw, len).0 };
            &&& m.exec(sw, len).1 is Ok
            &&& t.step() == match decode_spec(w) {
                Ok(inst) => t.exec(inst, 4),
                Err(e) => (t, Err(e)),
            }
        }),
{
    let a = m.ea(sw->Sw_rs1, sw->Sw_offset);
    let x = m.x(sw->Sw_rs2);
    lemma_pow256_facts();
    law_dram_store_load_roundtrip(m.mem, m.clint, a, x as nat, 4);
    lemma_bit_facts(x, 0, 0, 0);
}

/// A plain CSR read never dirties the CSR: CSRRS/CSRRC with rs1 = x0 and
/// CSRRSI/CSRRCI with a zero immediate leave every CSR as it was and hand
/// rd the CSR's value (x0 excepted, which stays zero).
pub proof fn law_csr_read_leaves_csrs(m: Machine, inst: Inst, len: u64)
    requires
        inst.wf(),
        m.regs.len() == 32,
        (inst matches Inst::Csrrs { rs1, .. } && rs1 == 0) || (inst matches Inst::Csrrc { rs1, .. }
            && rs1 == 0) || (inst matches Inst::Csrrsi { uimm, .. } && uimm == 0) || (
        inst matches Inst::Csrrci { uimm, .. } && uimm == 0),
    ensures
        ({
            let (rd, csr, _, _) = csr_access(inst).unwrap();
            &&& m.exec(inst, len).1 is Ok
            &&& m.exec(inst, len).0.csrs == m.csrs
            &&& rd != 0 ==> m.exec(inst, len).0.regs[rd as int] == m.csrs[csr as int]
        }),
{
}

/// Word loads sign-extend like the W arithmetic: LW, LR.W and the word
/// AMOs leave in rd a value whose upper 32 bits copy bit 31 of the word.
pub proof fn law_word_loads_sign_extended(m: Machine, inst: Inst, len: u64)
    requires
        inst.wf(),
        m.regs.len() == 32,
        m.mem.len() == DRAM_SIZE,
        inst is Lw || inst is LrW || (amo_access(inst) matches Some((_, _, _, _, word)) && word),
        m.exec(inst, len).1 is Ok,
    ensures
        m.writeback(inst, len) is Some,
        ({
            let (rd, v) = m.writeback(inst, len).unwrap();
            &&& to_reg32(v as int) == v
            &&& rd != 0 ==> m.exec(inst, len).0.regs[rd as int] == v
        }),
{
    lemma_pow256_facts();
    let a = if inst is Lw {
        m.ea(inst->Lw_rs1, inst->Lw_offset)
    } else if inst is LrW {
        m.x(inst->LrW_rs1)
    } else {
        m.x(amo_access(inst).unwrap().1)
    };
    lemma_read_bound(m.mem, m.clint, a, 4);
    let r = m.read(a, 4).unwrap();
    assert(r < 0x1_0000_0000);
    assert(r as int % 0x1_0000_0000 == r);
    lemma_to_reg32_idempotent(r as int);
    let (rd, v) = m.writeback(inst, len).unwrap();
    if rd != 0 {
        assert(m.exec(inst, len).0.regs == m.regs.update(rd as int, v).update(0, 0));
    }
}

} // verus!
