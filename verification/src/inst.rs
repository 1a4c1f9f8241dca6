//! Instruction representation and the decoders.
//!
//! `decode` is a pure function from a 32-bit instruction word to an `Inst`, and
//! `decode_compressed` one from a 16-bit parcel; nothing here touches CPU state.
//! Executing an `Inst` is cpu.rs's job. The enum follows the instruction listing
//! of the unprivileged ISA.
//!
//! The decoders are specified field by field: `rd_of`, `imm_i_spec` and their
//! siblings read the instruction fields arithmetically (bit `k` of a word `w` is
//! `w / 2^k % 2`), and `decode_spec` is the opcode table over those fields.

use vstd::prelude::*;

use crate::exception::Exception;

verus! {

/// A decoded instruction.
///
/// Register fields (rd/rs1/rs2) are kept as `usize` so they can index `Cpu::regs`
/// directly. Immediates are stored already sign-extended as `i64`.
#[derive(Debug, Clone, Copy, PartialEq, Eq, Structural)]
pub enum Inst {
    // --- RV64I ---
    /// ADD Immediate: `rd = rs1 + imm`. Also the workhorse behind the `li` (load
    /// immediate, rs1=x0), `mv` (rd = rs1, imm=0) and `nop` pseudo-instructions.
    Addi { rd: usize, rs1: usize, imm: i64 },
    /// Set Less Than Immediate: `rd = ((rs1 as i64) < imm) ? 1 : 0` (signed).
    Slti { rd: usize, rs1: usize, imm: i64 },
    /// Set Less Than Immediate Unsigned. The immediate is still sign-extended
    /// first; only the comparison is unsigned ("unsigned compare", not
    /// "unsigned immediate"). `sltiu rd, rs1, 1` is the `seqz` (set if zero)
    /// pseudo-instruction: only 0 is unsigned-less-than 1.
    Sltiu { rd: usize, rs1: usize, imm: i64 },
    /// XOR Immediate. `xori rd, rs1, -1` (all ones) is the `not` pseudo-instruction.
    Xori { rd: usize, rs1: usize, imm: i64 },
    /// OR Immediate.
    Ori { rd: usize, rs1: usize, imm: i64 },
    /// AND Immediate. With small masks (e.g. `andi rd, rs1, 0xff`) the go-to
    /// low-bit extractor.
    Andi { rd: usize, rs1: usize, imm: i64 },
    /// Load Upper Immediate: `rd = imm << 12`. Places the upper 20 bits of a
    /// constant; a following I-type instruction supplies the (signed) low 12,
    /// so the pair covers any sign-extended 32-bit value.
    Lui { rd: usize, imm: i64 },
    /// Add Upper Immediate to PC: `rd = pc + (imm << 12)`. Builds pc-relative
    /// addresses (the upper 20 bits; a following addi/load supplies the low 12).
    Auipc { rd: usize, imm: i64 },
    /// Jump And Link: `rd = pc + 4; pc += offset`. The saved return address makes
    /// it a function call; with rd=x0 the link is discarded and it is a plain jump.
    Jal { rd: usize, offset: i64 },
    /// Jump And Link Register: `rd = pc + 4; pc = (rs1 + offset) & !1`. The
    /// computed-target jump: function returns (`ret` = `jalr x0, 0(x1)`),
    /// indirect calls, and the second half of the auipc+jalr far-call pair.
    /// Unlike JAL it can produce an odd address, so bit 0 is cleared by the ISA.
    Jalr { rd: usize, rs1: usize, offset: i64 },

    // --- RV64I OP-IMM shifts ---
    // I-type with the immediate field repurposed: the low 6 bits are the shift
    // amount (RV64; RV32 uses 5) and the leftover high bits act as funct6,
    // telling the logical and arithmetic right shifts apart.
    //
    /// Shift Left Logical Immediate: `rd = rs1 << shamt`. Zeros shift in.
    Slli { rd: usize, rs1: usize, shamt: u32 },
    /// Shift Right Logical Immediate: `rd = rs1 >> shamt`. Zeros shift in.
    Srli { rd: usize, rs1: usize, shamt: u32 },
    /// Shift Right Arithmetic Immediate: `rd = (rs1 as i64) >> shamt`. Copies of
    /// the sign bit shift in: division by 2^shamt rounding toward -infinity.
    Srai { rd: usize, rs1: usize, shamt: u32 },

    // --- RV64I OP-IMM-32 (the "W" family) ---
    // Operate on the low 32 bits and sign-extend the 32-bit result to 64. This is
    // what C's `int` arithmetic compiles to on RV64: a plain 64-bit add would leak
    // carries into the upper half instead of wrapping at 32 bits.
    //
    /// ADD Immediate Word: 32-bit addi, result sign-extended to 64 bits.
    Addiw { rd: usize, rs1: usize, imm: i64 },
    /// Shift Left Logical Immediate Word (shamt is back to 5 bits).
    Slliw { rd: usize, rs1: usize, shamt: u32 },
    /// Shift Right Logical Immediate Word: zeros shift into bit 31.
    Srliw { rd: usize, rs1: usize, shamt: u32 },
    /// Shift Right Arithmetic Immediate Word: bit 31 (not 63) is the sign.
    Sraiw { rd: usize, rs1: usize, shamt: u32 },

    // --- RV64I OP (R-type): register-register arithmetic ---
    // funct3 picks one of eight operations; bit 30 of funct7 flips ADD to SUB
    // and SRL to SRA, the same "alternate operation" bit as in the shifts above.
    // Register shifts take their amount from the low 6 bits of rs2 (5 for W).
    //
    /// `rd = rs1 + rs2`.
    Add { rd: usize, rs1: usize, rs2: usize },
    /// `rd = rs1 - rs2`.
    Sub { rd: usize, rs1: usize, rs2: usize },
    /// Shift Left Logical: `rd = rs1 << rs2`.
    Sll { rd: usize, rs1: usize, rs2: usize },
    /// Set Less Than (signed): `rd = if rs1 < rs2 { 1 } else { 0 }`. Materializes
    /// a comparison as a value, complementing the fused compare-and-branch.
    Slt { rd: usize, rs1: usize, rs2: usize },
    /// Set Less Than Unsigned.
    Sltu { rd: usize, rs1: usize, rs2: usize },
    /// `rd = rs1 ^ rs2`.
    Xor { rd: usize, rs1: usize, rs2: usize },
    /// Shift Right Logical: `rd = rs1 >> rs2`.
    Srl { rd: usize, rs1: usize, rs2: usize },
    /// Shift Right Arithmetic: `rd = (rs1 as i64) >> rs2`.
    Sra { rd: usize, rs1: usize, rs2: usize },
    /// `rd = rs1 | rs2`.
    Or { rd: usize, rs1: usize, rs2: usize },
    /// `rd = rs1 & rs2`.
    And { rd: usize, rs1: usize, rs2: usize },

    // --- RV64I OP-32: the register-register W family ---
    //
    /// 32-bit add, result sign-extended to 64 bits.
    Addw { rd: usize, rs1: usize, rs2: usize },
    /// 32-bit subtract, result sign-extended.
    Subw { rd: usize, rs1: usize, rs2: usize },
    /// 32-bit shift left (amount from rs2's low 5 bits).
    Sllw { rd: usize, rs1: usize, rs2: usize },
    /// 32-bit logical shift right.
    Srlw { rd: usize, rs1: usize, rs2: usize },
    /// 32-bit arithmetic shift right (bit 31 is the sign).
    Sraw { rd: usize, rs1: usize, rs2: usize },

    // --- M extension: multiplication (funct7=0000001 on OP / OP-32) ---
    // A 64×64 product is 128 bits; one instruction returns one half.
    //
    /// MULtiply: `rd = low 64 bits of rs1 * rs2`. The low half is identical
    /// whether the operands are read as signed or unsigned (two's-complement
    /// property), so one instruction covers both.
    Mul { rd: usize, rs1: usize, rs2: usize },
    /// MULtiply High: high 64 bits of the signed × signed product.
    Mulh { rd: usize, rs1: usize, rs2: usize },
    /// MULtiply High Signed×Unsigned: rs1 signed, rs2 unsigned. The fourth
    /// combination (unsigned × signed) needs no opcode: swap the operands.
    /// Exists to build multi-word signed multiplication.
    Mulhsu { rd: usize, rs1: usize, rs2: usize },
    /// MULtiply High Unsigned: high 64 bits of the unsigned × unsigned product.
    Mulhu { rd: usize, rs1: usize, rs2: usize },
    /// MULtiply Word (OP-32): low 32 × low 32, low 32 bits of the result
    /// sign-extended to 64. No MULHW: fetch the high half of a 32-bit
    /// product with a plain MUL on sign-extended operands and a shift.
    Mulw { rd: usize, rs1: usize, rs2: usize },

    // --- M extension: division (funct7=0000001, funct3 4-7) ---
    // No arithmetic traps in RISC-V: the two error cases have defined
    // result values instead. Division by zero returns all ones (DIV*) or
    // the dividend (REM*); signed overflow (MIN / -1) returns MIN / 0.
    //
    /// DIVide (signed): `rd = rs1 / rs2`, rounding toward zero.
    Div { rd: usize, rs1: usize, rs2: usize },
    /// DIVide Unsigned.
    Divu { rd: usize, rs1: usize, rs2: usize },
    /// REMainder (signed): the sign follows the dividend (rs1), pairing
    /// with DIV so that `div*rs2 + rem == rs1` always holds.
    Rem { rd: usize, rs1: usize, rs2: usize },
    /// REMainder Unsigned.
    Remu { rd: usize, rs1: usize, rs2: usize },
    /// DIVide Word: low 32 / low 32 as signed, result sign-extended.
    Divw { rd: usize, rs1: usize, rs2: usize },
    /// DIVide Unsigned Word. The 32-bit result is still sign-extended:
    /// a quotient with bit 31 set comes back with all upper bits ones.
    Divuw { rd: usize, rs1: usize, rs2: usize },
    /// REMainder Word (signed).
    Remw { rd: usize, rs1: usize, rs2: usize },
    /// REMainder Unsigned Word (sign-extended like DIVUW).
    Remuw { rd: usize, rs1: usize, rs2: usize },

    // --- A extension: atomic memory operations (opcode 0x2f) ---
    // Read-modify-write on mem[rs1] as one indivisible step: rd receives
    // the old memory value (sign-extended for .W), memory receives
    // op(old, rs2). On a single-hart in-order interpreter every load+store
    // pair is already indivisible, so atomicity costs nothing here; the
    // aq/rl ordering-hint bits are likewise no-ops and are not stored.
    // The .W forms compute on (and store) 32 bits.
    //
    /// AMO ADD word: mem += rs2.
    AmoaddW { rd: usize, rs1: usize, rs2: usize },
    /// AMO ADD doubleword.
    AmoaddD { rd: usize, rs1: usize, rs2: usize },
    /// AMO SWAP word: mem = rs2 (the old value lands in rd — an exchange).
    AmoswapW { rd: usize, rs1: usize, rs2: usize },
    /// AMO SWAP doubleword.
    AmoswapD { rd: usize, rs1: usize, rs2: usize },
    /// AMO XOR word.
    AmoxorW { rd: usize, rs1: usize, rs2: usize },
    /// AMO XOR doubleword.
    AmoxorD { rd: usize, rs1: usize, rs2: usize },
    /// AMO OR word.
    AmoorW { rd: usize, rs1: usize, rs2: usize },
    /// AMO OR doubleword.
    AmoorD { rd: usize, rs1: usize, rs2: usize },
    /// AMO AND word.
    AmoandW { rd: usize, rs1: usize, rs2: usize },
    /// AMO AND doubleword.
    AmoandD { rd: usize, rs1: usize, rs2: usize },
    /// AMO MINimum word (signed compare).
    AmominW { rd: usize, rs1: usize, rs2: usize },
    /// AMO MINimum doubleword (signed).
    AmominD { rd: usize, rs1: usize, rs2: usize },
    /// AMO MAXimum word (signed).
    AmomaxW { rd: usize, rs1: usize, rs2: usize },
    /// AMO MAXimum doubleword (signed).
    AmomaxD { rd: usize, rs1: usize, rs2: usize },
    /// AMO MINimum Unsigned word.
    AmominuW { rd: usize, rs1: usize, rs2: usize },
    /// AMO MINimum Unsigned doubleword.
    AmominuD { rd: usize, rs1: usize, rs2: usize },
    /// AMO MAXimum Unsigned word.
    AmomaxuW { rd: usize, rs1: usize, rs2: usize },
    /// AMO MAXimum Unsigned doubleword.
    AmomaxuD { rd: usize, rs1: usize, rs2: usize },

    // --- A extension: load-reserved / store-conditional ---
    // The build-your-own-atomic pair: LR loads and registers a reservation
    // on the address; SC stores only if the reservation still stands,
    // reporting success (0) or failure (1) in rd. Software retries the
    // whole LR..SC sequence on failure, so any read-modify-write can be
    // made atomic — this is how compare-and-swap is built on RISC-V.
    //
    /// Load-Reserved Word: `rd = sign-extended mem[rs1]`, reserve the address.
    LrW { rd: usize, rs1: usize },
    /// Load-Reserved Doubleword.
    LrD { rd: usize, rs1: usize },
    /// Store-Conditional Word: if reserved, `mem[rs1] = rs2 low 32; rd = 0`,
    /// else `rd = 1`. Always drops the reservation.
    ScW { rd: usize, rs1: usize, rs2: usize },
    /// Store-Conditional Doubleword.
    ScD { rd: usize, rs1: usize, rs2: usize },

    // --- RV64I branches (B-type) ---
    // Compare rs1 with rs2 and, if the condition holds, jump pc-relative.
    // No condition-code register in RISC-V: every branch does its own compare.
    //
    /// Branch if EQual: `if rs1 == rs2 { pc += offset }`.
    Beq { rs1: usize, rs2: usize, offset: i64 },
    /// Branch if Not Equal.
    Bne { rs1: usize, rs2: usize, offset: i64 },
    /// Branch if Less Than (signed compare).
    Blt { rs1: usize, rs2: usize, offset: i64 },
    /// Branch if Greater or Equal (signed compare).
    Bge { rs1: usize, rs2: usize, offset: i64 },
    /// Branch if Less Than, Unsigned.
    Bltu { rs1: usize, rs2: usize, offset: i64 },
    /// Branch if Greater or Equal, Unsigned.
    Bgeu { rs1: usize, rs2: usize, offset: i64 },

    // --- RV64I loads (I-type) ---
    // `rd = mem[rs1 + offset]`, with the loaded value widened to 64 bits.
    // The plain forms sign-extend (a C `int8_t`/`int16_t`/`int32_t` load);
    // the U forms zero-extend (unsigned types). LD needs no LDU: 64 bits is
    // already the full register.
    //
    /// Load Byte (sign-extended).
    Lb { rd: usize, rs1: usize, offset: i64 },
    /// Load Halfword (16 bits, sign-extended).
    Lh { rd: usize, rs1: usize, offset: i64 },
    /// Load Word (32 bits, sign-extended).
    Lw { rd: usize, rs1: usize, offset: i64 },
    /// Load Byte Unsigned (zero-extended).
    Lbu { rd: usize, rs1: usize, offset: i64 },
    /// Load Halfword Unsigned.
    Lhu { rd: usize, rs1: usize, offset: i64 },
    /// Load Word Unsigned.
    Lwu { rd: usize, rs1: usize, offset: i64 },
    /// Load Doubleword (64 bits).
    Ld { rd: usize, rs1: usize, offset: i64 },

    // --- RV64I stores (S-type) ---
    // `mem[rs1 + offset] = low bits of rs2`. Narrow stores just truncate;
    // there is no sign/zero-extension question on the way out.
    //
    /// Store Byte.
    Sb { rs1: usize, rs2: usize, offset: i64 },
    /// Store Halfword.
    Sh { rs1: usize, rs2: usize, offset: i64 },
    /// Store Word.
    Sw { rs1: usize, rs2: usize, offset: i64 },
    /// Store Doubleword.
    Sd { rs1: usize, rs2: usize, offset: i64 },

    // --- Zicsr ---
    // All six atomically read the old CSR value into rd and combine a new value in.
    // The set/clear forms skip the write entirely when rs1/uimm is zero, so e.g.
    // `csrr rd, csr` (= csrrs rd, csr, x0) is a pure read.
    //
    /// CSR Read & Write: `rd = csr; csr = rs1`.
    Csrrw { rd: usize, rs1: usize, csr: usize },
    /// CSR Read & Set bits: `rd = csr; csr |= rs1` (rs1 is a bitmask of bits to set).
    Csrrs { rd: usize, rs1: usize, csr: usize },
    /// CSR Read & Clear bits: `rd = csr; csr &= !rs1`.
    Csrrc { rd: usize, rs1: usize, csr: usize },
    /// CSRRW with a 5-bit zero-extended immediate (the rs1 field) instead of a register.
    Csrrwi { rd: usize, uimm: u64, csr: usize },
    /// CSRRS with a 5-bit immediate bitmask.
    Csrrsi { rd: usize, uimm: u64, csr: usize },
    /// CSRRC with a 5-bit immediate bitmask.
    Csrrci { rd: usize, uimm: u64, csr: usize },

    // --- Environment (SYSTEM, funct3=0) ---
    //
    /// Environment CALL: request a service from the execution environment by
    /// raising an exception (cause 11 from M-mode). What the "service" is
    /// belongs to the handler: an OS sees a syscall, riscv-tests sees "test
    /// finished, result is in gp".
    Ecall,
    /// Environment BREAK: raise a breakpoint exception (cause 3). Debuggers
    /// plant this word to regain control at a chosen spot.
    Ebreak,

    // --- Memory ordering ---
    //
    /// FENCE: order memory accesses as seen by other harts/devices. The pred and
    /// succ masks (which access kinds to order) are not stored: this emulator
    /// executes in program order on a single hart, so every fence is a no-op.
    Fence,
    /// FENCE.I (Zifencei extension): make instruction fetches see all stores
    /// this hart has already performed — the barrier self-modifying code runs
    /// after patching itself. Real hardware flushes the instruction cache /
    /// pipeline here; this interpreter fetches every instruction straight
    /// from memory, so fetches are always coherent and the fence is a no-op.
    FenceI,

    // --- Privileged (minimal) ---
    //
    /// Machine-mode trap RETurn: `pc = mepc`. The full semantics also restore
    /// the privilege level (from mstatus.MPP) and the interrupt-enable bit
    /// (MIE from MPIE); this machine has no privilege modes, so only the jump remains.
    /// riscv-tests uses it at the end of startup to jump to the test body.
    Mret,
}

impl Inst {
    /// Register numbers name one of the 32 registers, CSR numbers one of the
    /// 4096 CSRs, and shift amounts fit the operand width (6 bits, 5 for W).
    pub open spec fn wf(self) -> bool {
        match self {
            Inst::Addi { rd, rs1, .. }
            | Inst::Slti { rd, rs1, .. }
            | Inst::Sltiu { rd, rs1, .. }
            | Inst::Xori { rd, rs1, .. }
            | Inst::Ori { rd, rs1, .. }
            | Inst::Andi { rd, rs1, .. }
            | Inst::Addiw { rd, rs1, .. }
            | Inst::Jalr { rd, rs1, .. }
            | Inst::LrW { rd, rs1 }
            | Inst::LrD { rd, rs1 }
            | Inst::Lb { rd, rs1, .. }
            | Inst::Lh { rd, rs1, .. }
            | Inst::Lw { rd, rs1, .. }
            | Inst::Lbu { rd, rs1, .. }
            | Inst::Lhu { rd, rs1, .. }
            | Inst::Lwu { rd, rs1, .. }
            | Inst::Ld { rd, rs1, .. } => rd < 32 && rs1 < 32,
            Inst::Lui { rd, .. } | Inst::Auipc { rd, .. } | Inst::Jal { rd, .. } => rd < 32,
            Inst::Slli { rd, rs1, shamt }
            | Inst::Srli { rd, rs1, shamt }
            | Inst::Srai { rd, rs1, shamt } => rd < 32 && rs1 < 32 && shamt < 64,
            Inst::Slliw { rd, rs1, shamt }
            | Inst::Srliw { rd, rs1, shamt }
            | Inst::Sraiw { rd, rs1, shamt } => rd < 32 && rs1 < 32 && shamt < 32,
            Inst::Add { rd, rs1, rs2 }
            | Inst::Sub { rd, rs1, rs2 }
            | Inst::Sll { rd, rs1, rs2 }
            | Inst::Slt { rd, rs1, rs2 }
            | Inst::Sltu { rd, rs1, rs2 }
            | Inst::Xor { rd, rs1, rs2 }
            | Inst::Srl { rd, rs1, rs2 }
            | Inst::Sra { rd, rs1, rs2 }
            | Inst::Or { rd, rs1, rs2 }
            | Inst::And { rd, rs1, rs2 }
            | Inst::Addw { rd, rs1, rs2 }
            | Inst::Subw { rd, rs1, rs2 }
            | Inst::Sllw { rd, rs1, rs2 }
            | Inst::Srlw { rd, rs1, rs2 }
            | Inst::Sraw { rd, rs1, rs2 }
            | Inst::Mul { rd, rs1, rs2 }
            | Inst::Mulh { rd, rs1, rs2 }
            | Inst::Mulhsu { rd, rs1, rs2 }
            | Inst::Mulhu { rd, rs1, rs2 }
            | Inst::Mulw { rd, rs1, rs2 }
            | Inst::Div { rd, rs1, rs2 }
            | Inst::Divu { rd, rs1, rs2 }
            | Inst::Rem { rd, rs1, rs2 }
            | Inst::Remu { rd, rs1, rs2 }
            | Inst::Divw { rd, rs1, rs2 }
            | Inst::Divuw { rd, rs1, rs2 }
            | Inst::Remw { rd, rs1, rs2 }
            | Inst::Remuw { rd, rs1, rs2 }
            | Inst::AmoaddW { rd, rs1, rs2 }
            | Inst::AmoaddD { rd, rs1, rs2 }
            | Inst::AmoswapW { rd, rs1, rs2 }
            | Inst::AmoswapD { rd, rs1, rs2 }
            | Inst::AmoxorW { rd, rs1, rs2 }
            | Inst::AmoxorD { rd, rs1, rs2 }
            | Inst::AmoorW { rd, rs1, rs2 }
            | Inst::AmoorD { rd, rs1, rs2 }
            | Inst::AmoandW { rd, rs1, rs2 }
            | Inst::AmoandD { rd, rs1, rs2 }
            | Inst::AmominW { rd, rs1, rs2 }
            | Inst::AmominD { rd, rs1, rs2 }
            | Inst::AmomaxW { rd, rs1, rs2 }
            | Inst::AmomaxD { rd, rs1, rs2 }
            | Inst::AmominuW { rd, rs1, rs2 }
            | Inst::AmominuD { rd, rs1, rs2 }
            | Inst::AmomaxuW { rd, rs1, rs2 }
            | Inst::AmomaxuD { rd, rs1, rs2 }
            | Inst::ScW { rd, rs1, rs2 }
            | Inst::ScD { rd, rs1, rs2 } => rd < 32 && rs1 < 32 && rs2 < 32,
            Inst::Beq { rs1, rs2, .. }
            | Inst::Bne { rs1, rs2, .. }
            | Inst::Blt { rs1, rs2, .. }
            | Inst::Bge { rs1, rs2, .. }
            | Inst::Bltu { rs1, rs2, .. }
            | Inst::Bgeu { rs1, rs2, .. }
            | Inst::Sb { rs1, rs2, .. }
            | Inst::Sh { rs1, rs2, .. }
            | Inst::Sw { rs1, rs2, .. }
            | Inst::Sd { rs1, rs2, .. } => rs1 < 32 && rs2 < 32,
            Inst::Csrrw { rd, rs1, csr }
            | Inst::Csrrs { rd, rs1, csr }
            | Inst::Csrrc { rd, rs1, csr } => rd < 32 && rs1 < 32 && csr < 4096,
            Inst::Csrrwi { rd, csr, .. }
            | Inst::Csrrsi { rd, csr, .. }
            | Inst::Csrrci { rd, csr, .. } => rd < 32 && csr < 4096,
            Inst::Ecall | Inst::Ebreak | Inst::Fence | Inst::FenceI | Inst::Mret => true,
        }
    }
}

// --- Instruction fields -------------------------------------------------------
// Field positions are fixed across formats (the ISA's big win for decoders):
// opcode[6:0], rd[11:7], funct3[14:12], rs1[19:15], rs2[24:20], funct7[31:25].

/// Bits [6:0]: the major opcode.
pub open spec fn opcode_of(raw: u32) -> nat {
    raw as nat % 0x80
}

/// Bits [11:7]: the destination register.
pub open spec fn rd_of(raw: u32) -> nat {
    (raw as nat / 0x80) % 0x20
}

/// Bits [14:12]: funct3.
pub open spec fn funct3_of(raw: u32) -> nat {
    (raw as nat / 0x1000) % 0x8
}

/// Bits [19:15]: the first source register.
pub open spec fn rs1_of(raw: u32) -> nat {
    (raw as nat / 0x8000) % 0x20
}

/// Bits [24:20]: the second source register.
pub open spec fn rs2_of(raw: u32) -> nat {
    (raw as nat / 0x10_0000) % 0x20
}

/// Bits [31:25]: funct7.
pub open spec fn funct7_of(raw: u32) -> nat {
    raw as nat / 0x200_0000
}

/// Bits [31:20]: the 12-bit I-type immediate field (also the CSR address).
pub open spec fn imm12_of(raw: u32) -> nat {
    raw as nat / 0x10_0000
}

/// Two's-complement reading of a field value `v` whose sign bit weighs `half`
/// (so the field is `2 * half` wide in value range).
pub open spec fn sext(v: int, half: int) -> int {
    if v >= half {
        v - 2 * half
    } else {
        v
    }
}

/// I-type immediate: inst[31:20], sign-extended.
pub open spec fn imm_i_spec(raw: u32) -> int {
    sext(imm12_of(raw) as int, 0x800)
}

/// U-type immediate: inst[31:12] placed at bits 31:12, sign-extended from bit 31.
pub open spec fn imm_u_spec(raw: u32) -> int {
    sext((raw as int / 0x1000) * 0x1000, 0x8000_0000)
}

/// S-type immediate: imm[11:5] = inst[31:25], imm[4:0] = inst[11:7].
pub open spec fn imm_s_spec(raw: u32) -> int {
    sext((funct7_of(raw) * 0x20 + rd_of(raw)) as int, 0x800)
}

/// B-type immediate: imm[12] = inst[31], imm[11] = inst[7], imm[10:5] =
/// inst[30:25], imm[4:1] = inst[11:8], imm[0] = 0.
pub open spec fn imm_b_spec(raw: u32) -> int {
    sext(
        (raw as int / 0x8000_0000) * 0x1000 + (raw as int / 0x80 % 2) * 0x800 + (raw as int
            / 0x200_0000 % 0x40) * 0x20 + (raw as int / 0x100 % 0x10) * 2,
        0x1000,
    )
}

/// J-type immediate: imm[20] = inst[31], imm[19:12] = inst[19:12], imm[11] =
/// inst[20], imm[10:1] = inst[30:21], imm[0] = 0.
pub open spec fn imm_j_spec(raw: u32) -> int {
    sext(
        (raw as int / 0x8000_0000) * 0x10_0000 + (raw as int / 0x1000 % 0x100) * 0x1000 + (raw as int
            / 0x10_0000 % 2) * 0x800 + (raw as int / 0x20_0000 % 0x400) * 2,
        0x10_0000,
    )
}

/// I-type immediate: inst[31:20], sign-extended.
/// Casting to i32 and arithmetic-shifting right by 20 does the sign extension.
fn imm_i(raw: u32) -> (r: i64)
    ensures
        r == imm_i_spec(raw),
{
    let r = ((raw as i32) >> 20u32) as i64;
    assert(r == (if raw / 0x10_0000 >= 0x800 {
        (raw / 0x10_0000) - 0x1000
    } else {
        (raw / 0x10_0000) as int
    })) by (bit_vector)
        requires
            r == ((raw as i32) >> 20u32) as i64,
    ;
    r
}

/// U-type immediate: inst[31:12] << 12 (lower 12 bits zero), sign-extended.
fn imm_u(raw: u32) -> (r: i64)
    ensures
        r == imm_u_spec(raw),
{
    let r = (raw & 0xffff_f000) as i32 as i64;
    assert(r == (if (raw / 0x1000) * 0x1000 >= 0x8000_0000 {
        (raw / 0x1000) * 0x1000 - 0x1_0000_0000
    } else {
        (raw / 0x1000) * 0x1000
    })) by (bit_vector)
        requires
            r == (raw & 0xffff_f000) as i32 as i64,
    ;
    r
}

/// S-type immediate: 12 bits split as inst[31:25]=imm[11:5] (the funct7 slot)
/// and inst[11:7]=imm[4:0] (the rd slot, unused by stores). Same value range as
/// I-type; only the placement differs, to keep rs2 at its fixed position.
fn imm_s(raw: u32) -> (r: i64)
    ensures
        r == imm_s_spec(raw),
{
    let imm11_5 = ((raw as i32) >> 25u32) as i64;  // arithmetic shift: sign-extends
    let imm4_0 = ((raw >> 7u32) & 0x1f) as i64;
    let r = (imm11_5 << 5u64) | imm4_0;
    assert(r == (if (raw / 0x200_0000) * 0x20 + (raw / 0x80) % 0x20 >= 0x800 {
        (raw / 0x200_0000) * 0x20 + (raw / 0x80) % 0x20 - 0x1000
    } else {
        (raw / 0x200_0000) * 0x20 + (raw / 0x80) % 0x20
    })) by (bit_vector)
        requires
            imm11_5 == ((raw as i32) >> 25u32) as i64,
            imm4_0 == ((raw >> 7u32) & 0x1f) as i64,
            r == (imm11_5 << 5u64) | imm4_0,
    ;
    r
}

/// B-type immediate: 13 bits scattered as inst[31]=imm[12], inst[30:25]=imm[10:5],
/// inst[11:8]=imm[4:1], inst[7]=imm[11]. Bit 0 is always zero, like J-type. This is
/// the S-type (store) layout with the sign bit and bit 11 swapped in, so branches
/// and stores share almost all their immediate wiring.
fn imm_b(raw: u32) -> (r: i64)
    ensures
        r == imm_b_spec(raw),
{
    let imm12 = ((raw >> 31u32) & 0x1) as u64;
    let imm10_5 = ((raw >> 25u32) & 0x3f) as u64;
    let imm4_1 = ((raw >> 8u32) & 0xf) as u64;
    let imm11 = ((raw >> 7u32) & 0x1) as u64;
    let imm = (imm12 << 12u64) | (imm11 << 11u64) | (imm10_5 << 5u64) | (imm4_1 << 1u64);
    // Sign-extend from bit 12.
    let r = ((imm << 51u64) as i64) >> 51u64;
    assert(r == (if (raw / 0x8000_0000) * 0x1000 + (raw / 0x80 % 2) * 0x800 + (raw
        / 0x200_0000 % 0x40) * 0x20 + (raw / 0x100 % 0x10) * 2 >= 0x1000 {
        ((raw / 0x8000_0000) * 0x1000 + (raw / 0x80 % 2) * 0x800 + (raw / 0x200_0000
            % 0x40) * 0x20 + (raw / 0x100 % 0x10) * 2) - 0x2000
    } else {
        ((raw / 0x8000_0000) * 0x1000 + (raw / 0x80 % 2) * 0x800 + (raw / 0x200_0000
            % 0x40) * 0x20 + (raw / 0x100 % 0x10) * 2)
    })) by (bit_vector)
        requires
            imm12 == ((raw >> 31u32) & 0x1) as u64,
            imm10_5 == ((raw >> 25u32) & 0x3f) as u64,
            imm4_1 == ((raw >> 8u32) & 0xf) as u64,
            imm11 == ((raw >> 7u32) & 0x1) as u64,
            imm == (imm12 << 12u64) | (imm11 << 11u64) | (imm10_5 << 5u64) | (imm4_1 << 1u64),
            r == ((imm << 51u64) as i64) >> 51u64,
    ;
    r
}

/// J-type immediate: 21 bits scattered as inst[31]=imm[20], inst[30:21]=imm[10:1],
/// inst[20]=imm[11], inst[19:12]=imm[19:12]. Bit 0 is always zero (targets are
/// 2-byte aligned). This scattering exists so that source register fields stay at
/// fixed positions across formats — the cost is paid here, once, in the decoder.
fn imm_j(raw: u32) -> (r: i64)
    ensures
        r == imm_j_spec(raw),
{
    let imm20 = ((raw >> 31u32) & 0x1) as u64;
    let imm10_1 = ((raw >> 21u32) & 0x3ff) as u64;
    let imm11 = ((raw >> 20u32) & 0x1) as u64;
    let imm19_12 = ((raw >> 12u32) & 0xff) as u64;
    let imm = (imm20 << 20u64) | (imm19_12 << 12u64) | (imm11 << 11u64) | (imm10_1 << 1u64);
    // Sign-extend from bit 20 (shift the sign bit up to bit 63, then back down).
    let r = ((imm << 43u64) as i64) >> 43u64;
    assert(r == (if (raw / 0x8000_0000) * 0x10_0000 + (raw / 0x1000 % 0x100)
        * 0x1000 + (raw / 0x10_0000 % 2) * 0x800 + (raw / 0x20_0000 % 0x400) * 2
        >= 0x10_0000 {
        ((raw / 0x8000_0000) * 0x10_0000 + (raw / 0x1000 % 0x100) * 0x1000 + (raw
            / 0x10_0000 % 2) * 0x800 + (raw / 0x20_0000 % 0x400) * 2)
            - 0x20_0000
    } else {
        ((raw / 0x8000_0000) * 0x10_0000 + (raw / 0x1000 % 0x100) * 0x1000 + (raw
            / 0x10_0000 % 2) * 0x800 + (raw / 0x20_0000 % 0x400) * 2)
    })) by (bit_vector)
        requires
            imm20 == ((raw >> 31u32) & 0x1) as u64,
            imm10_1 == ((raw >> 21u32) & 0x3ff) as u64,
            imm11 == ((raw >> 20u32) & 0x1) as u64,
            imm19_12 == ((raw >> 12u32) & 0xff) as u64,
            imm == (imm20 << 20u64) | (imm19_12 << 12u64) | (imm11 << 11u64) | (imm10_1 << 1u64),
            r == ((imm << 43u64) as i64) >> 43u64,
    ;
    r
}


// --- The 32-bit opcode table --------------------------------------------------

/// The illegal-instruction result for `raw`.
pub open spec fn illegal(raw: u32) -> Result<Inst, Exception> {
    Err(Exception::IllegalInstruction(raw))
}

/// LOAD (I-type): funct3's low 2 bits are the width's log2, bit 2 selects
/// zero-extension; funct3 = 7 (a 128-bit load) is illegal on RV64.
pub open spec fn decode_load_spec(raw: u32) -> Result<Inst, Exception> {
    let rd = rd_of(raw) as usize;
    let rs1 = rs1_of(raw) as usize;
    let offset = imm_i_spec(raw) as i64;
    let f3 = funct3_of(raw);
    if f3 == 0 {
        Ok(Inst::Lb { rd, rs1, offset })
    } else if f3 == 1 {
        Ok(Inst::Lh { rd, rs1, offset })
    } else if f3 == 2 {
        Ok(Inst::Lw { rd, rs1, offset })
    } else if f3 == 3 {
        Ok(Inst::Ld { rd, rs1, offset })
    } else if f3 == 4 {
        Ok(Inst::Lbu { rd, rs1, offset })
    } else if f3 == 5 {
        Ok(Inst::Lhu { rd, rs1, offset })
    } else if f3 == 6 {
        Ok(Inst::Lwu { rd, rs1, offset })
    } else {
        illegal(raw)
    }
}

/// STORE (S-type): funct3 is the width's log2 (8 to 64 bits).
pub open spec fn decode_store_spec(raw: u32) -> Result<Inst, Exception> {
    let rs1 = rs1_of(raw) as usize;
    let rs2 = rs2_of(raw) as usize;
    let offset = imm_s_spec(raw) as i64;
    let f3 = funct3_of(raw);
    if f3 == 0 {
        Ok(Inst::Sb { rs1, rs2, offset })
    } else if f3 == 1 {
        Ok(Inst::Sh { rs1, rs2, offset })
    } else if f3 == 2 {
        Ok(Inst::Sw { rs1, rs2, offset })
    } else if f3 == 3 {
        Ok(Inst::Sd { rs1, rs2, offset })
    } else {
        illegal(raw)
    }
}

/// OP-IMM: register-immediate arithmetic (I-type). Shifts take a 6-bit shamt
/// from inst[25:20]; the remaining inst[31:26] (funct6) must be 000000, or
/// 010000 for SRAI.
pub open spec fn decode_op_imm_spec(raw: u32) -> Result<Inst, Exception> {
    let rd = rd_of(raw) as usize;
    let rs1 = rs1_of(raw) as usize;
    let imm = imm_i_spec(raw) as i64;
    let shamt = (raw as nat / 0x10_0000 % 0x40) as u32;
    let funct6 = raw as nat / 0x400_0000;
    let f3 = funct3_of(raw);
    if f3 == 0 {
        Ok(Inst::Addi { rd, rs1, imm })
    } else if f3 == 1 && funct6 == 0 {
        Ok(Inst::Slli { rd, rs1, shamt })
    } else if f3 == 2 {
        Ok(Inst::Slti { rd, rs1, imm })
    } else if f3 == 3 {
        Ok(Inst::Sltiu { rd, rs1, imm })
    } else if f3 == 4 {
        Ok(Inst::Xori { rd, rs1, imm })
    } else if f3 == 5 && funct6 == 0 {
        Ok(Inst::Srli { rd, rs1, shamt })
    } else if f3 == 5 && funct6 == 0x10 {
        Ok(Inst::Srai { rd, rs1, shamt })
    } else if f3 == 6 {
        Ok(Inst::Ori { rd, rs1, imm })
    } else if f3 == 7 {
        Ok(Inst::Andi { rd, rs1, imm })
    } else {
        illegal(raw)
    }
}

/// BRANCH (B-type): funct3 selects the condition; 2 and 3 are unused.
pub open spec fn decode_branch_spec(raw: u32) -> Result<Inst, Exception> {
    let rs1 = rs1_of(raw) as usize;
    let rs2 = rs2_of(raw) as usize;
    let offset = imm_b_spec(raw) as i64;
    let f3 = funct3_of(raw);
    if f3 == 0 {
        Ok(Inst::Beq { rs1, rs2, offset })
    } else if f3 == 1 {
        Ok(Inst::Bne { rs1, rs2, offset })
    } else if f3 == 4 {
        Ok(Inst::Blt { rs1, rs2, offset })
    } else if f3 == 5 {
        Ok(Inst::Bge { rs1, rs2, offset })
    } else if f3 == 6 {
        Ok(Inst::Bltu { rs1, rs2, offset })
    } else if f3 == 7 {
        Ok(Inst::Bgeu { rs1, rs2, offset })
    } else {
        illegal(raw)
    }
}

/// AMO (A extension): funct7 is funct5 | aq | rl; the ordering bits are
/// accepted and dropped. funct3 selects the width (2 = .W, 3 = .D). LR takes
/// no rs2: any other value there is reserved.
pub open spec fn decode_amo_spec(raw: u32) -> Result<Inst, Exception> {
    let rd = rd_of(raw) as usize;
    let rs1 = rs1_of(raw) as usize;
    let rs2 = rs2_of(raw) as usize;
    let f5 = raw as nat / 0x800_0000;
    let f3 = funct3_of(raw);
    if f3 == 2 {
        if f5 == 0x00 {
            Ok(Inst::AmoaddW { rd, rs1, rs2 })
        } else if f5 == 0x01 {
            Ok(Inst::AmoswapW { rd, rs1, rs2 })
        } else if f5 == 0x04 {
            Ok(Inst::AmoxorW { rd, rs1, rs2 })
        } else if f5 == 0x08 {
            Ok(Inst::AmoorW { rd, rs1, rs2 })
        } else if f5 == 0x0c {
            Ok(Inst::AmoandW { rd, rs1, rs2 })
        } else if f5 == 0x10 {
            Ok(Inst::AmominW { rd, rs1, rs2 })
        } else if f5 == 0x14 {
            Ok(Inst::AmomaxW { rd, rs1, rs2 })
        } else if f5 == 0x18 {
            Ok(Inst::AmominuW { rd, rs1, rs2 })
        } else if f5 == 0x1c {
            Ok(Inst::AmomaxuW { rd, rs1, rs2 })
        } else if f5 == 0x02 && rs2 == 0 {
            Ok(Inst::LrW { rd, rs1 })
        } else if f5 == 0x03 {
            Ok(Inst::ScW { rd, rs1, rs2 })
        } else {
            illegal(raw)
        }
    } else if f3 == 3 {
        if f5 == 0x00 {
            Ok(Inst::AmoaddD { rd, rs1, rs2 })
        } else if f5 == 0x01 {
            Ok(Inst::AmoswapD { rd, rs1, rs2 })
        } else if f5 == 0x04 {
            Ok(Inst::AmoxorD { rd, rs1, rs2 })
        } else if f5 == 0x08 {
            Ok(Inst::AmoorD { rd, rs1, rs2 })
        } else if f5 == 0x0c {
            Ok(Inst::AmoandD { rd, rs1, rs2 })
        } else if f5 == 0x10 {
            Ok(Inst::AmominD { rd, rs1, rs2 })
        } else if f5 == 0x14 {
            Ok(Inst::AmomaxD { rd, rs1, rs2 })
        } else if f5 == 0x18 {
            Ok(Inst::AmominuD { rd, rs1, rs2 })
        } else if f5 == 0x1c {
            Ok(Inst::AmomaxuD { rd, rs1, rs2 })
        } else if f5 == 0x02 && rs2 == 0 {
            Ok(Inst::LrD { rd, rs1 })
        } else if f5 == 0x03 {
            Ok(Inst::ScD { rd, rs1, rs2 })
        } else {
            illegal(raw)
        }
    } else {
        illegal(raw)
    }
}

/// OP (R-type): funct7 0000000 for the base operations, 0100000 for SUB/SRA,
/// 0000001 for the M extension (funct3 0-3 multiplies, 4-7 divides).
pub open spec fn decode_op_spec(raw: u32) -> Result<Inst, Exception> {
    let rd = rd_of(raw) as usize;
    let rs1 = rs1_of(raw) as usize;
    let rs2 = rs2_of(raw) as usize;
    let f7 = funct7_of(raw);
    let f3 = funct3_of(raw);
    if f7 == 0 {
        if f3 == 0 {
            Ok(Inst::Add { rd, rs1, rs2 })
        } else if f3 == 1 {
            Ok(Inst::Sll { rd, rs1, rs2 })
        } else if f3 == 2 {
            Ok(Inst::Slt { rd, rs1, rs2 })
        } else if f3 == 3 {
            Ok(Inst::Sltu { rd, rs1, rs2 })
        } else if f3 == 4 {
            Ok(Inst::Xor { rd, rs1, rs2 })
        } else if f3 == 5 {
            Ok(Inst::Srl { rd, rs1, rs2 })
        } else if f3 == 6 {
            Ok(Inst::Or { rd, rs1, rs2 })
        } else {
            Ok(Inst::And { rd, rs1, rs2 })
        }
    } else if f7 == 0x20 {
        if f3 == 0 {
            Ok(Inst::Sub { rd, rs1, rs2 })
        } else if f3 == 5 {
            Ok(Inst::Sra { rd, rs1, rs2 })
        } else {
            illegal(raw)
        }
    } else if f7 == 1 {
        if f3 == 0 {
            Ok(Inst::Mul { rd, rs1, rs2 })
        } else if f3 == 1 {
            Ok(Inst::Mulh { rd, rs1, rs2 })
        } else if f3 == 2 {
            Ok(Inst::Mulhsu { rd, rs1, rs2 })
        } else if f3 == 3 {
            Ok(Inst::Mulhu { rd, rs1, rs2 })
        } else if f3 == 4 {
            Ok(Inst::Div { rd, rs1, rs2 })
        } else if f3 == 5 {
            Ok(Inst::Divu { rd, rs1, rs2 })
        } else if f3 == 6 {
            Ok(Inst::Rem { rd, rs1, rs2 })
        } else {
            Ok(Inst::Remu { rd, rs1, rs2 })
        }
    } else {
        illegal(raw)
    }
}

/// OP-32 (R-type): the register-register W family, and the word-sized M
/// operations (MULW and the four divides; there is no MULHW).
pub open spec fn decode_op32_spec(raw: u32) -> Result<Inst, Exception> {
    let rd = rd_of(raw) as usize;
    let rs1 = rs1_of(raw) as usize;
    let rs2 = rs2_of(raw) as usize;
    let f7 = funct7_of(raw);
    let f3 = funct3_of(raw);
    if f7 == 0 && f3 == 0 {
        Ok(Inst::Addw { rd, rs1, rs2 })
    } else if f7 == 0x20 && f3 == 0 {
        Ok(Inst::Subw { rd, rs1, rs2 })
    } else if f7 == 0 && f3 == 1 {
        Ok(Inst::Sllw { rd, rs1, rs2 })
    } else if f7 == 0 && f3 == 5 {
        Ok(Inst::Srlw { rd, rs1, rs2 })
    } else if f7 == 0x20 && f3 == 5 {
        Ok(Inst::Sraw { rd, rs1, rs2 })
    } else if f7 == 1 && f3 == 0 {
        Ok(Inst::Mulw { rd, rs1, rs2 })
    } else if f7 == 1 && f3 == 4 {
        Ok(Inst::Divw { rd, rs1, rs2 })
    } else if f7 == 1 && f3 == 5 {
        Ok(Inst::Divuw { rd, rs1, rs2 })
    } else if f7 == 1 && f3 == 6 {
        Ok(Inst::Remw { rd, rs1, rs2 })
    } else if f7 == 1 && f3 == 7 {
        Ok(Inst::Remuw { rd, rs1, rs2 })
    } else {
        illegal(raw)
    }
}

/// OP-IMM-32: W-family register-immediate arithmetic. W shifts take a 5-bit
/// shamt, so funct7 is whole again (a set bit 25 is illegal).
pub open spec fn decode_op_imm32_spec(raw: u32) -> Result<Inst, Exception> {
    let rd = rd_of(raw) as usize;
    let rs1 = rs1_of(raw) as usize;
    let shamt = rs2_of(raw) as u32;
    let f7 = funct7_of(raw);
    let f3 = funct3_of(raw);
    if f3 == 0 {
        Ok(Inst::Addiw { rd, rs1, imm: imm_i_spec(raw) as i64 })
    } else if f3 == 1 && f7 == 0 {
        Ok(Inst::Slliw { rd, rs1, shamt })
    } else if f3 == 5 && f7 == 0 {
        Ok(Inst::Srliw { rd, rs1, shamt })
    } else if f3 == 5 && f7 == 0x20 {
        Ok(Inst::Sraiw { rd, rs1, shamt })
    } else {
        illegal(raw)
    }
}

/// SYSTEM: ECALL/EBREAK/MRET (funct3 = 0, told apart by the whole word) and
/// the Zicsr instructions. CSR addresses with bits [11:10] = 11 are read-only;
/// an instruction that writes one is illegal. CSRRW/CSRRWI always write, the
/// set/clear forms only when rs1 (or uimm) is non-zero.
pub open spec fn decode_system_spec(raw: u32) -> Result<Inst, Exception> {
    let rd = rd_of(raw) as usize;
    let rs1 = rs1_of(raw) as usize;
    let csr = imm12_of(raw) as usize;
    let uimm = rs1_of(raw) as u64;
    let read_only = imm12_of(raw) / 0x400 == 3;
    let f3 = funct3_of(raw);
    if f3 == 0 {
        if raw == 0x0000_0073 {
            Ok(Inst::Ecall)
        } else if raw == 0x0010_0073 {
            Ok(Inst::Ebreak)
        } else if raw == 0x3020_0073 {
            Ok(Inst::Mret)
        } else {
            illegal(raw)
        }
    } else if f3 == 1 {
        if read_only {
            illegal(raw)
        } else {
            Ok(Inst::Csrrw { rd, rs1, csr })
        }
    } else if f3 == 2 {
        if rs1 != 0 && read_only {
            illegal(raw)
        } else {
            Ok(Inst::Csrrs { rd, rs1, csr })
        }
    } else if f3 == 3 {
        if rs1 != 0 && read_only {
            illegal(raw)
        } else {
            Ok(Inst::Csrrc { rd, rs1, csr })
        }
    } else if f3 == 5 {
        if read_only {
            illegal(raw)
        } else {
            Ok(Inst::Csrrwi { rd, uimm, csr })
        }
    } else if f3 == 6 {
        if uimm != 0 && read_only {
            illegal(raw)
        } else {
            Ok(Inst::Csrrsi { rd, uimm, csr })
        }
    } else if f3 == 7 {
        if uimm != 0 && read_only {
            illegal(raw)
        } else {
            Ok(Inst::Csrrci { rd, uimm, csr })
        }
    } else {
        illegal(raw)
    }
}

/// What the 32-bit word `raw` decodes to: the RV64IMA + Zicsr + Zifencei
/// opcode table (plus MRET), or an illegal-instruction exception.
pub open spec fn decode_spec(raw: u32) -> Result<Inst, Exception> {
    let op = opcode_of(raw);
    let rd = rd_of(raw) as usize;
    if op == 0x03 {
        decode_load_spec(raw)
    } else if op == 0x23 {
        decode_store_spec(raw)
    } else if op == 0x13 {
        decode_op_imm_spec(raw)
    } else if op == 0x17 {
        Ok(Inst::Auipc { rd, imm: imm_u_spec(raw) as i64 })
    } else if op == 0x37 {
        Ok(Inst::Lui { rd, imm: imm_u_spec(raw) as i64 })
    } else if op == 0x63 {
        decode_branch_spec(raw)
    } else if op == 0x2f {
        decode_amo_spec(raw)
    } else if op == 0x33 {
        decode_op_spec(raw)
    } else if op == 0x3b {
        decode_op32_spec(raw)
    } else if op == 0x1b {
        decode_op_imm32_spec(raw)
    } else if op == 0x0f {
        // MISC-MEM: FENCE and FENCE.I; the reserved fields are ignored.
        if funct3_of(raw) == 0 {
            Ok(Inst::Fence)
        } else if funct3_of(raw) == 1 {
            Ok(Inst::FenceI)
        } else {
            illegal(raw)
        }
    } else if op == 0x67 {
        // JALR owns its whole opcode: funct3 must be 0.
        if funct3_of(raw) == 0 {
            Ok(Inst::Jalr { rd, rs1: rs1_of(raw) as usize, offset: imm_i_spec(raw) as i64 })
        } else {
            illegal(raw)
        }
    } else if op == 0x6f {
        Ok(Inst::Jal { rd, offset: imm_j_spec(raw) as i64 })
    } else if op == 0x73 {
        decode_system_spec(raw)
    } else {
        illegal(raw)
    }
}


// --- The decoder ----------------------------------------------------------------

/// rd[11:7], rs1[19:15], rs2[24:20] and funct3[14:12] of `raw`.
fn fields(raw: u32) -> (r: (usize, usize, usize, u32))
    ensures
        r.0 == rd_of(raw),
        r.1 == rs1_of(raw),
        r.2 == rs2_of(raw),
        r.3 == funct3_of(raw),
{
    let rd = (raw >> 7u32) & 0x1f;
    let rs1 = (raw >> 15u32) & 0x1f;
    let rs2 = (raw >> 20u32) & 0x1f;
    let funct3 = (raw >> 12u32) & 0x7;
    assert(rd == (raw / 0x80) % 0x20 && rs1 == (raw / 0x8000) % 0x20 && rs2 == (raw / 0x10_0000)
        % 0x20 && funct3 == (raw / 0x1000) % 0x8) by (bit_vector)
        requires
            rd == (raw >> 7u32) & 0x1f,
            rs1 == (raw >> 15u32) & 0x1f,
            rs2 == (raw >> 20u32) & 0x1f,
            funct3 == (raw >> 12u32) & 0x7,
    ;
    (rd as usize, rs1 as usize, rs2 as usize, funct3)
}

fn decode_load(raw: u32, rd: usize, rs1: usize, funct3: u32) -> (r: Result<Inst, Exception>)
    requires
        rd == rd_of(raw),
        rs1 == rs1_of(raw),
        funct3 == funct3_of(raw),
    ensures
        r == decode_load_spec(raw),
{
    let offset = imm_i(raw);
    match funct3 {
        0x0 => Ok(Inst::Lb { rd, rs1, offset }),
        0x1 => Ok(Inst::Lh { rd, rs1, offset }),
        0x2 => Ok(Inst::Lw { rd, rs1, offset }),
        0x3 => Ok(Inst::Ld { rd, rs1, offset }),
        0x4 => Ok(Inst::Lbu { rd, rs1, offset }),
        0x5 => Ok(Inst::Lhu { rd, rs1, offset }),
        0x6 => Ok(Inst::Lwu { rd, rs1, offset }),
        _ => Err(Exception::IllegalInstruction(raw)),
    }
}

fn decode_store(raw: u32, rs1: usize, rs2: usize, funct3: u32) -> (r: Result<Inst, Exception>)
    requires
        rs1 == rs1_of(raw),
        rs2 == rs2_of(raw),
        funct3 == funct3_of(raw),
    ensures
        r == decode_store_spec(raw),
{
    let offset = imm_s(raw);
    match funct3 {
        0x0 => Ok(Inst::Sb { rs1, rs2, offset }),
        0x1 => Ok(Inst::Sh { rs1, rs2, offset }),
        0x2 => Ok(Inst::Sw { rs1, rs2, offset }),
        0x3 => Ok(Inst::Sd { rs1, rs2, offset }),
        _ => Err(Exception::IllegalInstruction(raw)),
    }
}

fn decode_op_imm(raw: u32, rd: usize, rs1: usize, funct3: u32) -> (r: Result<Inst, Exception>)
    requires
        rd == rd_of(raw),
        rs1 == rs1_of(raw),
        funct3 == funct3_of(raw),
    ensures
        r == decode_op_imm_spec(raw),
{
    // Shift encodings: shamt in inst[25:20] (6 bits on RV64), the
    // remaining inst[31:26] is funct6. Only 000000 and 010000 (SRAI,
    // reusing the bit-30 "alternate operation" convention) are valid.
    let shamt = (raw >> 20u32) & 0x3f;
    let funct6 = raw >> 26u32;
    assert(shamt == raw / 0x10_0000 % 0x40 && funct6 == raw / 0x400_0000) by (bit_vector)
        requires
            shamt == (raw >> 20u32) & 0x3f,
            funct6 == raw >> 26u32,
    ;
    match (funct3, funct6) {
        (0x0, _) => Ok(Inst::Addi { rd, rs1, imm: imm_i(raw) }),
        (0x1, 0b000000) => Ok(Inst::Slli { rd, rs1, shamt }),
        (0x2, _) => Ok(Inst::Slti { rd, rs1, imm: imm_i(raw) }),
        (0x3, _) => Ok(Inst::Sltiu { rd, rs1, imm: imm_i(raw) }),
        (0x4, _) => Ok(Inst::Xori { rd, rs1, imm: imm_i(raw) }),
        (0x5, 0b000000) => Ok(Inst::Srli { rd, rs1, shamt }),
        (0x5, 0b010000) => Ok(Inst::Srai { rd, rs1, shamt }),
        (0x6, _) => Ok(Inst::Ori { rd, rs1, imm: imm_i(raw) }),
        (0x7, _) => Ok(Inst::Andi { rd, rs1, imm: imm_i(raw) }),
        // Only reachable for funct3=1/5 with a bad funct6: every funct3
        // value carries an instruction.
        _ => Err(Exception::IllegalInstruction(raw)),
    }
}

fn decode_branch(raw: u32, rs1: usize, rs2: usize, funct3: u32) -> (r: Result<Inst, Exception>)
    requires
        rs1 == rs1_of(raw),
        rs2 == rs2_of(raw),
        funct3 == funct3_of(raw),
    ensures
        r == decode_branch_spec(raw),
{
    let offset = imm_b(raw);
    match funct3 {
        0x0 => Ok(Inst::Beq { rs1, rs2, offset }),
        0x1 => Ok(Inst::Bne { rs1, rs2, offset }),
        0x4 => Ok(Inst::Blt { rs1, rs2, offset }),
        0x5 => Ok(Inst::Bge { rs1, rs2, offset }),
        0x6 => Ok(Inst::Bltu { rs1, rs2, offset }),
        0x7 => Ok(Inst::Bgeu { rs1, rs2, offset }),
        // funct3 2 and 3 are unused in the BRANCH opcode
        _ => Err(Exception::IllegalInstruction(raw)),
    }
}

fn decode_amo(raw: u32, rd: usize, rs1: usize, rs2: usize, funct3: u32) -> (r: Result<
    Inst,
    Exception,
>)
    requires
        rd == rd_of(raw),
        rs1 == rs1_of(raw),
        rs2 == rs2_of(raw),
        funct3 == funct3_of(raw),
    ensures
        r == decode_amo_spec(raw),
{
    let funct5 = raw >> 27u32;
    assert(funct5 == raw / 0x800_0000) by (bit_vector)
        requires
            funct5 == raw >> 27u32,
    ;
    match (funct3, funct5) {
        (0x2, 0b00000) => Ok(Inst::AmoaddW { rd, rs1, rs2 }),
        (0x3, 0b00000) => Ok(Inst::AmoaddD { rd, rs1, rs2 }),
        (0x2, 0b00001) => Ok(Inst::AmoswapW { rd, rs1, rs2 }),
        (0x3, 0b00001) => Ok(Inst::AmoswapD { rd, rs1, rs2 }),
        (0x2, 0b00100) => Ok(Inst::AmoxorW { rd, rs1, rs2 }),
        (0x3, 0b00100) => Ok(Inst::AmoxorD { rd, rs1, rs2 }),
        (0x2, 0b01000) => Ok(Inst::AmoorW { rd, rs1, rs2 }),
        (0x3, 0b01000) => Ok(Inst::AmoorD { rd, rs1, rs2 }),
        (0x2, 0b01100) => Ok(Inst::AmoandW { rd, rs1, rs2 }),
        (0x3, 0b01100) => Ok(Inst::AmoandD { rd, rs1, rs2 }),
        (0x2, 0b10000) => Ok(Inst::AmominW { rd, rs1, rs2 }),
        (0x3, 0b10000) => Ok(Inst::AmominD { rd, rs1, rs2 }),
        (0x2, 0b10100) => Ok(Inst::AmomaxW { rd, rs1, rs2 }),
        (0x3, 0b10100) => Ok(Inst::AmomaxD { rd, rs1, rs2 }),
        (0x2, 0b11000) => Ok(Inst::AmominuW { rd, rs1, rs2 }),
        (0x3, 0b11000) => Ok(Inst::AmominuD { rd, rs1, rs2 }),
        (0x2, 0b11100) => Ok(Inst::AmomaxuW { rd, rs1, rs2 }),
        (0x3, 0b11100) => Ok(Inst::AmomaxuD { rd, rs1, rs2 }),
        // LR carries no source operand: rs2 is hardwired zero and
        // anything else is a reserved encoding.
        (0x2, 0b00010) if rs2 == 0 => Ok(Inst::LrW { rd, rs1 }),
        (0x3, 0b00010) if rs2 == 0 => Ok(Inst::LrD { rd, rs1 }),
        (0x2, 0b00011) => Ok(Inst::ScW { rd, rs1, rs2 }),
        (0x3, 0b00011) => Ok(Inst::ScD { rd, rs1, rs2 }),
        _ => Err(Exception::IllegalInstruction(raw)),
    }
}

fn decode_op(raw: u32, rd: usize, rs1: usize, rs2: usize, funct3: u32) -> (r: Result<
    Inst,
    Exception,
>)
    requires
        rd == rd_of(raw),
        rs1 == rs1_of(raw),
        rs2 == rs2_of(raw),
        funct3 == funct3_of(raw),
    ensures
        r == decode_op_spec(raw),
{
    let funct7 = raw >> 25u32;
    assert(funct7 == raw / 0x200_0000) by (bit_vector)
        requires
            funct7 == raw >> 25u32,
    ;
    match (funct3, funct7) {
        (0x0, 0b0000000) => Ok(Inst::Add { rd, rs1, rs2 }),
        (0x0, 0b0100000) => Ok(Inst::Sub { rd, rs1, rs2 }),
        (0x1, 0b0000000) => Ok(Inst::Sll { rd, rs1, rs2 }),
        (0x2, 0b0000000) => Ok(Inst::Slt { rd, rs1, rs2 }),
        (0x3, 0b0000000) => Ok(Inst::Sltu { rd, rs1, rs2 }),
        (0x4, 0b0000000) => Ok(Inst::Xor { rd, rs1, rs2 }),
        (0x5, 0b0000000) => Ok(Inst::Srl { rd, rs1, rs2 }),
        (0x5, 0b0100000) => Ok(Inst::Sra { rd, rs1, rs2 }),
        (0x6, 0b0000000) => Ok(Inst::Or { rd, rs1, rs2 }),
        (0x7, 0b0000000) => Ok(Inst::And { rd, rs1, rs2 }),
        // funct7 = 0000001: the M extension. funct3 bit 2 splits it
        // into multiplies (0-3) and divides (4-7).
        (0x0, 0b0000001) => Ok(Inst::Mul { rd, rs1, rs2 }),
        (0x1, 0b0000001) => Ok(Inst::Mulh { rd, rs1, rs2 }),
        (0x2, 0b0000001) => Ok(Inst::Mulhsu { rd, rs1, rs2 }),
        (0x3, 0b0000001) => Ok(Inst::Mulhu { rd, rs1, rs2 }),
        (0x4, 0b0000001) => Ok(Inst::Div { rd, rs1, rs2 }),
        (0x5, 0b0000001) => Ok(Inst::Divu { rd, rs1, rs2 }),
        (0x6, 0b0000001) => Ok(Inst::Rem { rd, rs1, rs2 }),
        (0x7, 0b0000001) => Ok(Inst::Remu { rd, rs1, rs2 }),
        _ => Err(Exception::IllegalInstruction(raw)),
    }
}

fn decode_op32(raw: u32, rd: usize, rs1: usize, rs2: usize, funct3: u32) -> (r: Result<
    Inst,
    Exception,
>)
    requires
        rd == rd_of(raw),
        rs1 == rs1_of(raw),
        rs2 == rs2_of(raw),
        funct3 == funct3_of(raw),
    ensures
        r == decode_op32_spec(raw),
{
    let funct7 = raw >> 25u32;
    assert(funct7 == raw / 0x200_0000) by (bit_vector)
        requires
            funct7 == raw >> 25u32,
    ;
    match (funct3, funct7) {
        (0x0, 0b0000000) => Ok(Inst::Addw { rd, rs1, rs2 }),
        (0x0, 0b0100000) => Ok(Inst::Subw { rd, rs1, rs2 }),
        (0x1, 0b0000000) => Ok(Inst::Sllw { rd, rs1, rs2 }),
        (0x5, 0b0000000) => Ok(Inst::Srlw { rd, rs1, rs2 }),
        (0x5, 0b0100000) => Ok(Inst::Sraw { rd, rs1, rs2 }),
        // M extension, word width. Only MULW here (no MULHW).
        (0x0, 0b0000001) => Ok(Inst::Mulw { rd, rs1, rs2 }),
        (0x4, 0b0000001) => Ok(Inst::Divw { rd, rs1, rs2 }),
        (0x5, 0b0000001) => Ok(Inst::Divuw { rd, rs1, rs2 }),
        (0x6, 0b0000001) => Ok(Inst::Remw { rd, rs1, rs2 }),
        (0x7, 0b0000001) => Ok(Inst::Remuw { rd, rs1, rs2 }),
        _ => Err(Exception::IllegalInstruction(raw)),
    }
}

fn decode_op_imm32(raw: u32, rd: usize, rs1: usize, funct3: u32) -> (r: Result<Inst, Exception>)
    requires
        rd == rd_of(raw),
        rs1 == rs1_of(raw),
        funct3 == funct3_of(raw),
    ensures
        r == decode_op_imm32_spec(raw),
{
    // W shifts are back to a 5-bit shamt, so the discriminator is a full
    // funct7 again; a set bit 25 (shamt >= 32) is an illegal instruction.
    let shamt = (raw >> 20u32) & 0x1f;
    let funct7 = raw >> 25u32;
    assert(shamt == raw / 0x10_0000 % 0x20 && funct7 == raw / 0x200_0000) by (bit_vector)
        requires
            shamt == (raw >> 20u32) & 0x1f,
            funct7 == raw >> 25u32,
    ;
    match (funct3, funct7) {
        (0x0, _) => Ok(Inst::Addiw { rd, rs1, imm: imm_i(raw) }),
        (0x1, 0b0000000) => Ok(Inst::Slliw { rd, rs1, shamt }),
        (0x5, 0b0000000) => Ok(Inst::Srliw { rd, rs1, shamt }),
        (0x5, 0b0100000) => Ok(Inst::Sraiw { rd, rs1, shamt }),
        _ => Err(Exception::IllegalInstruction(raw)),
    }
}

/// A CSR instruction, unless it writes a read-only CSR.
fn csr_checked(raw: u32, writes: bool, read_only: bool, inst: Inst) -> (r: Result<Inst, Exception>)
    ensures
        r == (if writes && read_only {
            illegal(raw)
        } else {
            Ok(inst)
        }),
{
    if writes && read_only {
        Err(Exception::IllegalInstruction(raw))
    } else {
        Ok(inst)
    }
}

fn decode_system(raw: u32, rd: usize, rs1: usize, funct3: u32) -> (r: Result<Inst, Exception>)
    requires
        rd == rd_of(raw),
        rs1 == rs1_of(raw),
        funct3 == funct3_of(raw),
    ensures
        r == decode_system_spec(raw),
{
    // The CSR address lives in the I-type immediate field, zero-extended.
    let csr_bits = raw >> 20u32;
    let top = csr_bits >> 10u32;
    assert(csr_bits == raw / 0x10_0000 && top == raw / 0x10_0000 / 0x400) by (bit_vector)
        requires
            csr_bits == raw >> 20u32,
            top == csr_bits >> 10u32,
    ;
    let csr = csr_bits as usize;
    let uimm = rs1 as u64;  // immediate forms reuse the rs1 field as a 5-bit constant
    // CSR addresses encode accessibility: bits [11:10] == 11 marks the CSR
    // read-only, and writing one raises illegal-instruction. Whether an
    // instruction writes is fully determined by its encoding (CSRRW always
    // writes; set/clear forms only when rs1/uimm != 0), so the check can
    // live here in the decoder.
    let read_only = top == 0b11;
    match funct3 {
        // funct3=0 holds the zero-operand instructions, told apart by the
        // whole word: every other field is a fixed constant.
        0x0 => {
            if raw == 0x00000073 {
                Ok(Inst::Ecall)
            } else if raw == 0x00100073 {
                Ok(Inst::Ebreak)
            } else if raw == 0x30200073 {
                Ok(Inst::Mret)
            } else {
                Err(Exception::IllegalInstruction(raw))
            }
        },
        0x1 => csr_checked(raw, true, read_only, Inst::Csrrw { rd, rs1, csr }),
        0x2 => csr_checked(raw, rs1 != 0, read_only, Inst::Csrrs { rd, rs1, csr }),
        0x3 => csr_checked(raw, rs1 != 0, read_only, Inst::Csrrc { rd, rs1, csr }),
        0x5 => csr_checked(raw, true, read_only, Inst::Csrrwi { rd, uimm, csr }),
        0x6 => csr_checked(raw, uimm != 0, read_only, Inst::Csrrsi { rd, uimm, csr }),
        0x7 => csr_checked(raw, uimm != 0, read_only, Inst::Csrrci { rd, uimm, csr }),
        _ => Err(Exception::IllegalInstruction(raw)),
    }
}

/// Decode one 32-bit instruction word.
pub fn decode(raw: u32) -> (r: Result<Inst, Exception>)
    ensures
        r == decode_spec(raw),
        r matches Ok(inst) ==> inst.wf(),
        r is Err ==> r == illegal(raw),
{
    let opcode = raw & 0x7f;
    assert(opcode == raw % 0x80) by (bit_vector)
        requires
            opcode == raw & 0x7f,
    ;
    let (rd, rs1, rs2, funct3) = fields(raw);
    let r = match opcode {
        // LOAD (I-type)
        0x03 => decode_load(raw, rd, rs1, funct3),
        // STORE (S-type)
        0x23 => decode_store(raw, rs1, rs2, funct3),
        // OP-IMM: register-immediate arithmetic (I-type)
        0x13 => decode_op_imm(raw, rd, rs1, funct3),
        // AUIPC (U-type)
        0x17 => Ok(Inst::Auipc { rd, imm: imm_u(raw) }),
        // LUI (U-type)
        0x37 => Ok(Inst::Lui { rd, imm: imm_u(raw) }),
        // BRANCH (B-type): funct3 selects the condition
        0x63 => decode_branch(raw, rs1, rs2, funct3),
        // AMO (A extension)
        0x2f => decode_amo(raw, rd, rs1, rs2, funct3),
        // OP: register-register arithmetic (R-type)
        0x33 => decode_op(raw, rd, rs1, rs2, funct3),
        // OP-32: register-register W family (R-type)
        0x3b => decode_op32(raw, rd, rs1, rs2, funct3),
        // OP-IMM-32: W-family register-immediate arithmetic (I-type)
        0x1b => decode_op_imm32(raw, rd, rs1, funct3),
        // MISC-MEM: FENCE (funct3=0) and FENCE.I (funct3=1, Zifencei). Their
        // rd/rs1/imm fields are reserved for finer-grained fences; the ISA
        // tells implementations to ignore them, so only funct3 is inspected.
        0x0f => match funct3 {
            0x0 => Ok(Inst::Fence),
            0x1 => Ok(Inst::FenceI),
            _ => Err(Exception::IllegalInstruction(raw)),
        },
        // JALR (I-type): the only instruction on its opcode, so funct3 must be 0
        0x67 => match funct3 {
            0x0 => Ok(Inst::Jalr { rd, rs1, offset: imm_i(raw) }),
            _ => Err(Exception::IllegalInstruction(raw)),
        },
        // JAL (J-type)
        0x6f => Ok(Inst::Jal { rd, offset: imm_j(raw) }),
        // SYSTEM: ECALL/EBREAK/MRET and the CSR instructions (Zicsr).
        0x73 => decode_system(raw, rd, rs1, funct3),
        _ => Err(Exception::IllegalInstruction(raw)),
    };
    proof {
        assert(raw as nat / 0x10_0000 % 0x40 < 64);
        assert(imm12_of(raw) < 4096) by {
            assert(raw as nat / 0x10_0000 < 0x1000);
        }
    }
    r
}


// --- The compressed (C extension) decoder ---------------------------------------
// A 16-bit parcel: op = parcel[1:0] picks the quadrant, funct3 = parcel[15:13]
// the row. Full-width register fields: rd/rs1 at [11:7], rs2 at [6:2]. The
// primed (') 3-bit fields at [9:7]/[4:2] address only x8-x15.

/// Bits [1:0]: the quadrant.
pub open spec fn c_op(p: u16) -> nat {
    p as nat % 4
}

/// Bits [15:13]: funct3.
pub open spec fn c_funct3(p: u16) -> nat {
    p as nat / 0x2000
}

/// Bits [11:7]: the full-width rd/rs1 field.
pub open spec fn c_rd_full(p: u16) -> nat {
    (p as nat / 0x80) % 0x20
}

/// Bits [6:2]: the full-width rs2 field.
pub open spec fn c_rs2_full(p: u16) -> nat {
    (p as nat / 4) % 0x20
}

/// Bits [9:7] as a register x8-x15 (rs1' / rd').
pub open spec fn c_rs1_prime(p: u16) -> nat {
    8 + (p as nat / 0x80) % 8
}

/// Bits [4:2] as a register x8-x15 (rd' / rs2').
pub open spec fn c_rd_prime(p: u16) -> nat {
    8 + (p as nat / 4) % 8
}

/// Bit `k` of the parcel.
pub open spec fn c_bit(p: u16, k_pow: nat) -> nat {
    (p as nat / k_pow) % 2
}

/// CI-format immediate: imm[5] = p[12] (the sign), imm[4:0] = p[6:2].
pub open spec fn imm_ci_spec(p: u16) -> int {
    sext((c_bit(p, 0x1000) * 0x20 + (p as nat / 4) % 0x20) as int, 0x20)
}

/// CIW (C.ADDI4SPN): uimm[5:4] = p[12:11], uimm[9:6] = p[10:7], uimm[2] = p[6],
/// uimm[3] = p[5].
pub open spec fn imm_ciw_spec(p: u16) -> int {
    (((p as nat / 0x800) % 4) * 0x10 + ((p as nat / 0x80) % 0x10) * 0x40 + c_bit(p, 0x40) * 4
        + c_bit(p, 0x20) * 8) as int
}

/// CL/CS word offset: uimm[5:3] = p[12:10], uimm[2] = p[6], uimm[6] = p[5].
pub open spec fn imm_c_mem_w_spec(p: u16) -> int {
    (((p as nat / 0x400) % 8) * 8 + c_bit(p, 0x40) * 4 + c_bit(p, 0x20) * 0x40) as int
}

/// CL/CS doubleword offset: uimm[5:3] = p[12:10], uimm[7:6] = p[6:5].
pub open spec fn imm_c_mem_d_spec(p: u16) -> int {
    (((p as nat / 0x400) % 8) * 8 + ((p as nat / 0x20) % 4) * 0x40) as int
}

/// C.LWSP offset: uimm[5] = p[12], uimm[4:2] = p[6:4], uimm[7:6] = p[3:2].
pub open spec fn imm_lwsp_spec(p: u16) -> int {
    (c_bit(p, 0x1000) * 0x20 + ((p as nat / 0x10) % 8) * 4 + ((p as nat / 4) % 4) * 0x40) as int
}

/// C.LDSP offset: uimm[5] = p[12], uimm[4:3] = p[6:5], uimm[8:6] = p[4:2].
pub open spec fn imm_ldsp_spec(p: u16) -> int {
    (c_bit(p, 0x1000) * 0x20 + ((p as nat / 0x20) % 4) * 8 + ((p as nat / 4) % 8) * 0x40) as int
}

/// C.SWSP offset: uimm[5:2] = p[12:9], uimm[7:6] = p[8:7].
pub open spec fn imm_swsp_spec(p: u16) -> int {
    (((p as nat / 0x200) % 0x10) * 4 + ((p as nat / 0x80) % 4) * 0x40) as int
}

/// C.SDSP offset: uimm[5:3] = p[12:10], uimm[8:6] = p[9:7].
pub open spec fn imm_sdsp_spec(p: u16) -> int {
    (((p as nat / 0x400) % 8) * 8 + ((p as nat / 0x80) % 8) * 0x40) as int
}

/// CI shift amount: shamt[5] = p[12], shamt[4:0] = p[6:2].
pub open spec fn shamt_ci_spec(p: u16) -> nat {
    c_bit(p, 0x1000) * 0x20 + (p as nat / 4) % 0x20
}

/// C.ADDI16SP immediate: imm[9] = p[12] (sign), imm[4] = p[6], imm[6] = p[5],
/// imm[8:7] = p[4:3], imm[5] = p[2].
pub open spec fn imm_addi16sp_spec(p: u16) -> int {
    sext(
        (c_bit(p, 0x1000) * 0x200 + c_bit(p, 0x40) * 0x10 + c_bit(p, 0x20) * 0x40 + ((p as nat
            / 8) % 4) * 0x80 + c_bit(p, 4) * 0x20) as int,
        0x200,
    )
}

/// CJ offset: imm[11] = p[12] (sign), imm[4] = p[11], imm[9:8] = p[10:9],
/// imm[10] = p[8], imm[6] = p[7], imm[7] = p[6], imm[3:1] = p[5:3], imm[5] = p[2].
pub open spec fn imm_cj_spec(p: u16) -> int {
    sext(
        (c_bit(p, 0x1000) * 0x800 + c_bit(p, 0x800) * 0x10 + ((p as nat / 0x200) % 4) * 0x100
            + c_bit(p, 0x100) * 0x400 + c_bit(p, 0x80) * 0x40 + c_bit(p, 0x40) * 0x80 + ((p as nat
            / 8) % 8) * 2 + c_bit(p, 4) * 0x20) as int,
        0x800,
    )
}

/// CB offset: imm[8] = p[12] (sign), imm[4:3] = p[11:10], imm[7:6] = p[6:5],
/// imm[2:1] = p[4:3], imm[5] = p[2].
pub open spec fn imm_cb_spec(p: u16) -> int {
    sext(
        (c_bit(p, 0x1000) * 0x100 + ((p as nat / 0x400) % 4) * 8 + ((p as nat / 0x20) % 4) * 0x40
            + ((p as nat / 8) % 4) * 2 + c_bit(p, 4) * 0x20) as int,
        0x100,
    )
}

/// The illegal-instruction result for a parcel.
pub open spec fn c_illegal(p: u16) -> Result<Inst, Exception> {
    Err(Exception::IllegalInstruction(p as u32))
}

/// Quadrant 1, funct3 = 100: the arithmetic block on primed registers.
pub open spec fn decode_c_arith_spec(p: u16) -> Result<Inst, Exception> {
    let rd = c_rs1_prime(p) as usize;
    let rs2 = c_rd_prime(p) as usize;
    let sel = (p as nat / 0x400) % 4;
    let b12 = c_bit(p, 0x1000);
    let f2 = (p as nat / 0x20) % 4;
    if sel == 0 {
        Ok(Inst::Srli { rd, rs1: rd, shamt: shamt_ci_spec(p) as u32 })
    } else if sel == 1 {
        Ok(Inst::Srai { rd, rs1: rd, shamt: shamt_ci_spec(p) as u32 })
    } else if sel == 2 {
        Ok(Inst::Andi { rd, rs1: rd, imm: imm_ci_spec(p) as i64 })
    } else if b12 == 0 && f2 == 0 {
        Ok(Inst::Sub { rd, rs1: rd, rs2 })
    } else if b12 == 0 && f2 == 1 {
        Ok(Inst::Xor { rd, rs1: rd, rs2 })
    } else if b12 == 0 && f2 == 2 {
        Ok(Inst::Or { rd, rs1: rd, rs2 })
    } else if b12 == 0 && f2 == 3 {
        Ok(Inst::And { rd, rs1: rd, rs2 })
    } else if b12 == 1 && f2 == 0 {
        Ok(Inst::Subw { rd, rs1: rd, rs2 })
    } else if b12 == 1 && f2 == 1 {
        Ok(Inst::Addw { rd, rs1: rd, rs2 })
    } else {
        c_illegal(p)
    }
}

/// Quadrant 2, funct3 = 100: C.JR, C.MV, C.EBREAK, C.JALR, C.ADD, told apart
/// by bit 12 and whether the register fields are zero.
pub open spec fn decode_c_jump_add_spec(p: u16) -> Result<Inst, Exception> {
    let rd = c_rd_full(p) as usize;
    let rs2 = c_rs2_full(p) as usize;
    if c_bit(p, 0x1000) == 0 {
        if rs2 == 0 {
            if rd == 0 {
                c_illegal(p)
            } else {
                Ok(Inst::Jalr { rd: 0, rs1: rd, offset: 0 })
            }
        } else {
            Ok(Inst::Add { rd, rs1: 0, rs2 })
        }
    } else {
        if rs2 == 0 {
            if rd == 0 {
                Ok(Inst::Ebreak)
            } else {
                Ok(Inst::Jalr { rd: 1, rs1: rd, offset: 0 })
            }
        } else {
            Ok(Inst::Add { rd, rs1: rd, rs2 })
        }
    }
}

/// What the 16-bit parcel `p` decodes to: the RV64C table, each entry the
/// instruction its 32-bit expansion names, or an illegal-instruction
/// exception (reserved encodings included).
pub open spec fn decode_compressed_spec(p: u16) -> Result<Inst, Exception> {
    let op = c_op(p);
    let f3 = c_funct3(p);
    let rd_full = c_rd_full(p) as usize;
    let rs2_full = c_rs2_full(p) as usize;
    let rs1_c = c_rs1_prime(p) as usize;
    let rd_c = c_rd_prime(p) as usize;
    if op == 0 {
        if f3 == 0 {
            if imm_ciw_spec(p) == 0 {
                c_illegal(p)
            } else {
                Ok(Inst::Addi { rd: rd_c, rs1: 2, imm: imm_ciw_spec(p) as i64 })
            }
        } else if f3 == 2 {
            Ok(Inst::Lw { rd: rd_c, rs1: rs1_c, offset: imm_c_mem_w_spec(p) as i64 })
        } else if f3 == 3 {
            Ok(Inst::Ld { rd: rd_c, rs1: rs1_c, offset: imm_c_mem_d_spec(p) as i64 })
        } else if f3 == 6 {
            Ok(Inst::Sw { rs1: rs1_c, rs2: rd_c, offset: imm_c_mem_w_spec(p) as i64 })
        } else if f3 == 7 {
            Ok(Inst::Sd { rs1: rs1_c, rs2: rd_c, offset: imm_c_mem_d_spec(p) as i64 })
        } else {
            c_illegal(p)
        }
    } else if op == 1 {
        if f3 == 0 {
            Ok(Inst::Addi { rd: rd_full, rs1: rd_full, imm: imm_ci_spec(p) as i64 })
        } else if f3 == 1 {
            if rd_full != 0 {
                Ok(Inst::Addiw { rd: rd_full, rs1: rd_full, imm: imm_ci_spec(p) as i64 })
            } else {
                c_illegal(p)
            }
        } else if f3 == 2 {
            Ok(Inst::Addi { rd: rd_full, rs1: 0, imm: imm_ci_spec(p) as i64 })
        } else if f3 == 3 {
            if rd_full == 2 {
                if imm_addi16sp_spec(p) == 0 {
                    c_illegal(p)
                } else {
                    Ok(Inst::Addi { rd: 2, rs1: 2, imm: imm_addi16sp_spec(p) as i64 })
                }
            } else {
                if imm_ci_spec(p) == 0 {
                    c_illegal(p)
                } else {
                    Ok(Inst::Lui { rd: rd_full, imm: (imm_ci_spec(p) * 0x1000) as i64 })
                }
            }
        } else if f3 == 4 {
            decode_c_arith_spec(p)
        } else if f3 == 5 {
            Ok(Inst::Jal { rd: 0, offset: imm_cj_spec(p) as i64 })
        } else if f3 == 6 {
            Ok(Inst::Beq { rs1: rs1_c, rs2: 0, offset: imm_cb_spec(p) as i64 })
        } else {
            Ok(Inst::Bne { rs1: rs1_c, rs2: 0, offset: imm_cb_spec(p) as i64 })
        }
    } else if op == 2 {
        if f3 == 0 {
            Ok(Inst::Slli { rd: rd_full, rs1: rd_full, shamt: shamt_ci_spec(p) as u32 })
        } else if f3 == 2 && rd_full != 0 {
            Ok(Inst::Lw { rd: rd_full, rs1: 2, offset: imm_lwsp_spec(p) as i64 })
        } else if f3 == 3 && rd_full != 0 {
            Ok(Inst::Ld { rd: rd_full, rs1: 2, offset: imm_ldsp_spec(p) as i64 })
        } else if f3 == 4 {
            decode_c_jump_add_spec(p)
        } else if f3 == 6 {
            Ok(Inst::Sw { rs1: 2, rs2: rs2_full, offset: imm_swsp_spec(p) as i64 })
        } else if f3 == 7 {
            Ok(Inst::Sd { rs1: 2, rs2: rs2_full, offset: imm_sdsp_spec(p) as i64 })
        } else {
            c_illegal(p)
        }
    } else {
        c_illegal(p)
    }
}


/// CI-format immediate: parcel[12] = imm[5] (the sign), parcel[6:2] =
/// imm[4:0]. Six bits, sign-extended.
fn imm_ci(parcel: u16) -> (r: i64)
    ensures
        r == imm_ci_spec(parcel),
{
    let imm = ((((parcel >> 12u16) & 0x1) << 5u16) | ((parcel >> 2u16) & 0x1f)) as u64;
    let r = ((imm << 58u64) as i64) >> 58u64;
    assert(r == (if (parcel / 0x1000 % 2) * 0x20 + (parcel / 4) % 0x20 >= 0x20 {
        (parcel / 0x1000 % 2) * 0x20 + (parcel / 4) % 0x20 - 0x40
    } else {
        (parcel / 0x1000 % 2) * 0x20 + (parcel / 4) % 0x20
    })) by (bit_vector)
        requires
            imm == ((((parcel >> 12u16) & 0x1) << 5u16) | ((parcel >> 2u16) & 0x1f)) as u64,
            r == ((imm << 58u64) as i64) >> 58u64,
    ;
    r
}

// The compressed memory offsets are unsigned (stack slots and struct
// fields sit at positive offsets) and scaled to the access size, so no
// bit encodes anything below the alignment. Each format scatters its
// bits differently — the price of squeezing fields into 16 bits.

/// CIW (C.ADDI4SPN): [12:11]=uimm[5:4], [10:7]=uimm[9:6], [6]=uimm[2], [5]=uimm[3].
fn imm_ciw(parcel: u16) -> (r: i64)
    ensures
        r == imm_ciw_spec(parcel),
{
    let p = parcel as u64;
    let r = ((((p >> 11u64) & 0x3) << 4u64) | (((p >> 7u64) & 0xf) << 6u64) | (((p >> 6u64) & 0x1)
        << 2u64) | (((p >> 5u64) & 0x1) << 3u64)) as i64;
    assert(r == ((parcel / 0x800) % 4) * 0x10 + ((parcel / 0x80) % 0x10) * 0x40 + ((parcel / 0x40)
        % 2) * 4 + ((parcel / 0x20) % 2) * 8) by (bit_vector)
        requires
            p == parcel as u64,
            r == ((((p >> 11u64) & 0x3) << 4u64) | (((p >> 7u64) & 0xf) << 6u64) | (((p >> 6u64)
                & 0x1) << 2u64) | (((p >> 5u64) & 0x1) << 3u64)) as i64,
    ;
    r
}

/// CL/CS word offset (C.LW/C.SW): [12:10]=uimm[5:3], [6]=uimm[2], [5]=uimm[6].
fn imm_c_mem_w(parcel: u16) -> (r: i64)
    ensures
        r == imm_c_mem_w_spec(parcel),
{
    let p = parcel as u64;
    let r = ((((p >> 10u64) & 0x7) << 3u64) | (((p >> 6u64) & 0x1) << 2u64) | (((p >> 5u64) & 0x1)
        << 6u64)) as i64;
    assert(r == ((parcel / 0x400) % 8) * 8 + ((parcel / 0x40) % 2) * 4 + ((parcel / 0x20) % 2)
        * 0x40) by (bit_vector)
        requires
            p == parcel as u64,
            r == ((((p >> 10u64) & 0x7) << 3u64) | (((p >> 6u64) & 0x1) << 2u64) | (((p >> 5u64)
                & 0x1) << 6u64)) as i64,
    ;
    r
}

/// CL/CS doubleword offset (C.LD/C.SD): [12:10]=uimm[5:3], [6:5]=uimm[7:6].
fn imm_c_mem_d(parcel: u16) -> (r: i64)
    ensures
        r == imm_c_mem_d_spec(parcel),
{
    let p = parcel as u64;
    let r = ((((p >> 10u64) & 0x7) << 3u64) | (((p >> 5u64) & 0x3) << 6u64)) as i64;
    assert(r == ((parcel / 0x400) % 8) * 8 + ((parcel / 0x20) % 4) * 0x40) by (bit_vector)
        requires
            p == parcel as u64,
            r == ((((p >> 10u64) & 0x7) << 3u64) | (((p >> 5u64) & 0x3) << 6u64)) as i64,
    ;
    r
}

/// C.LWSP offset: [12]=uimm[5], [6:4]=uimm[4:2], [3:2]=uimm[7:6].
fn imm_lwsp(parcel: u16) -> (r: i64)
    ensures
        r == imm_lwsp_spec(parcel),
{
    let p = parcel as u64;
    let r = ((((p >> 12u64) & 0x1) << 5u64) | (((p >> 4u64) & 0x7) << 2u64) | (((p >> 2u64) & 0x3)
        << 6u64)) as i64;
    assert(r == ((parcel / 0x1000) % 2) * 0x20 + ((parcel / 0x10) % 8) * 4 + ((parcel / 4) % 4)
        * 0x40) by (bit_vector)
        requires
            p == parcel as u64,
            r == ((((p >> 12u64) & 0x1) << 5u64) | (((p >> 4u64) & 0x7) << 2u64) | (((p >> 2u64)
                & 0x3) << 6u64)) as i64,
    ;
    r
}

/// C.LDSP offset: [12]=uimm[5], [6:5]=uimm[4:3], [4:2]=uimm[8:6].
fn imm_ldsp(parcel: u16) -> (r: i64)
    ensures
        r == imm_ldsp_spec(parcel),
{
    let p = parcel as u64;
    let r = ((((p >> 12u64) & 0x1) << 5u64) | (((p >> 5u64) & 0x3) << 3u64) | (((p >> 2u64) & 0x7)
        << 6u64)) as i64;
    assert(r == ((parcel / 0x1000) % 2) * 0x20 + ((parcel / 0x20) % 4) * 8 + ((parcel / 4) % 8)
        * 0x40) by (bit_vector)
        requires
            p == parcel as u64,
            r == ((((p >> 12u64) & 0x1) << 5u64) | (((p >> 5u64) & 0x3) << 3u64) | (((p >> 2u64)
                & 0x7) << 6u64)) as i64,
    ;
    r
}

/// C.SWSP offset: [12:9]=uimm[5:2], [8:7]=uimm[7:6].
fn imm_swsp(parcel: u16) -> (r: i64)
    ensures
        r == imm_swsp_spec(parcel),
{
    let p = parcel as u64;
    let r = ((((p >> 9u64) & 0xf) << 2u64) | (((p >> 7u64) & 0x3) << 6u64)) as i64;
    assert(r == ((parcel / 0x200) % 0x10) * 4 + ((parcel / 0x80) % 4) * 0x40) by (bit_vector)
        requires
            p == parcel as u64,
            r == ((((p >> 9u64) & 0xf) << 2u64) | (((p >> 7u64) & 0x3) << 6u64)) as i64,
    ;
    r
}

/// C.SDSP offset: [12:10]=uimm[5:3], [9:7]=uimm[8:6].
fn imm_sdsp(parcel: u16) -> (r: i64)
    ensures
        r == imm_sdsp_spec(parcel),
{
    let p = parcel as u64;
    let r = ((((p >> 10u64) & 0x7) << 3u64) | (((p >> 7u64) & 0x7) << 6u64)) as i64;
    assert(r == ((parcel / 0x400) % 8) * 8 + ((parcel / 0x80) % 8) * 0x40) by (bit_vector)
        requires
            p == parcel as u64,
            r == ((((p >> 10u64) & 0x7) << 3u64) | (((p >> 7u64) & 0x7) << 6u64)) as i64,
    ;
    r
}

/// CI shift amount (C.SLLI/C.SRLI/C.SRAI): [12]=shamt[5], [6:2]=shamt[4:0].
fn shamt_ci(parcel: u16) -> (r: u32)
    ensures
        r == shamt_ci_spec(parcel),
{
    let r = ((((parcel >> 12u16) & 0x1) << 5u16) | ((parcel >> 2u16) & 0x1f)) as u32;
    assert(r == ((parcel / 0x1000) % 2) * 0x20 + (parcel / 4) % 0x20) by (bit_vector)
        requires
            r == ((((parcel >> 12u16) & 0x1) << 5u16) | ((parcel >> 2u16) & 0x1f)) as u32,
    ;
    r
}

/// C.ADDI16SP immediate, scaled by 16: [12]=imm[9] (sign), [6]=imm[4],
/// [5]=imm[6], [4:3]=imm[8:7], [2]=imm[5].
fn imm_addi16sp(parcel: u16) -> (r: i64)
    ensures
        r == imm_addi16sp_spec(parcel),
{
    let p = parcel as u64;
    let imm = (((p >> 12u64) & 0x1) << 9u64) | (((p >> 6u64) & 0x1) << 4u64) | (((p >> 5u64) & 0x1)
        << 6u64) | (((p >> 3u64) & 0x3) << 7u64) | (((p >> 2u64) & 0x1) << 5u64);
    let r = ((imm << 54u64) as i64) >> 54u64;
    assert(r == (if ((parcel / 0x1000) % 2) * 0x200 + ((parcel / 0x40) % 2) * 0x10 + ((parcel
        / 0x20) % 2) * 0x40 + ((parcel / 8) % 4) * 0x80 + ((parcel / 4) % 2) * 0x20 >= 0x200 {
        ((parcel / 0x1000) % 2) * 0x200 + ((parcel / 0x40) % 2) * 0x10 + ((parcel / 0x20) % 2)
            * 0x40 + ((parcel / 8) % 4) * 0x80 + ((parcel / 4) % 2) * 0x20 - 0x400
    } else {
        ((parcel / 0x1000) % 2) * 0x200 + ((parcel / 0x40) % 2) * 0x10 + ((parcel / 0x20) % 2)
            * 0x40 + ((parcel / 8) % 4) * 0x80 + ((parcel / 4) % 2) * 0x20
    })) by (bit_vector)
        requires
            p == parcel as u64,
            imm == (((p >> 12u64) & 0x1) << 9u64) | (((p >> 6u64) & 0x1) << 4u64) | (((p >> 5u64)
                & 0x1) << 6u64) | (((p >> 3u64) & 0x3) << 7u64) | (((p >> 2u64) & 0x1) << 5u64),
            r == ((imm << 54u64) as i64) >> 54u64,
    ;
    r
}

/// CJ offset (C.J), the most scattered of them all: [12]=imm[11] (sign),
/// [11]=imm[4], [10:9]=imm[9:8], [8]=imm[10], [7]=imm[6], [6]=imm[7],
/// [5:3]=imm[3:1], [2]=imm[5].
fn imm_cj(parcel: u16) -> (r: i64)
    ensures
        r == imm_cj_spec(parcel),
{
    let p = parcel as u64;
    let imm = (((p >> 12u64) & 0x1) << 11u64) | (((p >> 11u64) & 0x1) << 4u64) | (((p >> 9u64)
        & 0x3) << 8u64) | (((p >> 8u64) & 0x1) << 10u64) | (((p >> 7u64) & 0x1) << 6u64) | (((p
        >> 6u64) & 0x1) << 7u64) | (((p >> 3u64) & 0x7) << 1u64) | (((p >> 2u64) & 0x1) << 5u64);
    let r = ((imm << 52u64) as i64) >> 52u64;
    assert(r == (if ((parcel / 0x1000) % 2) * 0x800 + ((parcel / 0x800) % 2) * 0x10 + ((parcel
        / 0x200) % 4) * 0x100 + ((parcel / 0x100) % 2) * 0x400 + ((parcel / 0x80) % 2) * 0x40 + ((
    parcel / 0x40) % 2) * 0x80 + ((parcel / 8) % 8) * 2 + ((parcel / 4) % 2) * 0x20 >= 0x800 {
        ((parcel / 0x1000) % 2) * 0x800 + ((parcel / 0x800) % 2) * 0x10 + ((parcel / 0x200) % 4)
            * 0x100 + ((parcel / 0x100) % 2) * 0x400 + ((parcel / 0x80) % 2) * 0x40 + ((parcel
            / 0x40) % 2) * 0x80 + ((parcel / 8) % 8) * 2 + ((parcel / 4) % 2) * 0x20 - 0x1000
    } else {
        ((parcel / 0x1000) % 2) * 0x800 + ((parcel / 0x800) % 2) * 0x10 + ((parcel / 0x200) % 4)
            * 0x100 + ((parcel / 0x100) % 2) * 0x400 + ((parcel / 0x80) % 2) * 0x40 + ((parcel
            / 0x40) % 2) * 0x80 + ((parcel / 8) % 8) * 2 + ((parcel / 4) % 2) * 0x20
    })) by (bit_vector)
        requires
            p == parcel as u64,
            imm == (((p >> 12u64) & 0x1) << 11u64) | (((p >> 11u64) & 0x1) << 4u64) | (((p
                >> 9u64) & 0x3) << 8u64) | (((p >> 8u64) & 0x1) << 10u64) | (((p >> 7u64) & 0x1)
                << 6u64) | (((p >> 6u64) & 0x1) << 7u64) | (((p >> 3u64) & 0x7) << 1u64) | (((p
                >> 2u64) & 0x1) << 5u64),
            r == ((imm << 52u64) as i64) >> 52u64,
    ;
    r
}

/// CB offset (C.BEQZ/C.BNEZ): [12]=imm[8] (sign), [11:10]=imm[4:3],
/// [6:5]=imm[7:6], [4:3]=imm[2:1], [2]=imm[5].
fn imm_cb(parcel: u16) -> (r: i64)
    ensures
        r == imm_cb_spec(parcel),
{
    let p = parcel as u64;
    let imm = (((p >> 12u64) & 0x1) << 8u64) | (((p >> 10u64) & 0x3) << 3u64) | (((p >> 5u64) & 0x3)
        << 6u64) | (((p >> 3u64) & 0x3) << 1u64) | (((p >> 2u64) & 0x1) << 5u64);
    let r = ((imm << 55u64) as i64) >> 55u64;
    assert(r == (if ((parcel / 0x1000) % 2) * 0x100 + ((parcel / 0x400) % 4) * 8 + ((parcel
        / 0x20) % 4) * 0x40 + ((parcel / 8) % 4) * 2 + ((parcel / 4) % 2) * 0x20 >= 0x100 {
        ((parcel / 0x1000) % 2) * 0x100 + ((parcel / 0x400) % 4) * 8 + ((parcel / 0x20) % 4) * 0x40
            + ((parcel / 8) % 4) * 2 + ((parcel / 4) % 2) * 0x20 - 0x200
    } else {
        ((parcel / 0x1000) % 2) * 0x100 + ((parcel / 0x400) % 4) * 8 + ((parcel / 0x20) % 4) * 0x40
            + ((parcel / 8) % 4) * 2 + ((parcel / 4) % 2) * 0x20
    })) by (bit_vector)
        requires
            p == parcel as u64,
            imm == (((p >> 12u64) & 0x1) << 8u64) | (((p >> 10u64) & 0x3) << 3u64) | (((p >> 5u64)
                & 0x3) << 6u64) | (((p >> 3u64) & 0x3) << 1u64) | (((p >> 2u64) & 0x1) << 5u64),
            r == ((imm << 55u64) as i64) >> 55u64,
    ;
    r
}


fn decode_c_arith(parcel: u16, rd: usize, rs2: usize) -> (r: Result<Inst, Exception>)
    requires
        rd == c_rs1_prime(parcel),
        rs2 == c_rd_prime(parcel),
    ensures
        r == decode_c_arith_spec(parcel),
{
    let sel = (parcel >> 10u16) & 0b11;
    let b12 = (parcel >> 12u16) & 1;
    let f2 = (parcel >> 5u16) & 0b11;
    assert(sel == (parcel / 0x400) % 4 && b12 == (parcel / 0x1000) % 2 && f2 == (parcel / 0x20) % 4)
        by (bit_vector)
        requires
            sel == (parcel >> 10u16) & 0b11,
            b12 == (parcel >> 12u16) & 1,
            f2 == (parcel >> 5u16) & 0b11,
    ;
    match sel {
        0b00 => Ok(Inst::Srli { rd, rs1: rd, shamt: shamt_ci(parcel) }),
        0b01 => Ok(Inst::Srai { rd, rs1: rd, shamt: shamt_ci(parcel) }),
        0b10 => Ok(Inst::Andi { rd, rs1: rd, imm: imm_ci(parcel) }),
        _ => match (b12, f2) {
            (0, 0b00) => Ok(Inst::Sub { rd, rs1: rd, rs2 }),
            (0, 0b01) => Ok(Inst::Xor { rd, rs1: rd, rs2 }),
            (0, 0b10) => Ok(Inst::Or { rd, rs1: rd, rs2 }),
            (0, 0b11) => Ok(Inst::And { rd, rs1: rd, rs2 }),
            (1, 0b00) => Ok(Inst::Subw { rd, rs1: rd, rs2 }),
            (1, 0b01) => Ok(Inst::Addw { rd, rs1: rd, rs2 }),
            _ => Err(Exception::IllegalInstruction(parcel as u32)),
        },
    }
}

fn decode_c_jump_add(parcel: u16, rd_full: usize, rs2_full: usize) -> (r: Result<Inst, Exception>)
    requires
        rd_full == c_rd_full(parcel),
        rs2_full == c_rs2_full(parcel),
    ensures
        r == decode_c_jump_add_spec(parcel),
{
    let bit12 = (parcel >> 12u16) & 1;
    assert(bit12 == (parcel / 0x1000) % 2) by (bit_vector)
        requires
            bit12 == (parcel >> 12u16) & 1,
    ;
    if bit12 == 0 {
        if rs2_full == 0 {
            // C.JR: jalr x0, 0(rs1) — `ret` is c.jr x1. rs1=0 reserved.
            if rd_full == 0 {
                Err(Exception::IllegalInstruction(parcel as u32))
            } else {
                Ok(Inst::Jalr { rd: 0, rs1: rd_full, offset: 0 })
            }
        } else {
            // C.MV: add rd, x0, rs2 (a copy through the adder).
            Ok(Inst::Add { rd: rd_full, rs1: 0, rs2: rs2_full })
        }
    } else {
        if rs2_full == 0 {
            if rd_full == 0 {
                // C.EBREAK: the 16-bit breakpoint.
                Ok(Inst::Ebreak)
            } else {
                // C.JALR: jalr x1, 0(rs1) — links pc+2 via execute's len.
                Ok(Inst::Jalr { rd: 1, rs1: rd_full, offset: 0 })
            }
        } else {
            // C.ADD: add rd, rd, rs2.
            Ok(Inst::Add { rd: rd_full, rs1: rd_full, rs2: rs2_full })
        }
    }
}

/// Decode a 16-bit compressed parcel (C extension) into the same Inst its
/// 32-bit expansion would decode to. The ISA defines every compressed
/// instruction as an alias of a full-width one, so execute never needs to
/// know compression exists: only fetch (parcel size) and the pc advance
/// (len = 2) see the difference.
///
/// Layout: op = parcel[1:0] picks the quadrant (11 would be a full-width
/// instruction), funct3 = parcel[15:13] the row.
pub fn decode_compressed(parcel: u16) -> (r: Result<Inst, Exception>)
    ensures
        r == decode_compressed_spec(parcel),
        r matches Ok(inst) ==> inst.wf(),
        r is Err ==> r == c_illegal(parcel),
{
    let op = parcel & 0b11;
    let funct3 = parcel >> 13u16;
    let rd_full = ((parcel >> 7u16) & 0x1f) as usize;
    let rs2_full = ((parcel >> 2u16) & 0x1f) as usize;
    let rs1_c = 8 + ((parcel >> 7u16) & 0b111) as usize;
    let rd_c = 8 + ((parcel >> 2u16) & 0b111) as usize;  // doubles as rs2'
    assert(op == parcel % 4 && funct3 == parcel / 0x2000 && ((parcel >> 7u16) & 0x1f) == (parcel
        / 0x80) % 0x20 && ((parcel >> 2u16) & 0x1f) == (parcel / 4) % 0x20 && ((parcel >> 7u16)
        & 0b111) == (parcel / 0x80) % 8 && ((parcel >> 2u16) & 0b111) == (parcel / 4) % 8)
        by (bit_vector)
        requires
            op == parcel & 0b11,
            funct3 == parcel >> 13u16,
    ;
    let illegal_c = Err(Exception::IllegalInstruction(parcel as u32));
    let r = match (op, funct3) {
        // --- Quadrant 0: memory access through the primed registers ---
        //
        // C.ADDI4SPN: addi rd', sp, nzuimm. nzuimm = 0 makes the all-zero
        // parcel land here, and the ISA defines it illegal on purpose:
        // jumping into zeroed memory should trap, not silently no-op.
        (0b00, 0b000) => {
            let uimm = imm_ciw(parcel);
            if uimm == 0 {
                illegal_c
            } else {
                Ok(Inst::Addi { rd: rd_c, rs1: 2, imm: uimm })
            }
        },
        // C.LW/C.LD and C.SW/C.SD: unsigned offsets scaled to the access size.
        (0b00, 0b010) => Ok(Inst::Lw { rd: rd_c, rs1: rs1_c, offset: imm_c_mem_w(parcel) }),
        (0b00, 0b011) => Ok(Inst::Ld { rd: rd_c, rs1: rs1_c, offset: imm_c_mem_d(parcel) }),
        (0b00, 0b110) => Ok(Inst::Sw { rs1: rs1_c, rs2: rd_c, offset: imm_c_mem_w(parcel) }),
        (0b00, 0b111) => Ok(Inst::Sd { rs1: rs1_c, rs2: rd_c, offset: imm_c_mem_d(parcel) }),
        // (001/101 are C.FLD/C.FSD: illegal without the D extension.)
        // --- Quadrant 1: immediates, arithmetic, and control flow ---
        //
        // C.ADDI: addi rd, rd, imm6. rd=0 imm=0 is the canonical C.NOP;
        // other rd=0 forms are HINTs, which execute fine as addi x0.
        (0b01, 0b000) => Ok(Inst::Addi { rd: rd_full, rs1: rd_full, imm: imm_ci(parcel) }),
        // C.ADDIW (RV64): rd = 0 is reserved.
        (0b01, 0b001) => {
            if rd_full != 0 {
                Ok(Inst::Addiw { rd: rd_full, rs1: rd_full, imm: imm_ci(parcel) })
            } else {
                illegal_c
            }
        },
        // C.LI: addi rd, x0, imm6 — load a small constant.
        (0b01, 0b010) => Ok(Inst::Addi { rd: rd_full, rs1: 0, imm: imm_ci(parcel) }),
        // funct3=011 splits on rd: x2 means C.ADDI16SP (grow/shrink the
        // stack frame, imm scaled by 16), anything else C.LUI (imm6
        // placed at bits 17:12). Both reserve the all-zero immediate.
        (0b01, 0b011) => {
            if rd_full == 2 {
                let imm = imm_addi16sp(parcel);
                if imm == 0 {
                    illegal_c
                } else {
                    Ok(Inst::Addi { rd: 2, rs1: 2, imm })
                }
            } else {
                let imm = imm_ci(parcel);
                if imm == 0 {
                    illegal_c
                } else {
                    Ok(Inst::Lui { rd: rd_full, imm: imm * 0x1000 })
                }
            }
        },
        // funct3=100: the arithmetic block on primed registers.
        (0b01, 0b100) => decode_c_arith(parcel, rs1_c, rd_c),
        // C.J: jal x0 — the compressed unconditional jump (±2 KiB).
        (0b01, 0b101) => Ok(Inst::Jal { rd: 0, offset: imm_cj(parcel) }),
        // C.BEQZ/C.BNEZ: compare against x0 only (±256 B).
        (0b01, 0b110) => Ok(Inst::Beq { rs1: rs1_c, rs2: 0, offset: imm_cb(parcel) }),
        (0b01, 0b111) => Ok(Inst::Bne { rs1: rs1_c, rs2: 0, offset: imm_cb(parcel) }),
        // --- Quadrant 2: stack-pointer-relative + full-register ops ---
        //
        // C.SLLI: slli rd, rd, shamt (6-bit shamt like the full form).
        (0b10, 0b000) => Ok(Inst::Slli { rd: rd_full, rs1: rd_full, shamt: shamt_ci(parcel) }),
        // C.LWSP/C.LDSP: load from the stack frame; rd = x0 is reserved.
        (0b10, 0b010) => {
            if rd_full != 0 {
                Ok(Inst::Lw { rd: rd_full, rs1: 2, offset: imm_lwsp(parcel) })
            } else {
                illegal_c
            }
        },
        (0b10, 0b011) => {
            if rd_full != 0 {
                Ok(Inst::Ld { rd: rd_full, rs1: 2, offset: imm_ldsp(parcel) })
            } else {
                illegal_c
            }
        },
        // funct3=100 packs five instructions.
        (0b10, 0b100) => decode_c_jump_add(parcel, rd_full, rs2_full),
        // C.SWSP/C.SDSP: store to the stack frame.
        (0b10, 0b110) => Ok(Inst::Sw { rs1: 2, rs2: rs2_full, offset: imm_swsp(parcel) }),
        (0b10, 0b111) => Ok(Inst::Sd { rs1: 2, rs2: rs2_full, offset: imm_sdsp(parcel) }),
        _ => illegal_c,
    };
    proof {
        assert(shamt_ci_spec(parcel) < 64);
    }
    r
}

} // verus!
