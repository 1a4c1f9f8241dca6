//! The decoder, base and compressed encodings, and the assembly text.

use riscv_emulator::exception::Exception;
use riscv_emulator::inst::{decode, decode_compressed, Inst};

// Encodings below are written in binary with underscores at the field
// boundaries, so the decomposition decode performs is visible in the
// literal itself. Each is cross-checked against the same word in hex,
// as it appears in the objdump .dump listings of real riscv-tests
// binaries (or as hand-assembled): getting a field split wrong fails
// the equality before decode even runs.

/// Decode a hand-split binary word after checking it against the objdump
/// form: the binary shows the structure, the hex proves the provenance.
fn decode_checked(binary: u32, hex: u32) -> Result<Inst, Exception> {
    assert_eq!(binary, hex, "field split does not match the objdump word");
    decode(binary)
}

#[test]
fn decodes_addi() {
    // I-type: imm[11:0]_rs1_funct3_rd_opcode
    // addi a1, t0, 32  (a1 = x11, t0 = x5)
    assert_eq!(
        decode_checked(0b000000100000_00101_000_01011_0010011, 0x02028593).unwrap(),
        Inst::Addi { rd: 11, rs1: 5, imm: 32 }
    );
    // addi x1, x1, -1  (negative immediate → sign extension)
    assert_eq!(
        decode_checked(0b111111111111_00001_000_00001_0010011, 0xfff08093).unwrap(),
        Inst::Addi { rd: 1, rs1: 1, imm: -1 }
    );
}

#[test]
fn decodes_op_imm_comparisons_and_logic() {
    // The five OP-IMM funct3 gaps (2/3/4/6/7), encodings straight from
    // the rv64ui-p tests that used to fail on them (a3 = x13, a4 = x14).
    // I-type: imm[11:0]_rs1_funct3_rd_opcode
    // slti a4, a3, 0
    assert_eq!(
        decode_checked(0b000000000000_01101_010_01110_0010011, 0x0006a713).unwrap(),
        Inst::Slti { rd: 14, rs1: 13, imm: 0 }
    );
    // sltiu a4, a3, 0
    assert_eq!(
        decode_checked(0b000000000000_01101_011_01110_0010011, 0x0006b713).unwrap(),
        Inst::Sltiu { rd: 14, rs1: 13, imm: 0 }
    );
    // xori a4, a3, -241  (0xf0f sign-extends)
    assert_eq!(
        decode_checked(0b111100001111_01101_100_01110_0010011, 0xf0f6c713).unwrap(),
        Inst::Xori { rd: 14, rs1: 13, imm: -241 }
    );
    // ori a4, a3, -241
    assert_eq!(
        decode_checked(0b111100001111_01101_110_01110_0010011, 0xf0f6e713).unwrap(),
        Inst::Ori { rd: 14, rs1: 13, imm: -241 }
    );
    // andi a4, a3, -241
    assert_eq!(
        decode_checked(0b111100001111_01101_111_01110_0010011, 0xf0f6f713).unwrap(),
        Inst::Andi { rd: 14, rs1: 13, imm: -241 }
    );
}

#[test]
fn decodes_auipc() {
    // U-type: imm[31:12]_rd_opcode
    // auipc t0, 0x0
    assert_eq!(
        decode_checked(0b00000000000000000000_00101_0010111, 0x00000297).unwrap(),
        Inst::Auipc { rd: 5, imm: 0 }
    );
}

#[test]
fn decodes_lui() {
    // lui a2, 0xffff8 — on RV64 the 32-bit value 0xffff8000 is further
    // sign-extended to 64 bits.
    assert_eq!(
        decode_checked(0b11111111111111111000_01100_0110111, 0xffff8637).unwrap(),
        Inst::Lui { rd: 12, imm: 0xffff_8000u32 as i32 as i64 }
    );
}

#[test]
fn decodes_jal() {
    // J-type: imm[20]_imm[10:1]_imm[11]_imm[19:12]_rd_opcode
    // jal x0, +0x50  (the very first instruction of rv64ui-p-add;
    // 0x50 = 80 → imm[10:1] carries 80/2 = 40 = 0b0000101000)
    assert_eq!(
        decode_checked(0b0_0000101000_0_00000000_00000_1101111, 0x0500006f).unwrap(),
        Inst::Jal { rd: 0, offset: 0x50 }
    );
    // jal x0, -4  (negative offset → all-ones upper immediate bits)
    assert_eq!(
        decode_checked(0b1_1111111110_1_11111111_00000_1101111, 0xffdff06f).unwrap(),
        Inst::Jal { rd: 0, offset: -4 }
    );
}

#[test]
fn decodes_jalr() {
    // I-type: imm[11:0]_rs1_funct3_rd_opcode
    // jalr t0, 0(t1) — where rv64ui-p-jalr used to stop (t0=x5, t1=x6)
    assert_eq!(
        decode_checked(0b000000000000_00110_000_00101_1100111, 0x000302e7).unwrap(),
        Inst::Jalr { rd: 5, rs1: 6, offset: 0 }
    );
    // jalr x0, 0(x1) — the `ret` pseudo-instruction
    assert_eq!(
        decode_checked(0b000000000000_00001_000_00000_1100111, 0x00008067).unwrap(),
        Inst::Jalr { rd: 0, rs1: 1, offset: 0 }
    );
    // JALR owns its whole opcode: funct3 != 0 does not decode
    assert_eq!(
        decode_checked(0b000000000000_00001_001_00000_1100111, 0x00009067),
        Err(Exception::IllegalInstruction(0x00009067))
    );
}

#[test]
fn decodes_shifts() {
    // Shift-immediate: funct6_shamt_rs1_funct3_rd_opcode
    // slli t0, t0, 0x35 — shamt 53 > 31 needs the 6-bit RV64 shamt
    // field (this same encoding is illegal on RV32).
    assert_eq!(
        decode_checked(0b000000_110101_00101_001_00101_0010011, 0x03529293).unwrap(),
        Inst::Slli { rd: 5, rs1: 5, shamt: 0x35 }
    );
    // Hand-assembled: srli x1, x2, 4 / srai x1, x2, 4 (bit 30 apart)
    assert_eq!(
        decode_checked(0b000000_000100_00010_101_00001_0010011, 0x00415093).unwrap(),
        Inst::Srli { rd: 1, rs1: 2, shamt: 4 }
    );
    assert_eq!(
        decode_checked(0b010000_000100_00010_101_00001_0010011, 0x40415093).unwrap(),
        Inst::Srai { rd: 1, rs1: 2, shamt: 4 }
    );
    // SLLI with the SRAI funct6 pattern (bit 30 set) is not a thing
    assert_eq!(
        decode_checked(0b010000_000100_00010_001_00001_0010011, 0x40411093),
        Err(Exception::IllegalInstruction(0x40411093))
    );
}

#[test]
fn decodes_w_family() {
    // I-type: imm[11:0]_rs1_funct3_rd_opcode
    // addiw t0, zero, 1 — the instruction that once stopped the demo
    assert_eq!(
        decode_checked(0b000000000001_00000_000_00101_0011011, 0x0010029b).unwrap(),
        Inst::Addiw { rd: 5, rs1: 0, imm: 1 }
    );
    // addiw t2, t2, -1  (sign-extended negative immediate)
    assert_eq!(
        decode_checked(0b111111111111_00111_000_00111_0011011, 0xfff3839b).unwrap(),
        Inst::Addiw { rd: 7, rs1: 7, imm: -1 }
    );
    // W shifts: funct7_shamt_rs1_funct3_rd_opcode
    // Hand-assembled: slliw x1, x2, 3 / sraiw x1, x2, 3
    assert_eq!(
        decode_checked(0b0000000_00011_00010_001_00001_0011011, 0x0031109b).unwrap(),
        Inst::Slliw { rd: 1, rs1: 2, shamt: 3 }
    );
    assert_eq!(
        decode_checked(0b0100000_00011_00010_101_00001_0011011, 0x4031509b).unwrap(),
        Inst::Sraiw { rd: 1, rs1: 2, shamt: 3 }
    );
    // W shamt is 5 bits: bit 25 (the low funct7 bit) set must not decode
    assert_eq!(
        decode_checked(0b0000001_00011_00010_001_00001_0011011, 0x0231109b),
        Err(Exception::IllegalInstruction(0x0231109b))
    );
}

#[test]
fn decodes_op() {
    // R-type: funct7_rs2_rs1_funct3_rd_opcode
    // add a4, a1, a2 — where the demo once stopped
    assert_eq!(
        decode_checked(0b0000000_01100_01011_000_01110_0110011, 0x00c58733).unwrap(),
        Inst::Add { rd: 14, rs1: 11, rs2: 12 }
    );
    // sub is add with bit 30 set
    assert_eq!(
        decode_checked(0b0100000_01100_01011_000_01110_0110011, 0x40c58733).unwrap(),
        Inst::Sub { rd: 14, rs1: 11, rs2: 12 }
    );
    // Hand-assembled: sltu x1, x2, x3 / sra x1, x2, x3
    assert_eq!(
        decode_checked(0b0000000_00011_00010_011_00001_0110011, 0x003130b3).unwrap(),
        Inst::Sltu { rd: 1, rs1: 2, rs2: 3 }
    );
    assert_eq!(
        decode_checked(0b0100000_00011_00010_101_00001_0110011, 0x403150b3).unwrap(),
        Inst::Sra { rd: 1, rs1: 2, rs2: 3 }
    );
    // An unassigned funct7 (0000011) must not decode: only 0000000,
    // 0100000 and the M extension's 0000001 mean anything on OP.
    assert_eq!(
        decode_checked(0b0000011_00011_00010_000_00001_0110011, 0x063100b3),
        Err(Exception::IllegalInstruction(0x063100b3))
    );
}

#[test]
fn decodes_op_32() {
    // R-type: funct7_rs2_rs1_funct3_rd_opcode
    // Hand-assembled: addw/subw a4, a1, a2
    assert_eq!(
        decode_checked(0b0000000_01100_01011_000_01110_0111011, 0x00c5873b).unwrap(),
        Inst::Addw { rd: 14, rs1: 11, rs2: 12 }
    );
    assert_eq!(
        decode_checked(0b0100000_01100_01011_000_01110_0111011, 0x40c5873b).unwrap(),
        Inst::Subw { rd: 14, rs1: 11, rs2: 12 }
    );
    // OP-32 has no logic/compare ops: AND's funct3 slot is a hole here
    assert_eq!(
        decode_checked(0b0000000_01100_01011_111_01110_0111011, 0x00c5f73b),
        Err(Exception::IllegalInstruction(0x00c5f73b))
    );
}

#[test]
fn decodes_m_multiplies() {
    // R-type: funct7_rs2_rs1_funct3_rd_opcode
    // The multiply half of the M extension: funct7=0000001, funct3=0-3.
    // Encodings from the rv64um-p dumps (a4, a1, a2 = x14, x11, x12).
    // mul a4, a1, a2 — where rv64um-p-mul used to stop
    assert_eq!(
        decode_checked(0b0000001_01100_01011_000_01110_0110011, 0x02c58733).unwrap(),
        Inst::Mul { rd: 14, rs1: 11, rs2: 12 }
    );
    // mulh a4, a1, a2
    assert_eq!(
        decode_checked(0b0000001_01100_01011_001_01110_0110011, 0x02c59733).unwrap(),
        Inst::Mulh { rd: 14, rs1: 11, rs2: 12 }
    );
    // mulhsu a4, a1, a2
    assert_eq!(
        decode_checked(0b0000001_01100_01011_010_01110_0110011, 0x02c5a733).unwrap(),
        Inst::Mulhsu { rd: 14, rs1: 11, rs2: 12 }
    );
    // mulhu a4, a1, a2
    assert_eq!(
        decode_checked(0b0000001_01100_01011_011_01110_0110011, 0x02c5b733).unwrap(),
        Inst::Mulhu { rd: 14, rs1: 11, rs2: 12 }
    );
    // mulw a4, a1, a2 (OP-32)
    assert_eq!(
        decode_checked(0b0000001_01100_01011_000_01110_0111011, 0x02c5873b).unwrap(),
        Inst::Mulw { rd: 14, rs1: 11, rs2: 12 }
    );
    // OP-32 has no MULHW: funct3=1 with the M funct7 stays illegal
    assert_eq!(
        decode_checked(0b0000001_01100_01011_001_01110_0111011, 0x02c5973b),
        Err(Exception::IllegalInstruction(0x02c5973b))
    );
}

#[test]
fn decodes_m_divides() {
    // R-type: funct7_rs2_rs1_funct3_rd_opcode
    // The divide half of M: funct3 4-7 = div/divu/rem/remu, and the
    // same four on OP-32 as the W variants. Encodings from the
    // rv64um-p dumps (a4, a1, a2 = x14, x11, x12).
    assert_eq!(
        decode_checked(0b0000001_01100_01011_100_01110_0110011, 0x02c5c733).unwrap(),
        Inst::Div { rd: 14, rs1: 11, rs2: 12 }
    );
    assert_eq!(
        decode_checked(0b0000001_01100_01011_101_01110_0110011, 0x02c5d733).unwrap(),
        Inst::Divu { rd: 14, rs1: 11, rs2: 12 }
    );
    assert_eq!(
        decode_checked(0b0000001_01100_01011_110_01110_0110011, 0x02c5e733).unwrap(),
        Inst::Rem { rd: 14, rs1: 11, rs2: 12 }
    );
    assert_eq!(
        decode_checked(0b0000001_01100_01011_111_01110_0110011, 0x02c5f733).unwrap(),
        Inst::Remu { rd: 14, rs1: 11, rs2: 12 }
    );
    assert_eq!(
        decode_checked(0b0000001_01100_01011_100_01110_0111011, 0x02c5c73b).unwrap(),
        Inst::Divw { rd: 14, rs1: 11, rs2: 12 }
    );
    assert_eq!(
        decode_checked(0b0000001_01100_01011_101_01110_0111011, 0x02c5d73b).unwrap(),
        Inst::Divuw { rd: 14, rs1: 11, rs2: 12 }
    );
    assert_eq!(
        decode_checked(0b0000001_01100_01011_110_01110_0111011, 0x02c5e73b).unwrap(),
        Inst::Remw { rd: 14, rs1: 11, rs2: 12 }
    );
    assert_eq!(
        decode_checked(0b0000001_01100_01011_111_01110_0111011, 0x02c5f73b).unwrap(),
        Inst::Remuw { rd: 14, rs1: 11, rs2: 12 }
    );
}

#[test]
fn decodes_amos() {
    // AMO: funct5_aq_rl_rs2_rs1_funct3_rd_opcode
    // funct3 picks the width (010 = .w, 011 = .d); aq/rl stay 0 in the
    // rv64ua-p encodings. All operands a4, a1, (a3) = x14, x11, (x13).
    let cases: &[(u32, u32, fn(usize, usize, usize) -> Inst)] = &[
        (0b00000_0_0_01011_01101_010_01110_0101111, 0x00b6a72f, |rd, rs1, rs2| {
            Inst::AmoaddW { rd, rs1, rs2 }
        }),
        (0b00000_0_0_01011_01101_011_01110_0101111, 0x00b6b72f, |rd, rs1, rs2| {
            Inst::AmoaddD { rd, rs1, rs2 }
        }),
        (0b00001_0_0_01011_01101_010_01110_0101111, 0x08b6a72f, |rd, rs1, rs2| {
            Inst::AmoswapW { rd, rs1, rs2 }
        }),
        (0b00001_0_0_01011_01101_011_01110_0101111, 0x08b6b72f, |rd, rs1, rs2| {
            Inst::AmoswapD { rd, rs1, rs2 }
        }),
        (0b00100_0_0_01011_01101_010_01110_0101111, 0x20b6a72f, |rd, rs1, rs2| {
            Inst::AmoxorW { rd, rs1, rs2 }
        }),
        (0b00100_0_0_01011_01101_011_01110_0101111, 0x20b6b72f, |rd, rs1, rs2| {
            Inst::AmoxorD { rd, rs1, rs2 }
        }),
        (0b01000_0_0_01011_01101_010_01110_0101111, 0x40b6a72f, |rd, rs1, rs2| {
            Inst::AmoorW { rd, rs1, rs2 }
        }),
        (0b01000_0_0_01011_01101_011_01110_0101111, 0x40b6b72f, |rd, rs1, rs2| {
            Inst::AmoorD { rd, rs1, rs2 }
        }),
        (0b01100_0_0_01011_01101_010_01110_0101111, 0x60b6a72f, |rd, rs1, rs2| {
            Inst::AmoandW { rd, rs1, rs2 }
        }),
        (0b01100_0_0_01011_01101_011_01110_0101111, 0x60b6b72f, |rd, rs1, rs2| {
            Inst::AmoandD { rd, rs1, rs2 }
        }),
        (0b10000_0_0_01011_01101_010_01110_0101111, 0x80b6a72f, |rd, rs1, rs2| {
            Inst::AmominW { rd, rs1, rs2 }
        }),
        (0b10000_0_0_01011_01101_011_01110_0101111, 0x80b6b72f, |rd, rs1, rs2| {
            Inst::AmominD { rd, rs1, rs2 }
        }),
        (0b10100_0_0_01011_01101_010_01110_0101111, 0xa0b6a72f, |rd, rs1, rs2| {
            Inst::AmomaxW { rd, rs1, rs2 }
        }),
        (0b10100_0_0_01011_01101_011_01110_0101111, 0xa0b6b72f, |rd, rs1, rs2| {
            Inst::AmomaxD { rd, rs1, rs2 }
        }),
        (0b11000_0_0_01011_01101_010_01110_0101111, 0xc0b6a72f, |rd, rs1, rs2| {
            Inst::AmominuW { rd, rs1, rs2 }
        }),
        (0b11000_0_0_01011_01101_011_01110_0101111, 0xc0b6b72f, |rd, rs1, rs2| {
            Inst::AmominuD { rd, rs1, rs2 }
        }),
        (0b11100_0_0_01011_01101_010_01110_0101111, 0xe0b6a72f, |rd, rs1, rs2| {
            Inst::AmomaxuW { rd, rs1, rs2 }
        }),
        (0b11100_0_0_01011_01101_011_01110_0101111, 0xe0b6b72f, |rd, rs1, rs2| {
            Inst::AmomaxuD { rd, rs1, rs2 }
        }),
    ];
    for (binary, hex, expect) in cases {
        assert_eq!(decode_checked(*binary, *hex).unwrap(), expect(14, 13, 11));
    }
    // The aq/rl hint bits decode fine (amoswap.w.aq.rl per objdump).
    assert_eq!(
        decode_checked(0b00001_1_1_01011_01101_010_01110_0101111, 0x0eb6a72f).unwrap(),
        Inst::AmoswapW { rd: 14, rs1: 13, rs2: 11 }
    );
}

#[test]
fn decodes_lr_sc() {
    // AMO: funct5_aq_rl_rs2_rs1_funct3_rd_opcode
    // lr.w a4, (a0) / sc.w a4, a5, (a0) straight from rv64ua-p-lrsc;
    // the .d forms are hand-assembled (funct3 011).
    assert_eq!(
        decode_checked(0b00010_0_0_00000_01010_010_01110_0101111, 0x1005272f).unwrap(),
        Inst::LrW { rd: 14, rs1: 10 }
    );
    assert_eq!(
        decode_checked(0b00011_0_0_01111_01010_010_01110_0101111, 0x18f5272f).unwrap(),
        Inst::ScW { rd: 14, rs1: 10, rs2: 15 }
    );
    assert_eq!(
        decode_checked(0b00010_0_0_00000_01010_011_01110_0101111, 0x1005372f).unwrap(),
        Inst::LrD { rd: 14, rs1: 10 }
    );
    assert_eq!(
        decode_checked(0b00011_0_0_01111_01010_011_01110_0101111, 0x18f5372f).unwrap(),
        Inst::ScD { rd: 14, rs1: 10, rs2: 15 }
    );
    // LR's rs2 field is hardwired zero: anything else is reserved.
    assert_eq!(
        decode_checked(0b00010_0_0_00001_01010_010_01110_0101111, 0x1015272f),
        Err(Exception::IllegalInstruction(0x1015272f))
    );
}

#[test]
fn decodes_branches() {
    // B-type: imm[12]_imm[10:5]_rs2_rs1_funct3_imm[4:1]_imm[11]_opcode
    // beq t5, t6, +0x30  (the tohost check loop; t5/t6 = x30/x31;
    // 0x30 = 0b0110000 → [10:5] = 000001, [4:1] = 1000)
    assert_eq!(
        decode_checked(0b0_000001_11111_11110_000_1000_0_1100011, 0x03ff0863).unwrap(),
        Inst::Beq { rs1: 30, rs2: 31, offset: 0x30 }
    );
    // bne a4, t2, +0x4e0  (jump to <fail>; 0x4e0 → [10:5] = 100111)
    assert_eq!(
        decode_checked(0b0_100111_00111_01110_001_0000_0_1100011, 0x4e771063).unwrap(),
        Inst::Bne { rs1: 14, rs2: 7, offset: 0x4e0 }
    );
    // beq x1, x2, -8  (hand-assembled: backward branch → the sign bit
    // inst[31] and the upper immediate bits are all ones)
    assert_eq!(
        decode_checked(0b1_111111_00010_00001_000_1100_1_1100011, 0xfe208ce3).unwrap(),
        Inst::Beq { rs1: 1, rs2: 2, offset: -8 }
    );
    // funct3=2 is a hole in the BRANCH opcode
    assert_eq!(
        decode_checked(0b0_000000_00000_00000_010_0000_0_1100011, 0x00002063),
        Err(Exception::IllegalInstruction(0x00002063))
    );
}

#[test]
fn decodes_loads() {
    // I-type: imm[11:0]_rs1_funct3_rd_opcode
    // Hand-assembled: ld x1, 8(x2) / lbu x1, 0(x2) / lw x1, -4(x2).
    // funct3 = width log2 (011 = 8 bytes), bit 2 = zero-extend (100 = lbu).
    assert_eq!(
        decode_checked(0b000000001000_00010_011_00001_0000011, 0x00813083).unwrap(),
        Inst::Ld { rd: 1, rs1: 2, offset: 8 }
    );
    assert_eq!(
        decode_checked(0b000000000000_00010_100_00001_0000011, 0x00014083).unwrap(),
        Inst::Lbu { rd: 1, rs1: 2, offset: 0 }
    );
    assert_eq!(
        decode_checked(0b111111111100_00010_010_00001_0000011, 0xffc12083).unwrap(),
        Inst::Lw { rd: 1, rs1: 2, offset: -4 }
    );
    // funct3=7 would be a 128-bit load: illegal on RV64
    assert_eq!(
        decode_checked(0b000000000000_00010_111_00001_0000011, 0x00017083),
        Err(Exception::IllegalInstruction(0x00017083))
    );
}

#[test]
fn decodes_stores() {
    // S-type: imm[11:5]_rs2_rs1_funct3_imm[4:0]_opcode
    // sw gp, -60(t5) — the riscv-tests tohost result write (gp = x3,
    // t5 = x30; -60 = 0b111111000100 splits into 1111110 / 00100)
    assert_eq!(
        decode_checked(0b1111110_00011_11110_010_00100_0100011, 0xfc3f2223).unwrap(),
        Inst::Sw { rs1: 30, rs2: 3, offset: -60 }
    );
    // Hand-assembled: sd x3, 16(x4)  (16 = 0000000_10000: the split is
    // invisible for small offsets — imm[11:5] is simply zero)
    assert_eq!(
        decode_checked(0b0000000_00011_00100_011_10000_0100011, 0x00323823).unwrap(),
        Inst::Sd { rs1: 4, rs2: 3, offset: 16 }
    );
}

#[test]
fn decodes_fences() {
    // MISC-MEM: fm_pred_succ_rs1_funct3_rd_opcode
    // fence iorw, iorw — as emitted by riscv-tests: pred and succ both
    // name all four access kinds (i/o/r/w), fm = 0000.
    assert_eq!(
        decode_checked(0b0000_1111_1111_00000_000_00000_0001111, 0x0ff0000f).unwrap(),
        Inst::Fence
    );
    // fence.i (Zifencei): funct3=1, every other field zero (reserved).
    assert_eq!(
        decode_checked(0b0000_0000_0000_00000_001_00000_0001111, 0x0000100f).unwrap(),
        Inst::FenceI
    );
    // funct3=2 has no fence assigned
    assert_eq!(
        decode_checked(0b0000_0000_0000_00000_010_00000_0001111, 0x0000200f),
        Err(Exception::IllegalInstruction(0x0000200f))
    );
}

#[test]
fn decodes_csr_instructions() {
    // Zicsr (I-type): csr_rs1_funct3_rd_opcode
    // csrr a0, mhartid — csrrs with rs1=x0 (read, set nothing);
    // csr address 0xf14 sits in the immediate field.
    assert_eq!(
        decode_checked(0b111100010100_00000_010_01010_1110011, 0xf1402573).unwrap(),
        Inst::Csrrs { rd: 10, rs1: 0, csr: 0xf14 }
    );
    // csrw mtvec, t0 — csrrw with rd=x0 (write, discard old value)
    assert_eq!(
        decode_checked(0b001100000101_00101_001_00000_1110011, 0x30529073).unwrap(),
        Inst::Csrrw { rd: 0, rs1: 5, csr: 0x305 }
    );
}

#[test]
fn decodes_ecall_and_ebreak() {
    // SYSTEM funct3=0: funct12_rs1_funct3_rd_opcode
    // Everything but funct12 is hardwired zero; ecall/ebreak differ
    // in the single bit 20.
    assert_eq!(
        decode_checked(0b000000000000_00000_000_00000_1110011, 0x00000073).unwrap(),
        Inst::Ecall
    );
    assert_eq!(
        decode_checked(0b000000000001_00000_000_00000_1110011, 0x00100073).unwrap(),
        Inst::Ebreak
    );
}

#[test]
fn decodes_mret() {
    // mret: funct12 = 0011000_00010 (MRET is funct7=0011000, rs2=00010)
    assert_eq!(
        decode_checked(0b0011000_00010_00000_000_00000_1110011, 0x30200073).unwrap(),
        Inst::Mret
    );
    // Same shape, different funct7: SRET (0001000) and WFI (rs2=00101)
    // are not implemented yet and must stay illegal, not alias to MRET.
    assert_eq!(
        decode_checked(0b0001000_00010_00000_000_00000_1110011, 0x10200073),
        Err(Exception::IllegalInstruction(0x10200073))
    );
    assert_eq!(
        decode_checked(0b0001000_00101_00000_000_00000_1110011, 0x10500073),
        Err(Exception::IllegalInstruction(0x10500073))
    );
}

#[test]
fn rejects_write_to_read_only_csr() {
    // csrrw x0, mhartid, x0: mhartid (0xf14) has address bits [11:10]
    // = 11 (visible as the leading two bits of the csr field) →
    // read-only, and CSRRW always writes.
    assert_eq!(
        decode_checked(0b111100010100_00000_001_00000_1110011, 0xf1401073),
        Err(Exception::IllegalInstruction(0xf1401073))
    );
    // ...but the pure read (csrrs with rs1=x0, f3=010) is fine.
    assert!(decode(0xf1402573).is_ok());
}

/// The compressed sibling of decode_checked: the binary shows the
/// field split, the hex is the word binutils assembled.
fn decode_compressed_checked(binary: u16, hex: u16) -> Result<Inst, Exception> {
    assert_eq!(binary, hex, "field split does not match the assembled word");
    decode_compressed(binary)
}

#[test]
fn decodes_compressed_quadrant0() {
    // CIW: funct3_uimm[5:4]_uimm[9:6]_uimm[2]_uimm[3]_rd'_op
    // c.addi4spn a0, sp, 40 (all hex words in this test assembled by
    // riscv64-elf-gcc from the c.* mnemonics)
    assert_eq!(
        decode_compressed_checked(0b000_10_0000_0_1_010_00, 0x1028).unwrap(),
        Inst::Addi { rd: 10, rs1: 2, imm: 40 }
    );
    // The all-zero parcel is nzuimm=0 here and defined illegal:
    // jumping into zeroed memory must trap.
    assert_eq!(decode_compressed(0x0000), Err(Exception::IllegalInstruction(0)));
    // CL: funct3_uimm[5:3]_rs1'_uimm[2]_uimm[6]_rd'_op
    // c.lw a1, 4(a0)
    assert_eq!(
        decode_compressed_checked(0b010_000_010_1_0_011_00, 0x414c).unwrap(),
        Inst::Lw { rd: 11, rs1: 10, offset: 4 }
    );
    // CL doubleword: funct3_uimm[5:3]_rs1'_uimm[7:6]_rd'_op
    // c.ld a2, 8(a0)
    assert_eq!(
        decode_compressed_checked(0b011_001_010_00_100_00, 0x6510).unwrap(),
        Inst::Ld { rd: 12, rs1: 10, offset: 8 }
    );
    // CS: same layouts with rd' read as rs2'
    // c.sw a1, 12(a0)
    assert_eq!(
        decode_compressed_checked(0b110_001_010_1_0_011_00, 0xc54c).unwrap(),
        Inst::Sw { rs1: 10, rs2: 11, offset: 12 }
    );
    // c.sd a2, 16(a0)
    assert_eq!(
        decode_compressed_checked(0b111_010_010_00_100_00, 0xe910).unwrap(),
        Inst::Sd { rs1: 10, rs2: 12, offset: 16 }
    );
}

#[test]
fn decodes_compressed_quadrant2() {
    // CI: funct3_shamt[5]_rd_shamt[4:0]_op
    // c.slli a0, 3
    assert_eq!(
        decode_compressed_checked(0b000_0_01010_00011_10, 0x050e).unwrap(),
        Inst::Slli { rd: 10, rs1: 10, shamt: 3 }
    );
    // c.lwsp a1, 8(sp): funct3_uimm[5]_rd_uimm[4:2]_uimm[7:6]_op
    assert_eq!(
        decode_compressed_checked(0b010_0_01011_010_00_10, 0x45a2).unwrap(),
        Inst::Lw { rd: 11, rs1: 2, offset: 8 }
    );
    // c.ldsp a2, 16(sp): funct3_uimm[5]_rd_uimm[4:3]_uimm[8:6]_op
    assert_eq!(
        decode_compressed_checked(0b011_0_01100_10_000_10, 0x6642).unwrap(),
        Inst::Ld { rd: 12, rs1: 2, offset: 16 }
    );
    // c.lwsp to x0 is reserved
    assert_eq!(
        decode_compressed_checked(0b010_0_00000_010_00_10, 0x4022),
        Err(Exception::IllegalInstruction(0x4022))
    );
    // CSS: funct3_uimm[5:2]_uimm[7:6]_rs2_op
    // c.swsp a1, 24(sp)
    assert_eq!(
        decode_compressed_checked(0b110_0110_00_01011_10, 0xcc2e).unwrap(),
        Inst::Sw { rs1: 2, rs2: 11, offset: 24 }
    );
    // c.sdsp a2, 32(sp): funct3_uimm[5:3]_uimm[8:6]_rs2_op
    assert_eq!(
        decode_compressed_checked(0b111_100_000_01100_10, 0xf032).unwrap(),
        Inst::Sd { rs1: 2, rs2: 12, offset: 32 }
    );
}

#[test]
fn decodes_compressed_jumps_and_register_ops() {
    // funct3=100 of quadrant 2: bit 12 and the zero-ness of the two
    // register fields split it five ways.
    // CR: funct3_bit12_rs1/rd_rs2_op
    // c.jr a0 = jalr x0, 0(a0)
    assert_eq!(
        decode_compressed_checked(0b100_0_01010_00000_10, 0x8502).unwrap(),
        Inst::Jalr { rd: 0, rs1: 10, offset: 0 }
    );
    // c.jalr a0 = jalr x1, 0(a0) — the link is pc+2, handled by len
    assert_eq!(
        decode_compressed_checked(0b100_1_01010_00000_10, 0x9502).unwrap(),
        Inst::Jalr { rd: 1, rs1: 10, offset: 0 }
    );
    // c.mv a1, a2 = add a1, x0, a2
    assert_eq!(
        decode_compressed_checked(0b100_0_01011_01100_10, 0x85b2).unwrap(),
        Inst::Add { rd: 11, rs1: 0, rs2: 12 }
    );
    // c.add a1, a2 = add a1, a1, a2
    assert_eq!(
        decode_compressed_checked(0b100_1_01011_01100_10, 0x95b2).unwrap(),
        Inst::Add { rd: 11, rs1: 11, rs2: 12 }
    );
    // c.ebreak
    assert_eq!(
        decode_compressed_checked(0b100_1_00000_00000_10, 0x9002).unwrap(),
        Inst::Ebreak
    );
    // c.jr x0 is reserved
    assert_eq!(
        decode_compressed_checked(0b100_0_00000_00000_10, 0x8002),
        Err(Exception::IllegalInstruction(0x8002))
    );
}

#[test]
fn decodes_compressed_quadrant1_immediates() {
    // CI: funct3_imm[5]_rd_imm[4:0]_op (hex from binutils)
    // c.addiw a0, -1
    assert_eq!(
        decode_compressed_checked(0b001_1_01010_11111_01, 0x357d).unwrap(),
        Inst::Addiw { rd: 10, rs1: 10, imm: -1 }
    );
    // c.li a0, 21 = addi a0, x0, 21
    assert_eq!(
        decode_compressed_checked(0b010_0_01010_10101_01, 0x4555).unwrap(),
        Inst::Addi { rd: 10, rs1: 0, imm: 21 }
    );
    // c.lui a1, 5 — the 6-bit immediate lands at bits 17:12
    assert_eq!(
        decode_compressed_checked(0b011_0_01011_00101_01, 0x6595).unwrap(),
        Inst::Lui { rd: 11, imm: 0x5000 }
    );
    // c.addi16sp sp, -64 (rd=2 turns C.LUI's row into the sp adjuster;
    // imm scatter [9]_[4]_[6]_[8:7]_[5], scaled by 16)
    assert_eq!(
        decode_compressed_checked(0b011_1_00010_0111_0_01, 0x7139).unwrap(),
        Inst::Addi { rd: 2, rs1: 2, imm: -64 }
    );
    // c.addiw with rd=0 is reserved (RV32 would put C.JAL here)
    assert_eq!(
        decode_compressed_checked(0b001_1_00000_11111_01, 0x307d),
        Err(Exception::IllegalInstruction(0x307d))
    );
}

#[test]
fn decodes_compressed_quadrant1_arithmetic() {
    // CB-form arithmetic: funct3_shamt[5]_funct2_rs1'_shamt[4:0]_op
    // c.srli a1, 4 / c.srai a1, 4 / c.andi a1, -9
    assert_eq!(
        decode_compressed_checked(0b100_0_00_011_00100_01, 0x8191).unwrap(),
        Inst::Srli { rd: 11, rs1: 11, shamt: 4 }
    );
    assert_eq!(
        decode_compressed_checked(0b100_0_01_011_00100_01, 0x8591).unwrap(),
        Inst::Srai { rd: 11, rs1: 11, shamt: 4 }
    );
    assert_eq!(
        decode_compressed_checked(0b100_1_10_011_10111_01, 0x99dd).unwrap(),
        Inst::Andi { rd: 11, rs1: 11, imm: -9 }
    );
    // CA-form: funct3_bit12_11_rd'_funct2_rs2'_op — all rd op= rs2
    // c.sub / c.xor / c.or / c.and a1, a2
    assert_eq!(
        decode_compressed_checked(0b100_0_11_011_00_100_01, 0x8d91).unwrap(),
        Inst::Sub { rd: 11, rs1: 11, rs2: 12 }
    );
    assert_eq!(
        decode_compressed_checked(0b100_0_11_011_01_100_01, 0x8db1).unwrap(),
        Inst::Xor { rd: 11, rs1: 11, rs2: 12 }
    );
    assert_eq!(
        decode_compressed_checked(0b100_0_11_011_10_100_01, 0x8dd1).unwrap(),
        Inst::Or { rd: 11, rs1: 11, rs2: 12 }
    );
    assert_eq!(
        decode_compressed_checked(0b100_0_11_011_11_100_01, 0x8df1).unwrap(),
        Inst::And { rd: 11, rs1: 11, rs2: 12 }
    );
    // bit 12 = 1 selects the W forms: c.subw / c.addw a1, a2
    assert_eq!(
        decode_compressed_checked(0b100_1_11_011_00_100_01, 0x9d91).unwrap(),
        Inst::Subw { rd: 11, rs1: 11, rs2: 12 }
    );
    assert_eq!(
        decode_compressed_checked(0b100_1_11_011_01_100_01, 0x9db1).unwrap(),
        Inst::Addw { rd: 11, rs1: 11, rs2: 12 }
    );
    // (1, 10) and (1, 11) are reserved
    assert_eq!(
        decode_compressed_checked(0b100_1_11_011_10_100_01, 0x9dd1),
        Err(Exception::IllegalInstruction(0x9dd1))
    );
}

#[test]
fn decodes_compressed_quadrant1_control_flow() {
    // CJ: funct3_[11]_[4]_[9:8]_[10]_[6]_[7]_[3:1]_[5]_op
    // c.j . (offset 0: every immediate bit clear)
    assert_eq!(
        decode_compressed_checked(0b101_0_0_00_0_0_0_000_0_01, 0xa001).unwrap(),
        Inst::Jal { rd: 0, offset: 0 }
    );
    // CB: funct3_[8]_[4:3]_rs1'_[7:6]_[2:1]_[5]_op
    // c.beqz a1, -2 / c.bnez a1, -4 (backward: sign bit set)
    assert_eq!(
        decode_compressed_checked(0b110_1_11_011_11_11_1_01, 0xddfd).unwrap(),
        Inst::Beq { rs1: 11, rs2: 0, offset: -2 }
    );
    assert_eq!(
        decode_compressed_checked(0b111_1_11_011_11_10_1_01, 0xfdf5).unwrap(),
        Inst::Bne { rs1: 11, rs2: 0, offset: -4 }
    );
}

#[test]
fn decodes_compressed_addi() {
    // CI format: funct3_imm[5]_rd_imm[4:0]_op
    // c.nop = c.addi x0, 0 — the canonical 16-bit no-op.
    assert_eq!(
        decode_compressed(0b000_0_00000_00000_01).unwrap(),
        Inst::Addi { rd: 0, rs1: 0, imm: 0 }
    );
    // c.addi a0, -3 (rd doubles as rs1; imm6 sign-extends: 111101 = -3)
    assert_eq!(
        decode_compressed(0b000_1_01010_11101_01).unwrap(),
        Inst::Addi { rd: 10, rs1: 10, imm: -3 }
    );
    // c.fld's slot stays illegal until the D extension arrives.
    assert_eq!(
        decode_compressed(0b001_0_00000_00000_00),
        Err(Exception::IllegalInstruction(0b001_0_00000_00000_00))
    );
}

#[test]
fn rejects_unknown_opcode() {
    assert_eq!(
        decode(0xffff_ffff),
        Err(Exception::IllegalInstruction(0xffff_ffff))
    );
    // All-zero word is deliberately not a valid RISC-V instruction.
    assert_eq!(decode(0), Err(Exception::IllegalInstruction(0)));
}

#[test]
fn displays_as_assembly() {
    assert_eq!(decode(0x02028593).unwrap().to_text(), "addi x11, x5, 32");
    assert_eq!(decode(0x0500006f).unwrap().to_text(), "jal x0, 80");
}
