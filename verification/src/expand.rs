//! The 32-bit words that compressed instructions stand for.
//!
//! Every compressed instruction is an alias of a full-width one. `expansion`
//! is the C extension's expansion table: the 32-bit word each 16-bit parcel
//! stands for, built from the parcel's fields by the encoders of the base
//! formats (`i_word`, `s_word`, `b_word`, `j_word`, `u_word`).
//! `law_compressed_is_expansion` proves that a parcel decodes to exactly
//! what its expansion decodes to.

use vstd::prelude::*;

use crate::inst::{
    c_funct3, c_op, c_rd_full, c_rd_prime, c_rs1_prime, c_rs2_full, decode_compressed_spec,
    decode_spec, funct3_of, funct7_of, imm12_of, imm_addi16sp_spec, imm_b_spec, imm_c_mem_d_spec,
    imm_c_mem_w_spec, imm_cb_spec, imm_ci_spec, imm_ciw_spec, imm_cj_spec, imm_i_spec,
    imm_j_spec, imm_ldsp_spec, imm_lwsp_spec, imm_s_spec, imm_sdsp_spec, imm_swsp_spec,
    imm_u_spec, opcode_of, rd_of, rs1_of, rs2_of, shamt_ci_spec, Inst,
};
use crate::exception::Exception;

verus! {

/// A 32-bit word from its R-type fields: funct7, rs2, rs1, funct3, rd, opcode.
pub open spec fn word(f7: int, rs2: int, rs1: int, f3: int, rd: int, op: int) -> u32 {
    (f7 * 0x200_0000 + rs2 * 0x10_0000 + rs1 * 0x8000 + f3 * 0x1000 + rd * 0x80 + op) as u32
}

/// The fields of a word read back, and the bit groups the immediate
/// decoders take apart.
proof fn lemma_word_fields(f7: u32, rs2: u32, rs1: u32, f3: u32, rd: u32, op: u32)
    by (bit_vector)
    requires
        f7 < 0x80,
        rs2 < 0x20,
        rs1 < 0x20,
        f3 < 8,
        rd < 0x20,
        op < 0x80,
    ensures
        ({
            let w = f7 * 0x200_0000 + rs2 * 0x10_0000 + rs1 * 0x8000 + f3 * 0x1000 + rd * 0x80 + op;
            (w < 0x1_0000_0000) && (w % 0x80 == op) && ((w / 0x80) % 0x20 == rd) && ((w / 0x1000)
                % 8 == f3) && ((w / 0x8000) % 0x20 == rs1) && ((w / 0x10_0000) % 0x20 == rs2) && (w
                / 0x200_0000 == f7) && (w / 0x10_0000 == f7 * 0x20 + rs2) && (w / 0x8000_0000 == f7
                / 0x40) && ((w / 0x80) % 2 == rd % 2) && ((w / 0x100) % 0x10 == (rd / 2) % 0x10)
                && ((w / 0x1000) % 0x100 == rs1 * 8 + f3) && ((w / 0x10_0000) % 2 == rs2 % 2) && ((w
                / 0x20_0000) % 0x400 == (f7 % 0x40) * 0x10 + rs2 / 2) && (w / 0x400_0000 == f7 / 2)
                && ((w / 0x10_0000) % 0x40 == (f7 % 2) * 0x20 + rs2) && (w / 0x800_0000 == f7 / 4)
                && (w / 0x1000 == f7 * 0x2000 + rs2 * 0x100 + rs1 * 8 + f3)
        }),
{
}

/// `v` as a two's-complement field of `m` values (`v` in `[-m/2, m/2)`).
pub open spec fn field_bits(v: int, m: int) -> int {
    if v < 0 {
        v + m
    } else {
        v
    }
}

/// An I-type word: imm[11:0], rs1, funct3, rd, opcode.
pub open spec fn i_word(imm: int, rs1: int, f3: int, rd: int, op: int) -> u32 {
    let u = field_bits(imm, 0x1000);
    word(u / 0x20, u % 0x20, rs1, f3, rd, op)
}

/// The fields of a word built from in-range fields read back through the
/// decoder's field functions.
proof fn lemma_word(f7: int, rs2: int, rs1: int, f3: int, rd: int, op: int)
    requires
        0 <= f7 < 0x80,
        0 <= rs2 < 0x20,
        0 <= rs1 < 0x20,
        0 <= f3 < 8,
        0 <= rd < 0x20,
        0 <= op < 0x80,
    ensures
        ({
            let w = word(f7, rs2, rs1, f3, rd, op);
            &&& w as int == f7 * 0x200_0000 + rs2 * 0x10_0000 + rs1 * 0x8000 + f3 * 0x1000 + rd
                * 0x80 + op
            &&& opcode_of(w) == op
            &&& rd_of(w) == rd
            &&& funct3_of(w) == f3
            &&& rs1_of(w) == rs1
            &&& rs2_of(w) == rs2
            &&& funct7_of(w) == f7
            &&& imm12_of(w) == f7 * 0x20 + rs2
            &&& w as int / 0x1000 == f7 * 0x2000 + rs2 * 0x100 + rs1 * 8 + f3
            &&& w as int / 0x8000_0000 == f7 / 0x40
            &&& (w as int / 0x80) % 2 == rd % 2
            &&& (w as int / 0x100) % 0x10 == (rd / 2) % 0x10
            &&& (w as int / 0x1000) % 0x100 == rs1 * 8 + f3
            &&& (w as int / 0x10_0000) % 2 == rs2 % 2
            &&& (w as int / 0x20_0000) % 0x400 == (f7 % 0x40) * 0x10 + rs2 / 2
            &&& (w as int / 0x200_0000) % 0x40 == f7 % 0x40
            &&& (w as int / 0x10_0000) % 0x40 == (f7 % 2) * 0x20 + rs2
            &&& w as int / 0x400_0000 == f7 / 2
        }),
{
    lemma_word_fields(f7 as u32, rs2 as u32, rs1 as u32, f3 as u32, rd as u32, op as u32);
}

/// An I-type word decodes its fields back, the immediate sign-extended.
proof fn lemma_i_word(imm: int, rs1: int, f3: int, rd: int, op: int)
    requires
        -0x800 <= imm < 0x800,
        0 <= rs1 < 0x20,
        0 <= f3 < 8,
        0 <= rd < 0x20,
        0 <= op < 0x80,
    ensures
        ({
            let w = i_word(imm, rs1, f3, rd, op);
            &&& opcode_of(w) == op
            &&& rd_of(w) == rd
            &&& funct3_of(w) == f3
            &&& rs1_of(w) == rs1
            &&& imm12_of(w) == field_bits(imm, 0x1000)
            &&& imm_i_spec(w) == imm
        }),
{
    let u = field_bits(imm, 0x1000);
    lemma_word(u / 0x20, u % 0x20, rs1, f3, rd, op);
}

/// An S-type word: imm[11:5] over funct7, rs2, rs1, funct3, imm[4:0] over rd.
pub open spec fn s_word(imm: int, rs2: int, rs1: int, f3: int, op: int) -> u32 {
    let u = field_bits(imm, 0x1000);
    word(u / 0x20, rs2, rs1, f3, u % 0x20, op)
}

/// A B-type word: imm[12|10:5] over funct7, imm[4:1|11] over rd.
pub open spec fn b_word(off: int, rs2: int, rs1: int, f3: int, op: int) -> u32 {
    let u = field_bits(off, 0x2000);
    word(
        (u / 0x1000) * 0x40 + (u / 0x20) % 0x40,
        rs2,
        rs1,
        f3,
        ((u / 2) % 0x10) * 2 + (u / 0x800) % 2,
        op,
    )
}

/// A J-type word: imm[20|10:1|11|19:12] over bits [31:12].
pub open spec fn j_word(off: int, rd: int, op: int) -> u32 {
    let u = field_bits(off, 0x20_0000);
    let lo = (u / 2) % 0x400;
    let mid = (u / 0x1000) % 0x100;
    word((u / 0x10_0000) * 0x40 + lo / 0x10, (lo % 0x10) * 2 + (u / 0x800) % 2, mid / 8, mid % 8, rd, op)
}

/// A U-type word: imm[31:12] over bits [31:12].
pub open spec fn u_word(imm: int, rd: int, op: int) -> u32 {
    let u = field_bits(imm, 0x1_0000_0000) / 0x1000;
    word(u / 0x2000, (u / 0x100) % 0x20, (u / 8) % 0x20, u % 8, rd, op)
}

/// An S-type word decodes its fields back.
proof fn lemma_s_word(imm: int, rs2: int, rs1: int, f3: int, op: int)
    requires
        -0x800 <= imm < 0x800,
        0 <= rs2 < 0x20,
        0 <= rs1 < 0x20,
        0 <= f3 < 8,
        0 <= op < 0x80,
    ensures
        ({
            let w = s_word(imm, rs2, rs1, f3, op);
            &&& opcode_of(w) == op
            &&& funct3_of(w) == f3
            &&& rs1_of(w) == rs1
            &&& rs2_of(w) == rs2
            &&& imm_s_spec(w) == imm
        }),
{
    let u = field_bits(imm, 0x1000);
    lemma_word(u / 0x20, rs2, rs1, f3, u % 0x20, op);
}

/// The bit groups of a B-type offset put back together.
proof fn lemma_b_bits(u: u32)
    by (bit_vector)
    requires
        u < 0x2000,
        u % 2 == 0,
    ensures
        ({
            let f7 = (u / 0x1000) * 0x40 + (u / 0x20) % 0x40;
            let rd = ((u / 2) % 0x10) * 2 + (u / 0x800) % 2;
            &&& f7 < 0x80
            &&& rd < 0x20
            &&& (f7 / 0x40) * 0x1000 + (rd % 2) * 0x800 + (f7 % 0x40) * 0x20 + ((rd / 2) % 0x10) * 2
                == u
        }),
{
}

/// A B-type word decodes its fields back.
proof fn lemma_b_word(off: int, rs2: int, rs1: int, f3: int, op: int)
    requires
        -0x1000 <= off < 0x1000,
        off % 2 == 0,
        0 <= rs2 < 0x20,
        0 <= rs1 < 0x20,
        0 <= f3 < 8,
        0 <= op < 0x80,
    ensures
        ({
            let w = b_word(off, rs2, rs1, f3, op);
            &&& opcode_of(w) == op
            &&& funct3_of(w) == f3
            &&& rs1_of(w) == rs1
            &&& rs2_of(w) == rs2
            &&& imm_b_spec(w) == off
        }),
{
    let u = field_bits(off, 0x2000);
    lemma_b_bits(u as u32);
    lemma_word(
        (u / 0x1000) * 0x40 + (u / 0x20) % 0x40,
        rs2,
        rs1,
        f3,
        ((u / 2) % 0x10) * 2 + (u / 0x800) % 2,
        op,
    );
}

/// The bit groups of a J-type offset put back together.
proof fn lemma_j_bits(u: u32)
    by (bit_vector)
    requires
        u < 0x20_0000,
        u % 2 == 0,
    ensures
        ({
            let lo = (u / 2) % 0x400;
            let mid = (u / 0x1000) % 0x100;
            let f7 = (u / 0x10_0000) * 0x40 + lo / 0x10;
            let rs2 = (lo % 0x10) * 2 + (u / 0x800) % 2;
            let rs1 = mid / 8;
            let f3 = mid % 8;
            &&& f7 < 0x80
            &&& rs2 < 0x20
            &&& rs1 < 0x20
            &&& (f7 / 0x40) * 0x10_0000 + (rs1 * 8 + f3) * 0x1000 + (rs2 % 2) * 0x800 + ((f7 % 0x40)
                * 0x10 + rs2 / 2) * 2 == u
        }),
{
}

/// A J-type word decodes its fields back.
proof fn lemma_j_word(off: int, rd: int, op: int)
    requires
        -0x10_0000 <= off < 0x10_0000,
        off % 2 == 0,
        0 <= rd < 0x20,
        0 <= op < 0x80,
    ensures
        ({
            let w = j_word(off, rd, op);
            &&& opcode_of(w) == op
            &&& rd_of(w) == rd
            &&& imm_j_spec(w) == off
        }),
{
    let u = field_bits(off, 0x20_0000);
    let lo = (u / 2) % 0x400;
    let mid = (u / 0x1000) % 0x100;
    lemma_j_bits(u as u32);
    lemma_word((u / 0x10_0000) * 0x40 + lo / 0x10, (lo % 0x10) * 2 + (u / 0x800) % 2, mid / 8, mid % 8, rd, op);
}

/// The bit groups of a U-type immediate's upper 20 bits put back together.
proof fn lemma_u_bits(u: u32)
    by (bit_vector)
    requires
        u < 0x10_0000,
    ensures
        u / 0x2000 < 0x80,
        (u / 0x2000) * 0x2000 + ((u / 0x100) % 0x20) * 0x100 + ((u / 8) % 0x20) * 8 + u % 8 == u,
{
}

/// A U-type word decodes its fields back.
proof fn lemma_u_word(imm: int, rd: int, op: int)
    requires
        -0x8000_0000 <= imm < 0x8000_0000,
        imm % 0x1000 == 0,
        0 <= rd < 0x20,
        0 <= op < 0x80,
    ensures
        ({
            let w = u_word(imm, rd, op);
            &&& opcode_of(w) == op
            &&& rd_of(w) == rd
            &&& imm_u_spec(w) == imm
        }),
{
    let u = field_bits(imm, 0x1_0000_0000) / 0x1000;
    lemma_u_bits(u as u32);
    lemma_word(u / 0x2000, (u / 0x100) % 0x20, (u / 8) % 0x20, u % 8, rd, op);
}

// --- The expansion table ----------------------------------------------------------

/// An OP-IMM shift word: funct6 over bits [31:26], the 6-bit shamt below it.
pub open spec fn shift_word(f6: int, shamt: int, rs1: int, f3: int, rd: int) -> u32 {
    word(f6 * 2 + shamt / 0x20, shamt % 0x20, rs1, f3, rd, 0x13)
}

/// Quadrant 1, funct3 = 100: C.SRLI, C.SRAI, C.ANDI and the register-register
/// block on x8-x15.
pub open spec fn arith_expansion(p: u16) -> u32 {
    let rd = c_rs1_prime(p) as int;
    let rs2 = c_rd_prime(p) as int;
    let sel = (p as nat / 0x400) % 4;
    let b12 = (p as nat / 0x1000) % 2;
    let f2 = (p as nat / 0x20) % 4;
    if sel == 0 {
        shift_word(0, shamt_ci_spec(p) as int, rd, 5, rd)
    } else if sel == 1 {
        shift_word(0x10, shamt_ci_spec(p) as int, rd, 5, rd)
    } else if sel == 2 {
        i_word(imm_ci_spec(p), rd, 7, rd, 0x13)
    } else if b12 == 0 {
        if f2 == 0 {
            word(0x20, rs2, rd, 0, rd, 0x33)
        } else if f2 == 1 {
            word(0, rs2, rd, 4, rd, 0x33)
        } else if f2 == 2 {
            word(0, rs2, rd, 6, rd, 0x33)
        } else {
            word(0, rs2, rd, 7, rd, 0x33)
        }
    } else if f2 == 0 {
        word(0x20, rs2, rd, 0, rd, 0x3b)
    } else {
        word(0, rs2, rd, 0, rd, 0x3b)
    }
}

/// Quadrant 2, funct3 = 100: C.JR, C.MV, C.EBREAK, C.JALR, C.ADD.
pub open spec fn jump_add_expansion(p: u16) -> u32 {
    let rd = c_rd_full(p) as int;
    let rs2 = c_rs2_full(p) as int;
    if (p as nat / 0x1000) % 2 == 0 {
        if rs2 == 0 {
            i_word(0, rd, 0, 0, 0x67)
        } else {
            word(0, rs2, 0, 0, rd, 0x33)
        }
    } else if rs2 == 0 {
        if rd == 0 {
            0x0010_0073
        } else {
            i_word(0, rd, 0, 1, 0x67)
        }
    } else {
        word(0, rs2, rd, 0, rd, 0x33)
    }
}

/// The 32-bit instruction a 16-bit parcel stands for, as the C extension's
/// expansion table gives it (reserved parcels have none; their row's word
/// is given all the same and means nothing).
pub open spec fn expansion(p: u16) -> u32 {
    let f3 = c_funct3(p);
    let rd = c_rd_full(p) as int;
    let rs2 = c_rs2_full(p) as int;
    let rs1c = c_rs1_prime(p) as int;
    let rdc = c_rd_prime(p) as int;
    if c_op(p) == 0 {
        if f3 == 0 {
            i_word(imm_ciw_spec(p), 2, 0, rdc, 0x13)
        } else if f3 == 2 {
            i_word(imm_c_mem_w_spec(p), rs1c, 2, rdc, 0x03)
        } else if f3 == 3 {
            i_word(imm_c_mem_d_spec(p), rs1c, 3, rdc, 0x03)
        } else if f3 == 6 {
            s_word(imm_c_mem_w_spec(p), rdc, rs1c, 2, 0x23)
        } else {
            s_word(imm_c_mem_d_spec(p), rdc, rs1c, 3, 0x23)
        }
    } else if c_op(p) == 1 {
        if f3 == 0 {
            i_word(imm_ci_spec(p), rd, 0, rd, 0x13)
        } else if f3 == 1 {
            i_word(imm_ci_spec(p), rd, 0, rd, 0x1b)
        } else if f3 == 2 {
            i_word(imm_ci_spec(p), 0, 0, rd, 0x13)
        } else if f3 == 3 {
            if rd == 2 {
                i_word(imm_addi16sp_spec(p), 2, 0, 2, 0x13)
            } else {
                u_word(imm_ci_spec(p) * 0x1000, rd, 0x37)
            }
        } else if f3 == 4 {
            arith_expansion(p)
        } else if f3 == 5 {
            j_word(imm_cj_spec(p), 0, 0x6f)
        } else if f3 == 6 {
            b_word(imm_cb_spec(p), 0, rs1c, 0, 0x63)
        } else {
            b_word(imm_cb_spec(p), 0, rs1c, 1, 0x63)
        }
    } else if f3 == 0 {
        shift_word(0, shamt_ci_spec(p) as int, rd, 1, rd)
    } else if f3 == 2 {
        i_word(imm_lwsp_spec(p), 2, 2, rd, 0x03)
    } else if f3 == 3 {
        i_word(imm_ldsp_spec(p), 2, 3, rd, 0x03)
    } else if f3 == 4 {
        jump_add_expansion(p)
    } else if f3 == 6 {
        s_word(imm_swsp_spec(p), rs2, 2, 2, 0x23)
    } else {
        s_word(imm_sdsp_spec(p), rs2, 2, 3, 0x23)
    }
}

/// Quadrant 0 parcels decode as their expansion does.
proof fn lemma_quadrant0(p: u16)
    requires
        c_op(p) == 0,
        decode_compressed_spec(p) is Ok,
    ensures
        decode_spec(expansion(p)) == decode_compressed_spec(p),
{
    let f3 = c_funct3(p);
    let rs1c = c_rs1_prime(p) as int;
    let rdc = c_rd_prime(p) as int;
    if f3 == 0 {
        lemma_i_word(imm_ciw_spec(p), 2, 0, rdc, 0x13);
    } else if f3 == 2 {
        lemma_i_word(imm_c_mem_w_spec(p), rs1c, 2, rdc, 0x03);
    } else if f3 == 3 {
        lemma_i_word(imm_c_mem_d_spec(p), rs1c, 3, rdc, 0x03);
    } else if f3 == 6 {
        lemma_s_word(imm_c_mem_w_spec(p), rdc, rs1c, 2, 0x23);
    } else {
        lemma_s_word(imm_c_mem_d_spec(p), rdc, rs1c, 3, 0x23);
    }
}

/// The arithmetic block of quadrant 1 decodes as its expansion does.
proof fn lemma_arith(p: u16)
    requires
        c_op(p) == 1,
        c_funct3(p) == 4,
        decode_compressed_spec(p) is Ok,
    ensures
        decode_spec(arith_expansion(p)) == decode_compressed_spec(p),
{
    let rd = c_rs1_prime(p) as int;
    let rs2 = c_rd_prime(p) as int;
    let sel = (p as nat / 0x400) % 4;
    let b12 = (p as nat / 0x1000) % 2;
    let f2 = (p as nat / 0x20) % 4;
    let shamt = shamt_ci_spec(p) as int;
    if sel == 0 {
        lemma_word(shamt / 0x20, shamt % 0x20, rd, 5, rd, 0x13);
    } else if sel == 1 {
        lemma_word(0x20 + shamt / 0x20, shamt % 0x20, rd, 5, rd, 0x13);
    } else if sel == 2 {
        lemma_i_word(imm_ci_spec(p), rd, 7, rd, 0x13);
    } else if b12 == 0 {
        if f2 == 0 {
            lemma_word(0x20, rs2, rd, 0, rd, 0x33);
        } else if f2 == 1 {
            lemma_word(0, rs2, rd, 4, rd, 0x33);
        } else if f2 == 2 {
            lemma_word(0, rs2, rd, 6, rd, 0x33);
        } else {
            lemma_word(0, rs2, rd, 7, rd, 0x33);
        }
    } else if f2 == 0 {
        lemma_word(0x20, rs2, rd, 0, rd, 0x3b);
    } else {
        lemma_word(0, rs2, rd, 0, rd, 0x3b);
    }
}

/// The immediate rows of quadrant 1 (C.ADDI, C.ADDIW, C.LI, C.ADDI16SP,
/// C.LUI) decode as their expansion does.
proof fn lemma_quadrant1_imm(p: u16)
    requires
        c_op(p) == 1,
        c_funct3(p) < 4,
        decode_compressed_spec(p) is Ok,
    ensures
        decode_spec(expansion(p)) == decode_compressed_spec(p),
{
    let f3 = c_funct3(p);
    let rd = c_rd_full(p) as int;
    if f3 == 0 {
        lemma_i_word(imm_ci_spec(p), rd, 0, rd, 0x13);
    } else if f3 == 1 {
        lemma_i_word(imm_ci_spec(p), rd, 0, rd, 0x1b);
    } else if f3 == 2 {
        lemma_i_word(imm_ci_spec(p), 0, 0, rd, 0x13);
    } else if rd == 2 {
        lemma_i_word(imm_addi16sp_spec(p), 2, 0, 2, 0x13);
    } else {
        lemma_u_word(imm_ci_spec(p) * 0x1000, rd, 0x37);
    }
}

/// C.J's offset is even and within a J-type immediate.
proof fn lemma_cj_range(p: u16)
    ensures
        -0x800 <= imm_cj_spec(p) < 0x800,
        imm_cj_spec(p) % 2 == 0,
{
    let b = |k: nat| (p as nat / k) % 2;
    let v = b(0x1000) * 0x800 + b(0x800) * 0x10 + ((p as nat / 0x200) % 4) * 0x100 + b(0x100)
        * 0x400 + b(0x80) * 0x40 + b(0x40) * 0x80 + ((p as nat / 8) % 8) * 2 + b(4) * 0x20;
    assert(0 <= v < 0x1000);
    assert(v % 2 == 0);
}

/// C.BEQZ/C.BNEZ's offset is even and within a B-type immediate.
proof fn lemma_cb_range(p: u16)
    ensures
        -0x100 <= imm_cb_spec(p) < 0x100,
        imm_cb_spec(p) % 2 == 0,
{
    let v = ((p as nat / 0x1000) % 2) * 0x100 + ((p as nat / 0x400) % 4) * 8 + ((p as nat / 0x20)
        % 4) * 0x40 + ((p as nat / 8) % 4) * 2 + ((p as nat / 4) % 2) * 0x20;
    assert(0 <= v < 0x200);
    assert(v % 2 == 0);
}

/// The control-transfer rows of quadrant 1 (C.J, C.BEQZ, C.BNEZ) decode as
/// their expansion does.
proof fn lemma_quadrant1_jump(p: u16)
    requires
        c_op(p) == 1,
        c_funct3(p) > 4,
    ensures
        decode_spec(expansion(p)) == decode_compressed_spec(p),
{
    let f3 = c_funct3(p);
    let rs1c = c_rs1_prime(p) as int;
    if f3 == 5 {
        lemma_cj_range(p);
        lemma_j_word(imm_cj_spec(p), 0, 0x6f);
    } else {
        lemma_cb_range(p);
        lemma_b_word(imm_cb_spec(p), 0, rs1c, (f3 - 6) as int, 0x63);
    }
}

/// Quadrant 1 parcels decode as their expansion does.
proof fn lemma_quadrant1(p: u16)
    requires
        c_op(p) == 1,
        decode_compressed_spec(p) is Ok,
    ensures
        decode_spec(expansion(p)) == decode_compressed_spec(p),
{
    if c_funct3(p) < 4 {
        lemma_quadrant1_imm(p);
    } else if c_funct3(p) == 4 {
        lemma_arith(p);
    } else {
        lemma_quadrant1_jump(p);
    }
}

/// The jump/move/add block of quadrant 2 decodes as its expansion does.
proof fn lemma_jump_add(p: u16)
    requires
        c_op(p) == 2,
        c_funct3(p) == 4,
        decode_compressed_spec(p) is Ok,
    ensures
        decode_spec(jump_add_expansion(p)) == decode_compressed_spec(p),
{
    let rd = c_rd_full(p) as int;
    let rs2 = c_rs2_full(p) as int;
    if (p as nat / 0x1000) % 2 == 0 {
        if rs2 == 0 {
            lemma_i_word(0, rd, 0, 0, 0x67);
        } else {
            lemma_word(0, rs2, 0, 0, rd, 0x33);
        }
    } else if rs2 == 0 {
        if rd == 0 {
            assert(decode_spec(0x0010_0073) == Ok::<Inst, Exception>(Inst::Ebreak));
        } else {
            lemma_i_word(0, rd, 0, 1, 0x67);
        }
    } else {
        lemma_word(0, rs2, rd, 0, rd, 0x33);
    }
}

/// Quadrant 2 parcels decode as their expansion does.
proof fn lemma_quadrant2(p: u16)
    requires
        c_op(p) == 2,
        decode_compressed_spec(p) is Ok,
    ensures
        decode_spec(expansion(p)) == decode_compressed_spec(p),
{
    let f3 = c_funct3(p);
    let rd = c_rd_full(p) as int;
    let rs2 = c_rs2_full(p) as int;
    let shamt = shamt_ci_spec(p) as int;
    if f3 == 0 {
        lemma_word(shamt / 0x20, shamt % 0x20, rd, 1, rd, 0x13);
    } else if f3 == 2 {
        lemma_i_word(imm_lwsp_spec(p), 2, 2, rd, 0x03);
    } else if f3 == 3 {
        lemma_i_word(imm_ldsp_spec(p), 2, 3, rd, 0x03);
    } else if f3 == 4 {
        lemma_jump_add(p);
    } else if f3 == 6 {
        lemma_s_word(imm_swsp_spec(p), rs2, 2, 2, 0x23);
    } else {
        lemma_s_word(imm_sdsp_spec(p), rs2, 2, 3, 0x23);
    }
}

/// Every compressed instruction is an alias of a full-width one: a parcel
/// that decodes at all decodes to exactly what its 32-bit expansion
/// decodes to.
pub proof fn law_compressed_is_expansion(p: u16)
    requires
        decode_compressed_spec(p) is Ok,
    ensures
        decode_spec(expansion(p)) == decode_compressed_spec(p),
{
    if c_op(p) == 0 {
        lemma_quadrant0(p);
    } else if c_op(p) == 1 {
        lemma_quadrant1(p);
    } else {
        lemma_quadrant2(p);
    }
}

// --- Immediate ranges ---------------------------------------------------------------

/// The immediates of an instruction lie in its format's range: 12 bits
/// signed for I and S, 13 bits signed and even for B, 21 bits signed and
/// even for J, a multiple of 4096 within 32 bits signed for U, and 5 bits
/// for the CSR immediates.
pub open spec fn imms_in_range(inst: Inst) -> bool {
    match inst {
        Inst::Addi { imm, .. }
        | Inst::Slti { imm, .. }
        | Inst::Sltiu { imm, .. }
        | Inst::Xori { imm, .. }
        | Inst::Ori { imm, .. }
        | Inst::Andi { imm, .. }
        | Inst::Addiw { imm, .. } => -0x800 <= imm < 0x800,
        Inst::Lb { offset, .. }
        | Inst::Lh { offset, .. }
        | Inst::Lw { offset, .. }
        | Inst::Lbu { offset, .. }
        | Inst::Lhu { offset, .. }
        | Inst::Lwu { offset, .. }
        | Inst::Ld { offset, .. }
        | Inst::Jalr { offset, .. }
        | Inst::Sb { offset, .. }
        | Inst::Sh { offset, .. }
        | Inst::Sw { offset, .. }
        | Inst::Sd { offset, .. } => -0x800 <= offset < 0x800,
        Inst::Beq { offset, .. }
        | Inst::Bne { offset, .. }
        | Inst::Blt { offset, .. }
        | Inst::Bge { offset, .. }
        | Inst::Bltu { offset, .. }
        | Inst::Bgeu { offset, .. } => -0x1000 <= offset < 0x1000 && offset % 2 == 0,
        Inst::Jal { offset, .. } => -0x10_0000 <= offset < 0x10_0000 && offset % 2 == 0,
        Inst::Lui { imm, .. } | Inst::Auipc { imm, .. } => -0x8000_0000 <= imm < 0x8000_0000 && imm
            % 0x1000 == 0,
        Inst::Csrrwi { uimm, .. } | Inst::Csrrsi { uimm, .. } | Inst::Csrrci { uimm, .. } => uimm < 32,
        _ => true,
    }
}

/// The ranges of the immediates the decoder takes out of a word.
proof fn lemma_word_imm_ranges(raw: u32)
    ensures
        -0x800 <= imm_i_spec(raw) < 0x800,
        -0x800 <= imm_s_spec(raw) < 0x800,
        -0x1000 <= imm_b_spec(raw) < 0x1000,
        imm_b_spec(raw) % 2 == 0,
        -0x10_0000 <= imm_j_spec(raw) < 0x10_0000,
        imm_j_spec(raw) % 2 == 0,
        -0x8000_0000 <= imm_u_spec(raw) < 0x8000_0000,
        imm_u_spec(raw) % 0x1000 == 0,
        rs1_of(raw) < 32,
{
    let r = raw as int;
    assert(r / 0x10_0000 < 0x1000);
    assert(r / 0x200_0000 < 0x80);
    let b = (r / 0x8000_0000) * 0x1000 + (r / 0x80 % 2) * 0x800 + (r / 0x200_0000 % 0x40) * 0x20 + (r
        / 0x100 % 0x10) * 2;
    assert(r / 0x8000_0000 <= 1);
    assert(0 <= b < 0x2000 && b % 2 == 0);
    let j = (r / 0x8000_0000) * 0x10_0000 + (r / 0x1000 % 0x100) * 0x1000 + (r / 0x10_0000 % 2) * 0x800
        + (r / 0x20_0000 % 0x400) * 2;
    assert(0 <= j < 0x20_0000 && j % 2 == 0);
    let q = r / 0x1000;
    assert(0 <= q < 0x10_0000);
    assert((q * 0x1000) % 0x1000 == 0);
    assert((q * 0x1000 - 0x1_0000_0000) % 0x1000 == 0);
}

/// Every immediate the decoder produces lies in its format's range.
pub proof fn law_decoded_imms_in_range(raw: u32)
    requires
        decode_spec(raw) is Ok,
    ensures
        imms_in_range(decode_spec(raw).unwrap()),
{
    lemma_word_imm_ranges(raw);
}

/// So does every immediate of a compressed instruction, being that of its
/// expansion.
pub proof fn law_compressed_imms_in_range(p: u16)
    requires
        decode_compressed_spec(p) is Ok,
    ensures
        imms_in_range(decode_compressed_spec(p).unwrap()),
{
    law_compressed_is_expansion(p);
    law_decoded_imms_in_range(expansion(p));
}

// --- The full-width encoding ------------------------------------------------------

/// The 32-bit word the ISA assigns to `inst`: its opcode, funct3 and funct7
/// from the base, M, A and Zicsr opcode tables, and its fields placed by its
/// format (the FENCE word with all its ordering fields zero).
pub open spec fn encode(inst: Inst) -> u32 {
    match inst {
        Inst::Lui { rd, imm } => u_word(imm as int, rd as int, 0x37),
        Inst::Auipc { rd, imm } => u_word(imm as int, rd as int, 0x17),
        Inst::Jal { rd, offset } => j_word(offset as int, rd as int, 0x6f),
        Inst::Jalr { rd, rs1, offset } => i_word(offset as int, rs1 as int, 0, rd as int, 0x67),
        Inst::Beq { rs1, rs2, offset } => b_word(offset as int, rs2 as int, rs1 as int, 0, 0x63),
        Inst::Bne { rs1, rs2, offset } => b_word(offset as int, rs2 as int, rs1 as int, 1, 0x63),
        Inst::Blt { rs1, rs2, offset } => b_word(offset as int, rs2 as int, rs1 as int, 4, 0x63),
        Inst::Bge { rs1, rs2, offset } => b_word(offset as int, rs2 as int, rs1 as int, 5, 0x63),
        Inst::Bltu { rs1, rs2, offset } => b_word(offset as int, rs2 as int, rs1 as int, 6, 0x63),
        Inst::Bgeu { rs1, rs2, offset } => b_word(offset as int, rs2 as int, rs1 as int, 7, 0x63),
        Inst::Lb { rd, rs1, offset } => i_word(offset as int, rs1 as int, 0, rd as int, 0x03),
        Inst::Lh { rd, rs1, offset } => i_word(offset as int, rs1 as int, 1, rd as int, 0x03),
        Inst::Lw { rd, rs1, offset } => i_word(offset as int, rs1 as int, 2, rd as int, 0x03),
        Inst::Ld { rd, rs1, offset } => i_word(offset as int, rs1 as int, 3, rd as int, 0x03),
        Inst::Lbu { rd, rs1, offset } => i_word(offset as int, rs1 as int, 4, rd as int, 0x03),
        Inst::Lhu { rd, rs1, offset } => i_word(offset as int, rs1 as int, 5, rd as int, 0x03),
        Inst::Lwu { rd, rs1, offset } => i_word(offset as int, rs1 as int, 6, rd as int, 0x03),
        Inst::Sb { rs1, rs2, offset } => s_word(offset as int, rs2 as int, rs1 as int, 0, 0x23),
        Inst::Sh { rs1, rs2, offset } => s_word(offset as int, rs2 as int, rs1 as int, 1, 0x23),
        Inst::Sw { rs1, rs2, offset } => s_word(offset as int, rs2 as int, rs1 as int, 2, 0x23),
        Inst::Sd { rs1, rs2, offset } => s_word(offset as int, rs2 as int, rs1 as int, 3, 0x23),
        Inst::Addi { rd, rs1, imm } => i_word(imm as int, rs1 as int, 0, rd as int, 0x13),
        Inst::Slti { rd, rs1, imm } => i_word(imm as int, rs1 as int, 2, rd as int, 0x13),
        Inst::Sltiu { rd, rs1, imm } => i_word(imm as int, rs1 as int, 3, rd as int, 0x13),
        Inst::Xori { rd, rs1, imm } => i_word(imm as int, rs1 as int, 4, rd as int, 0x13),
        Inst::Ori { rd, rs1, imm } => i_word(imm as int, rs1 as int, 6, rd as int, 0x13),
        Inst::Andi { rd, rs1, imm } => i_word(imm as int, rs1 as int, 7, rd as int, 0x13),
        Inst::Slli { rd, rs1, shamt } => shift_word(0, shamt as int, rs1 as int, 1, rd as int),
        Inst::Srli { rd, rs1, shamt } => shift_word(0, shamt as int, rs1 as int, 5, rd as int),
        Inst::Srai { rd, rs1, shamt } => shift_word(0x10, shamt as int, rs1 as int, 5, rd as int),
        Inst::Addiw { rd, rs1, imm } => i_word(imm as int, rs1 as int, 0, rd as int, 0x1b),
        Inst::Slliw { rd, rs1, shamt } => word(0, shamt as int, rs1 as int, 1, rd as int, 0x1b),
        Inst::Srliw { rd, rs1, shamt } => word(0, shamt as int, rs1 as int, 5, rd as int, 0x1b),
        Inst::Sraiw { rd, rs1, shamt } => word(0x20, shamt as int, rs1 as int, 5, rd as int, 0x1b),
        Inst::Add { rd, rs1, rs2 } => word(0, rs2 as int, rs1 as int, 0, rd as int, 0x33),
        Inst::Sub { rd, rs1, rs2 } => word(0x20, rs2 as int, rs1 as int, 0, rd as int, 0x33),
        Inst::Sll { rd, rs1, rs2 } => word(0, rs2 as int, rs1 as int, 1, rd as int, 0x33),
        Inst::Slt { rd, rs1, rs2 } => word(0, rs2 as int, rs1 as int, 2, rd as int, 0x33),
        Inst::Sltu { rd, rs1, rs2 } => word(0, rs2 as int, rs1 as int, 3, rd as int, 0x33),
        Inst::Xor { rd, rs1, rs2 } => word(0, rs2 as int, rs1 as int, 4, rd as int, 0x33),
        Inst::Srl { rd, rs1, rs2 } => word(0, rs2 as int, rs1 as int, 5, rd as int, 0x33),
        Inst::Sra { rd, rs1, rs2 } => word(0x20, rs2 as int, rs1 as int, 5, rd as int, 0x33),
        Inst::Or { rd, rs1, rs2 } => word(0, rs2 as int, rs1 as int, 6, rd as int, 0x33),
        Inst::And { rd, rs1, rs2 } => word(0, rs2 as int, rs1 as int, 7, rd as int, 0x33),
        Inst::Addw { rd, rs1, rs2 } => word(0, rs2 as int, rs1 as int, 0, rd as int, 0x3b),
        Inst::Subw { rd, rs1, rs2 } => word(0x20, rs2 as int, rs1 as int, 0, rd as int, 0x3b),
        Inst::Sllw { rd, rs1, rs2 } => word(0, rs2 as int, rs1 as int, 1, rd as int, 0x3b),
        Inst::Srlw { rd, rs1, rs2 } => word(0, rs2 as int, rs1 as int, 5, rd as int, 0x3b),
        Inst::Sraw { rd, rs1, rs2 } => word(0x20, rs2 as int, rs1 as int, 5, rd as int, 0x3b),
        Inst::Mul { rd, rs1, rs2 } => word(1, rs2 as int, rs1 as int, 0, rd as int, 0x33),
        Inst::Mulh { rd, rs1, rs2 } => word(1, rs2 as int, rs1 as int, 1, rd as int, 0x33),
        Inst::Mulhsu { rd, rs1, rs2 } => word(1, rs2 as int, rs1 as int, 2, rd as int, 0x33),
        Inst::Mulhu { rd, rs1, rs2 } => word(1, rs2 as int, rs1 as int, 3, rd as int, 0x33),
        Inst::Div { rd, rs1, rs2 } => word(1, rs2 as int, rs1 as int, 4, rd as int, 0x33),
        Inst::Divu { rd, rs1, rs2 } => word(1, rs2 as int, rs1 as int, 5, rd as int, 0x33),
        Inst::Rem { rd, rs1, rs2 } => word(1, rs2 as int, rs1 as int, 6, rd as int, 0x33),
        Inst::Remu { rd, rs1, rs2 } => word(1, rs2 as int, rs1 as int, 7, rd as int, 0x33),
        Inst::Mulw { rd, rs1, rs2 } => word(1, rs2 as int, rs1 as int, 0, rd as int, 0x3b),
        Inst::Divw { rd, rs1, rs2 } => word(1, rs2 as int, rs1 as int, 4, rd as int, 0x3b),
        Inst::Divuw { rd, rs1, rs2 } => word(1, rs2 as int, rs1 as int, 5, rd as int, 0x3b),
        Inst::Remw { rd, rs1, rs2 } => word(1, rs2 as int, rs1 as int, 6, rd as int, 0x3b),
        Inst::Remuw { rd, rs1, rs2 } => word(1, rs2 as int, rs1 as int, 7, rd as int, 0x3b),
        // A: funct7 is funct5 followed by aq = rl = 0.
        Inst::AmoaddW { rd, rs1, rs2 } => word(0x00, rs2 as int, rs1 as int, 2, rd as int, 0x2f),
        Inst::AmoswapW { rd, rs1, rs2 } => word(0x04, rs2 as int, rs1 as int, 2, rd as int, 0x2f),
        Inst::LrW { rd, rs1 } => word(0x08, 0, rs1 as int, 2, rd as int, 0x2f),
        Inst::ScW { rd, rs1, rs2 } => word(0x0c, rs2 as int, rs1 as int, 2, rd as int, 0x2f),
        Inst::AmoxorW { rd, rs1, rs2 } => word(0x10, rs2 as int, rs1 as int, 2, rd as int, 0x2f),
        Inst::AmoorW { rd, rs1, rs2 } => word(0x20, rs2 as int, rs1 as int, 2, rd as int, 0x2f),
        Inst::AmoandW { rd, rs1, rs2 } => word(0x30, rs2 as int, rs1 as int, 2, rd as int, 0x2f),
        Inst::AmominW { rd, rs1, rs2 } => word(0x40, rs2 as int, rs1 as int, 2, rd as int, 0x2f),
        Inst::AmomaxW { rd, rs1, rs2 } => word(0x50, rs2 as int, rs1 as int, 2, rd as int, 0x2f),
        Inst::AmominuW { rd, rs1, rs2 } => word(0x60, rs2 as int, rs1 as int, 2, rd as int, 0x2f),
        Inst::AmomaxuW { rd, rs1, rs2 } => word(0x70, rs2 as int, rs1 as int, 2, rd as int, 0x2f),
        Inst::AmoaddD { rd, rs1, rs2 } => word(0x00, rs2 as int, rs1 as int, 3, rd as int, 0x2f),
        Inst::AmoswapD { rd, rs1, rs2 } => word(0x04, rs2 as int, rs1 as int, 3, rd as int, 0x2f),
        Inst::LrD { rd, rs1 } => word(0x08, 0, rs1 as int, 3, rd as int, 0x2f),
        Inst::ScD { rd, rs1, rs2 } => word(0x0c, rs2 as int, rs1 as int, 3, rd as int, 0x2f),
        Inst::AmoxorD { rd, rs1, rs2 } => word(0x10, rs2 as int, rs1 as int, 3, rd as int, 0x2f),
        Inst::AmoorD { rd, rs1, rs2 } => word(0x20, rs2 as int, rs1 as int, 3, rd as int, 0x2f),
        Inst::AmoandD { rd, rs1, rs2 } => word(0x30, rs2 as int, rs1 as int, 3, rd as int, 0x2f),
        Inst::AmominD { rd, rs1, rs2 } => word(0x40, rs2 as int, rs1 as int, 3, rd as int, 0x2f),
        Inst::AmomaxD { rd, rs1, rs2 } => word(0x50, rs2 as int, rs1 as int, 3, rd as int, 0x2f),
        Inst::AmominuD { rd, rs1, rs2 } => word(0x60, rs2 as int, rs1 as int, 3, rd as int, 0x2f),
        Inst::AmomaxuD { rd, rs1, rs2 } => word(0x70, rs2 as int, rs1 as int, 3, rd as int, 0x2f),
        // Zicsr: the CSR number fills the 12-bit immediate field.
        Inst::Csrrw { rd, rs1, csr } => word(csr as int / 0x20, csr as int % 0x20, rs1 as int, 1, rd as int, 0x73),
        Inst::Csrrs { rd, rs1, csr } => word(csr as int / 0x20, csr as int % 0x20, rs1 as int, 2, rd as int, 0x73),
        Inst::Csrrc { rd, rs1, csr } => word(csr as int / 0x20, csr as int % 0x20, rs1 as int, 3, rd as int, 0x73),
        Inst::Csrrwi { rd, uimm, csr } => word(csr as int / 0x20, csr as int % 0x20, uimm as int, 5, rd as int, 0x73),
        Inst::Csrrsi { rd, uimm, csr } => word(csr as int / 0x20, csr as int % 0x20, uimm as int, 6, rd as int, 0x73),
        Inst::Csrrci { rd, uimm, csr } => word(csr as int / 0x20, csr as int % 0x20, uimm as int, 7, rd as int, 0x73),
        Inst::Ecall => 0x0000_0073,
        Inst::Ebreak => 0x0010_0073,
        Inst::Mret => 0x3020_0073,
        Inst::Fence => 0x0000_000f,
        Inst::FenceI => 0x0000_100f,
    }
}

/// A Zicsr instruction that writes its CSR does not name a read-only one
/// (address bits [11:10] = 11); the ISA makes such a word illegal.
pub open spec fn csr_write_allowed(inst: Inst) -> bool {
    match inst {
        Inst::Csrrw { csr, .. } | Inst::Csrrwi { csr, .. } => csr / 0x400 != 3,
        Inst::Csrrs { rs1, csr, .. } | Inst::Csrrc { rs1, csr, .. } => rs1 == 0 || csr / 0x400 != 3,
        Inst::Csrrsi { uimm, csr, .. } | Inst::Csrrci { uimm, csr, .. } => uimm == 0 || csr / 0x400
            != 3,
        _ => true,
    }
}

/// The upper jump rows of the table decode back.
proof fn lemma_encode_upper_jump(inst: Inst)
    requires
        inst.wf(),
        imms_in_range(inst),
        csr_write_allowed(inst),
        inst is Lui || inst is Auipc || inst is Jal || inst is Jalr,
    ensures
        decode_spec(encode(inst)) == Ok::<Inst, Exception>(inst),
{
    match inst {
        Inst::Lui { rd, imm } => lemma_u_word(imm as int, rd as int, 0x37),
        Inst::Auipc { rd, imm } => lemma_u_word(imm as int, rd as int, 0x17),
        Inst::Jal { rd, offset } => lemma_j_word(offset as int, rd as int, 0x6f),
        Inst::Jalr { rd, rs1, offset } => lemma_i_word(offset as int, rs1 as int, 0, rd as int, 0x67),
        _ => {},
    }
}

/// The branch rows of the table decode back.
proof fn lemma_encode_branch(inst: Inst)
    requires
        inst.wf(),
        imms_in_range(inst),
        csr_write_allowed(inst),
        inst is Beq || inst is Bne || inst is Blt || inst is Bge || inst is Bltu || inst is Bgeu,
    ensures
        decode_spec(encode(inst)) == Ok::<Inst, Exception>(inst),
{
    match inst {
        Inst::Beq { rs1, rs2, offset } => lemma_b_word(offset as int, rs2 as int, rs1 as int, 0, 0x63),
        Inst::Bne { rs1, rs2, offset } => lemma_b_word(offset as int, rs2 as int, rs1 as int, 1, 0x63),
        Inst::Blt { rs1, rs2, offset } => lemma_b_word(offset as int, rs2 as int, rs1 as int, 4, 0x63),
        Inst::Bge { rs1, rs2, offset } => lemma_b_word(offset as int, rs2 as int, rs1 as int, 5, 0x63),
        Inst::Bltu { rs1, rs2, offset } => lemma_b_word(offset as int, rs2 as int, rs1 as int, 6, 0x63),
        Inst::Bgeu { rs1, rs2, offset } => lemma_b_word(offset as int, rs2 as int, rs1 as int, 7, 0x63),
        _ => {},
    }
}

/// The load rows of the table decode back.
proof fn lemma_encode_load(inst: Inst)
    requires
        inst.wf(),
        imms_in_range(inst),
        csr_write_allowed(inst),
        inst is Lb || inst is Lh || inst is Lw || inst is Ld || inst is Lbu || inst is Lhu || inst is Lwu,
    ensures
        decode_spec(encode(inst)) == Ok::<Inst, Exception>(inst),
{
    match inst {
        Inst::Lb { rd, rs1, offset } => lemma_i_word(offset as int, rs1 as int, 0, rd as int, 0x03),
        Inst::Lh { rd, rs1, offset } => lemma_i_word(offset as int, rs1 as int, 1, rd as int, 0x03),
        Inst::Lw { rd, rs1, offset } => lemma_i_word(offset as int, rs1 as int, 2, rd as int, 0x03),
        Inst::Ld { rd, rs1, offset } => lemma_i_word(offset as int, rs1 as int, 3, rd as int, 0x03),
        Inst::Lbu { rd, rs1, offset } => lemma_i_word(offset as int, rs1 as int, 4, rd as int, 0x03),
        Inst::Lhu { rd, rs1, offset } => lemma_i_word(offset as int, rs1 as int, 5, rd as int, 0x03),
        Inst::Lwu { rd, rs1, offset } => lemma_i_word(offset as int, rs1 as int, 6, rd as int, 0x03),
        _ => {},
    }
}

/// The store rows of the table decode back.
proof fn lemma_encode_store(inst: Inst)
    requires
        inst.wf(),
        imms_in_range(inst),
        csr_write_allowed(inst),
        inst is Sb || inst is Sh || inst is Sw || inst is Sd,
    ensures
        decode_spec(encode(inst)) == Ok::<Inst, Exception>(inst),
{
    match inst {
        Inst::Sb { rs1, rs2, offset } => lemma_s_word(offset as int, rs2 as int, rs1 as int, 0, 0x23),
        Inst::Sh { rs1, rs2, offset } => lemma_s_word(offset as int, rs2 as int, rs1 as int, 1, 0x23),
        Inst::Sw { rs1, rs2, offset } => lemma_s_word(offset as int, rs2 as int, rs1 as int, 2, 0x23),
        Inst::Sd { rs1, rs2, offset } => lemma_s_word(offset as int, rs2 as int, rs1 as int, 3, 0x23),
        _ => {},
    }
}

/// The op imm rows of the table decode back.
proof fn lemma_encode_op_imm(inst: Inst)
    requires
        inst.wf(),
        imms_in_range(inst),
        csr_write_allowed(inst),
        inst is Addi || inst is Slti || inst is Sltiu || inst is Xori || inst is Ori || inst is Andi || inst is Slli || inst is Srli || inst is Srai,
    ensures
        decode_spec(encode(inst)) == Ok::<Inst, Exception>(inst),
{
    match inst {
        Inst::Addi { rd, rs1, imm } => lemma_i_word(imm as int, rs1 as int, 0, rd as int, 0x13),
        Inst::Slti { rd, rs1, imm } => lemma_i_word(imm as int, rs1 as int, 2, rd as int, 0x13),
        Inst::Sltiu { rd, rs1, imm } => lemma_i_word(imm as int, rs1 as int, 3, rd as int, 0x13),
        Inst::Xori { rd, rs1, imm } => lemma_i_word(imm as int, rs1 as int, 4, rd as int, 0x13),
        Inst::Ori { rd, rs1, imm } => lemma_i_word(imm as int, rs1 as int, 6, rd as int, 0x13),
        Inst::Andi { rd, rs1, imm } => lemma_i_word(imm as int, rs1 as int, 7, rd as int, 0x13),
        Inst::Slli { rd, rs1, shamt } => lemma_word(0 * 2 + shamt as int / 0x20, shamt as int % 0x20, rs1 as int, 1, rd as int, 0x13),
        Inst::Srli { rd, rs1, shamt } => lemma_word(0 * 2 + shamt as int / 0x20, shamt as int % 0x20, rs1 as int, 5, rd as int, 0x13),
        Inst::Srai { rd, rs1, shamt } => lemma_word(16 * 2 + shamt as int / 0x20, shamt as int % 0x20, rs1 as int, 5, rd as int, 0x13),
        _ => {},
    }
}

/// The op imm32 rows of the table decode back.
proof fn lemma_encode_op_imm32(inst: Inst)
    requires
        inst.wf(),
        imms_in_range(inst),
        csr_write_allowed(inst),
        inst is Addiw || inst is Slliw || inst is Srliw || inst is Sraiw,
    ensures
        decode_spec(encode(inst)) == Ok::<Inst, Exception>(inst),
{
    match inst {
        Inst::Addiw { rd, rs1, imm } => lemma_i_word(imm as int, rs1 as int, 0, rd as int, 0x1b),
        Inst::Slliw { rd, rs1, shamt } => lemma_word(0, shamt as int, rs1 as int, 1, rd as int, 0x1b),
        Inst::Srliw { rd, rs1, shamt } => lemma_word(0, shamt as int, rs1 as int, 5, rd as int, 0x1b),
        Inst::Sraiw { rd, rs1, shamt } => lemma_word(32, shamt as int, rs1 as int, 5, rd as int, 0x1b),
        _ => {},
    }
}

/// The op rows of the table decode back.
proof fn lemma_encode_op(inst: Inst)
    requires
        inst.wf(),
        imms_in_range(inst),
        csr_write_allowed(inst),
        inst is Add || inst is Sub || inst is Sll || inst is Slt || inst is Sltu || inst is Xor || inst is Srl || inst is Sra || inst is Or || inst is And || inst is Mul || inst is Mulh || inst is Mulhsu || inst is Mulhu || inst is Div || inst is Divu || inst is Rem || inst is Remu,
    ensures
        decode_spec(encode(inst)) == Ok::<Inst, Exception>(inst),
{
    match inst {
        Inst::Add { rd, rs1, rs2 } => lemma_word(0, rs2 as int, rs1 as int, 0, rd as int, 0x33),
        Inst::Sub { rd, rs1, rs2 } => lemma_word(32, rs2 as int, rs1 as int, 0, rd as int, 0x33),
        Inst::Sll { rd, rs1, rs2 } => lemma_word(0, rs2 as int, rs1 as int, 1, rd as int, 0x33),
        Inst::Slt { rd, rs1, rs2 } => lemma_word(0, rs2 as int, rs1 as int, 2, rd as int, 0x33),
        Inst::Sltu { rd, rs1, rs2 } => lemma_word(0, rs2 as int, rs1 as int, 3, rd as int, 0x33),
        Inst::Xor { rd, rs1, rs2 } => lemma_word(0, rs2 as int, rs1 as int, 4, rd as int, 0x33),
        Inst::Srl { rd, rs1, rs2 } => lemma_word(0, rs2 as int, rs1 as int, 5, rd as int, 0x33),
        Inst::Sra { rd, rs1, rs2 } => lemma_word(32, rs2 as int, rs1 as int, 5, rd as int, 0x33),
        Inst::Or { rd, rs1, rs2 } => lemma_word(0, rs2 as int, rs1 as int, 6, rd as int, 0x33),
        Inst::And { rd, rs1, rs2 } => lemma_word(0, rs2 as int, rs1 as int, 7, rd as int, 0x33),
        Inst::Mul { rd, rs1, rs2 } => lemma_word(1, rs2 as int, rs1 as int, 0, rd as int, 0x33),
        Inst::Mulh { rd, rs1, rs2 } => lemma_word(1, rs2 as int, rs1 as int, 1, rd as int, 0x33),
        Inst::Mulhsu { rd, rs1, rs2 } => lemma_word(1, rs2 as int, rs1 as int, 2, rd as int, 0x33),
        Inst::Mulhu { rd, rs1, rs2 } => lemma_word(1, rs2 as int, rs1 as int, 3, rd as int, 0x33),
        Inst::Div { rd, rs1, rs2 } => lemma_word(1, rs2 as int, rs1 as int, 4, rd as int, 0x33),
        Inst::Divu { rd, rs1, rs2 } => lemma_word(1, rs2 as int, rs1 as int, 5, rd as int, 0x33),
        Inst::Rem { rd, rs1, rs2 } => lemma_word(1, rs2 as int, rs1 as int, 6, rd as int, 0x33),
        Inst::Remu { rd, rs1, rs2 } => lemma_word(1, rs2 as int, rs1 as int, 7, rd as int, 0x33),
        _ => {},
    }
}

/// The op32 rows of the table decode back.
proof fn lemma_encode_op32(inst: Inst)
    requires
        inst.wf(),
        imms_in_range(inst),
        csr_write_allowed(inst),
        inst is Addw || inst is Subw || inst is Sllw || inst is Srlw || inst is Sraw || inst is Mulw || inst is Divw || inst is Divuw || inst is Remw || inst is Remuw,
    ensures
        decode_spec(encode(inst)) == Ok::<Inst, Exception>(inst),
{
    match inst {
        Inst::Addw { rd, rs1, rs2 } => lemma_word(0, rs2 as int, rs1 as int, 0, rd as int, 0x3b),
        Inst::Subw { rd, rs1, rs2 } => lemma_word(32, rs2 as int, rs1 as int, 0, rd as int, 0x3b),
        Inst::Sllw { rd, rs1, rs2 } => lemma_word(0, rs2 as int, rs1 as int, 1, rd as int, 0x3b),
        Inst::Srlw { rd, rs1, rs2 } => lemma_word(0, rs2 as int, rs1 as int, 5, rd as int, 0x3b),
        Inst::Sraw { rd, rs1, rs2 } => lemma_word(32, rs2 as int, rs1 as int, 5, rd as int, 0x3b),
        Inst::Mulw { rd, rs1, rs2 } => lemma_word(1, rs2 as int, rs1 as int, 0, rd as int, 0x3b),
        Inst::Divw { rd, rs1, rs2 } => lemma_word(1, rs2 as int, rs1 as int, 4, rd as int, 0x3b),
        Inst::Divuw { rd, rs1, rs2 } => lemma_word(1, rs2 as int, rs1 as int, 5, rd as int, 0x3b),
        Inst::Remw { rd, rs1, rs2 } => lemma_word(1, rs2 as int, rs1 as int, 6, rd as int, 0x3b),
        Inst::Remuw { rd, rs1, rs2 } => lemma_word(1, rs2 as int, rs1 as int, 7, rd as int, 0x3b),
        _ => {},
    }
}

/// The amo w rows of the table decode back.
proof fn lemma_encode_amo_w(inst: Inst)
    requires
        inst.wf(),
        imms_in_range(inst),
        csr_write_allowed(inst),
        inst is AmoaddW || inst is AmoswapW || inst is ScW || inst is AmoxorW || inst is AmoorW || inst is AmoandW || inst is AmominW || inst is AmomaxW || inst is AmominuW || inst is AmomaxuW || inst is LrW,
    ensures
        decode_spec(encode(inst)) == Ok::<Inst, Exception>(inst),
{
    match inst {
        Inst::AmoaddW { rd, rs1, rs2 } => lemma_word(0, rs2 as int, rs1 as int, 2, rd as int, 0x2f),
        Inst::AmoswapW { rd, rs1, rs2 } => lemma_word(4, rs2 as int, rs1 as int, 2, rd as int, 0x2f),
        Inst::ScW { rd, rs1, rs2 } => lemma_word(12, rs2 as int, rs1 as int, 2, rd as int, 0x2f),
        Inst::AmoxorW { rd, rs1, rs2 } => lemma_word(16, rs2 as int, rs1 as int, 2, rd as int, 0x2f),
        Inst::AmoorW { rd, rs1, rs2 } => lemma_word(32, rs2 as int, rs1 as int, 2, rd as int, 0x2f),
        Inst::AmoandW { rd, rs1, rs2 } => lemma_word(48, rs2 as int, rs1 as int, 2, rd as int, 0x2f),
        Inst::AmominW { rd, rs1, rs2 } => lemma_word(64, rs2 as int, rs1 as int, 2, rd as int, 0x2f),
        Inst::AmomaxW { rd, rs1, rs2 } => lemma_word(80, rs2 as int, rs1 as int, 2, rd as int, 0x2f),
        Inst::AmominuW { rd, rs1, rs2 } => lemma_word(96, rs2 as int, rs1 as int, 2, rd as int, 0x2f),
        Inst::AmomaxuW { rd, rs1, rs2 } => lemma_word(112, rs2 as int, rs1 as int, 2, rd as int, 0x2f),
        Inst::LrW { rd, rs1 } => lemma_word(0x08, 0, rs1 as int, 2, rd as int, 0x2f),
        _ => {},
    }
}

/// The amo d rows of the table decode back.
proof fn lemma_encode_amo_d(inst: Inst)
    requires
        inst.wf(),
        imms_in_range(inst),
        csr_write_allowed(inst),
        inst is AmoaddD || inst is AmoswapD || inst is ScD || inst is AmoxorD || inst is AmoorD || inst is AmoandD || inst is AmominD || inst is AmomaxD || inst is AmominuD || inst is AmomaxuD || inst is LrD,
    ensures
        decode_spec(encode(inst)) == Ok::<Inst, Exception>(inst),
{
    match inst {
        Inst::AmoaddD { rd, rs1, rs2 } => lemma_word(0, rs2 as int, rs1 as int, 3, rd as int, 0x2f),
        Inst::AmoswapD { rd, rs1, rs2 } => lemma_word(4, rs2 as int, rs1 as int, 3, rd as int, 0x2f),
        Inst::ScD { rd, rs1, rs2 } => lemma_word(12, rs2 as int, rs1 as int, 3, rd as int, 0x2f),
        Inst::AmoxorD { rd, rs1, rs2 } => lemma_word(16, rs2 as int, rs1 as int, 3, rd as int, 0x2f),
        Inst::AmoorD { rd, rs1, rs2 } => lemma_word(32, rs2 as int, rs1 as int, 3, rd as int, 0x2f),
        Inst::AmoandD { rd, rs1, rs2 } => lemma_word(48, rs2 as int, rs1 as int, 3, rd as int, 0x2f),
        Inst::AmominD { rd, rs1, rs2 } => lemma_word(64, rs2 as int, rs1 as int, 3, rd as int, 0x2f),
        Inst::AmomaxD { rd, rs1, rs2 } => lemma_word(80, rs2 as int, rs1 as int, 3, rd as int, 0x2f),
        Inst::AmominuD { rd, rs1, rs2 } => lemma_word(96, rs2 as int, rs1 as int, 3, rd as int, 0x2f),
        Inst::AmomaxuD { rd, rs1, rs2 } => lemma_word(112, rs2 as int, rs1 as int, 3, rd as int, 0x2f),
        Inst::LrD { rd, rs1 } => lemma_word(0x08, 0, rs1 as int, 3, rd as int, 0x2f),
        _ => {},
    }
}

/// The csr rows of the table decode back.
proof fn lemma_encode_csr(inst: Inst)
    requires
        inst.wf(),
        imms_in_range(inst),
        csr_write_allowed(inst),
        inst is Csrrw || inst is Csrrs || inst is Csrrc || inst is Csrrwi || inst is Csrrsi || inst is Csrrci,
    ensures
        decode_spec(encode(inst)) == Ok::<Inst, Exception>(inst),
{
    match inst {
        Inst::Csrrw { rd, rs1, csr } => lemma_word(csr as int / 0x20, csr as int % 0x20, rs1 as int, 1, rd as int, 0x73),
        Inst::Csrrs { rd, rs1, csr } => lemma_word(csr as int / 0x20, csr as int % 0x20, rs1 as int, 2, rd as int, 0x73),
        Inst::Csrrc { rd, rs1, csr } => lemma_word(csr as int / 0x20, csr as int % 0x20, rs1 as int, 3, rd as int, 0x73),
        Inst::Csrrwi { rd, uimm, csr } => lemma_word(csr as int / 0x20, csr as int % 0x20, uimm as int, 5, rd as int, 0x73),
        Inst::Csrrsi { rd, uimm, csr } => lemma_word(csr as int / 0x20, csr as int % 0x20, uimm as int, 6, rd as int, 0x73),
        Inst::Csrrci { rd, uimm, csr } => lemma_word(csr as int / 0x20, csr as int % 0x20, uimm as int, 7, rd as int, 0x73),
        _ => {},
    }
}

/// Every instruction is decoded from its encoding: the word the ISA's
/// opcode tables assign to a well-formed instruction, with its immediates
/// in range and no write to a read-only CSR, decodes to exactly that
/// instruction (each row of the decoder's table is the ISA's).
pub proof fn law_decode_inverts_encode(inst: Inst)
    requires
        inst.wf(),
        imms_in_range(inst),
        csr_write_allowed(inst),
    ensures
        decode_spec(encode(inst)) == Ok::<Inst, Exception>(inst),
{
    if inst is Ecall || inst is Ebreak || inst is Mret || inst is Fence || inst is FenceI {
        assert(decode_spec(encode(inst)) == Ok::<Inst, Exception>(inst));
    } else if inst is Lui || inst is Auipc || inst is Jal || inst is Jalr {
        lemma_encode_upper_jump(inst);
    } else if inst is Beq || inst is Bne || inst is Blt || inst is Bge || inst is Bltu || inst is Bgeu {
        lemma_encode_branch(inst);
    } else if inst is Lb || inst is Lh || inst is Lw || inst is Ld || inst is Lbu || inst is Lhu || inst is Lwu {
        lemma_encode_load(inst);
    } else if inst is Sb || inst is Sh || inst is Sw || inst is Sd {
        lemma_encode_store(inst);
    } else if inst is Addi || inst is Slti || inst is Sltiu || inst is Xori || inst is Ori || inst is Andi || inst is Slli || inst is Srli || inst is Srai {
        lemma_encode_op_imm(inst);
    } else if inst is Addiw || inst is Slliw || inst is Srliw || inst is Sraiw {
        lemma_encode_op_imm32(inst);
    } else if inst is Add || inst is Sub || inst is Sll || inst is Slt || inst is Sltu || inst is Xor || inst is Srl || inst is Sra || inst is Or || inst is And || inst is Mul || inst is Mulh || inst is Mulhsu || inst is Mulhu || inst is Div || inst is Divu || inst is Rem || inst is Remu {
        lemma_encode_op(inst);
    } else if inst is Addw || inst is Subw || inst is Sllw || inst is Srlw || inst is Sraw || inst is Mulw || inst is Divw || inst is Divuw || inst is Remw || inst is Remuw {
        lemma_encode_op32(inst);
    } else if inst is AmoaddW || inst is AmoswapW || inst is ScW || inst is AmoxorW || inst is AmoorW || inst is AmoandW || inst is AmominW || inst is AmomaxW || inst is AmominuW || inst is AmomaxuW || inst is LrW {
        lemma_encode_amo_w(inst);
    } else if inst is AmoaddD || inst is AmoswapD || inst is ScD || inst is AmoxorD || inst is AmoorD || inst is AmoandD || inst is AmominD || inst is AmomaxD || inst is AmominuD || inst is AmomaxuD || inst is LrD {
        lemma_encode_amo_d(inst);
    } else if inst is Csrrw || inst is Csrrs || inst is Csrrc || inst is Csrrwi || inst is Csrrsi || inst is Csrrci {
        lemma_encode_csr(inst);
    }
}

// --- Decoding only accepts encodings ----------------------------------------------

/// A word is the sum of its fields.
proof fn lemma_raw_split(raw: u32)
    by (bit_vector)
    ensures
        raw == (raw / 0x200_0000) * 0x200_0000 + ((raw / 0x10_0000) % 0x20) * 0x10_0000 + ((raw
            / 0x8000) % 0x20) * 0x8000 + ((raw / 0x1000) % 8) * 0x1000 + ((raw / 0x80) % 0x20) * 0x80
            + raw % 0x80,
        raw / 0x200_0000 < 0x80,
        (raw / 0x10_0000) / 0x20 == raw / 0x200_0000,
        (raw / 0x10_0000) % 0x20 == (raw / 0x10_0000) % 0x20,
        (raw / 0x10_0000) % 0x40 == (raw / 0x200_0000 % 2) * 0x20 + (raw / 0x10_0000) % 0x20,
        raw / 0x400_0000 == (raw / 0x200_0000) / 2,
        raw / 0x800_0000 == (raw / 0x200_0000) / 4,
{
}

/// The B-type offset's bit groups put back where they came from.
proof fn lemma_b_fields(raw: u32)
    by (bit_vector)
    ensures
        ({
            let u = (raw / 0x8000_0000) * 0x1000 + ((raw / 0x80) % 2) * 0x800 + ((raw / 0x200_0000)
                % 0x40) * 0x20 + ((raw / 0x100) % 0x10) * 2;
            &&& u < 0x2000
            &&& (u / 0x1000) * 0x40 + (u / 0x20) % 0x40 == raw / 0x200_0000
            &&& ((u / 2) % 0x10) * 2 + (u / 0x800) % 2 == (raw / 0x80) % 0x20
        }),
{
}

/// The J-type offset's bit groups put back where they came from.
proof fn lemma_j_fields(raw: u32)
    by (bit_vector)
    ensures
        ({
            let u = (raw / 0x8000_0000) * 0x10_0000 + ((raw / 0x1000) % 0x100) * 0x1000 + ((raw
                / 0x10_0000) % 2) * 0x800 + ((raw / 0x20_0000) % 0x400) * 2;
            let lo = (u / 2) % 0x400;
            let mid = (u / 0x1000) % 0x100;
            &&& u < 0x20_0000
            &&& (u / 0x10_0000) * 0x40 + lo / 0x10 == raw / 0x200_0000
            &&& (lo % 0x10) * 2 + (u / 0x800) % 2 == (raw / 0x10_0000) % 0x20
            &&& mid / 8 == (raw / 0x8000) % 0x20
            &&& mid % 8 == (raw / 0x1000) % 8
        }),
{
}

/// The U-type immediate's upper bits put back where they came from.
proof fn lemma_u_fields(raw: u32)
    by (bit_vector)
    ensures
        ({
            let q = raw / 0x1000;
            &&& q / 0x2000 == raw / 0x200_0000
            &&& (q / 0x100) % 0x20 == (raw / 0x10_0000) % 0x20
            &&& (q / 8) % 0x20 == (raw / 0x8000) % 0x20
            &&& q % 8 == (raw / 0x1000) % 8
        }),
{
}

/// The instructions whose aq/rl ordering bits (25 and 26) the decoder drops.
pub open spec fn drops_ordering_bits(inst: Inst) -> bool {
    match inst {
        Inst::LrW { .. } | Inst::LrD { .. } | Inst::ScW { .. } | Inst::ScD { .. } => true,
        Inst::AmoaddW { .. } | Inst::AmoaddD { .. } | Inst::AmoswapW { .. } | Inst::AmoswapD { .. }
        | Inst::AmoxorW { .. } | Inst::AmoxorD { .. } | Inst::AmoorW { .. } | Inst::AmoorD { .. }
        | Inst::AmoandW { .. } | Inst::AmoandD { .. } | Inst::AmominW { .. } | Inst::AmominD { .. }
        | Inst::AmomaxW { .. } | Inst::AmomaxD { .. } | Inst::AmominuW { .. } | Inst::AmominuD { .. }
        | Inst::AmomaxuW { .. } | Inst::AmomaxuD { .. } => true,
        _ => false,
    }
}

/// `raw` is the encoding of what it decodes to, up to the fields the ISA
/// lets the decoder ignore (see `law_decoded_words_are_encodings`).
pub open spec fn reencodes(raw: u32) -> bool {
    let inst = decode_spec(raw).unwrap();
    if inst is Fence || inst is FenceI {
        opcode_of(raw) == 0x0f && funct3_of(raw) == (if inst is Fence {
            0nat
        } else {
            1nat
        })
    } else if drops_ordering_bits(inst) {
        encode(inst) as int == raw as int - ((raw as int / 0x200_0000) % 4) * 0x200_0000
    } else {
        encode(inst) == raw
    }
}

/// A word is the R-type word of its own fields.
proof fn lemma_raw_is_word(raw: u32)
    ensures
        word(
            funct7_of(raw) as int,
            rs2_of(raw) as int,
            rs1_of(raw) as int,
            funct3_of(raw) as int,
            rd_of(raw) as int,
            opcode_of(raw) as int,
        ) == raw,
        funct7_of(raw) < 0x80,
        imm12_of(raw) == funct7_of(raw) * 0x20 + rs2_of(raw),
        raw as nat / 0x10_0000 % 0x40 == (funct7_of(raw) % 2) * 0x20 + rs2_of(raw),
        raw as nat / 0x400_0000 == funct7_of(raw) / 2,
        raw as nat / 0x800_0000 == funct7_of(raw) / 4,
{
    lemma_raw_split(raw);
}

/// An I-type word re-encodes from its decoded immediate.
proof fn lemma_i_reencode(raw: u32, op: int)
    requires
        opcode_of(raw) == op,
    ensures
        i_word(imm_i_spec(raw), rs1_of(raw) as int, funct3_of(raw) as int, rd_of(raw) as int, op) == raw,
{
    lemma_raw_is_word(raw);
    let u = field_bits(imm_i_spec(raw), 0x1000);
    assert(u == imm12_of(raw));
    assert(u / 0x20 == funct7_of(raw) && u % 0x20 == rs2_of(raw));
}

/// An S-type word re-encodes from its decoded immediate.
proof fn lemma_s_reencode(raw: u32)
    requires
        opcode_of(raw) == 0x23,
    ensures
        s_word(imm_s_spec(raw), rs2_of(raw) as int, rs1_of(raw) as int, funct3_of(raw) as int, 0x23) == raw,
{
    lemma_raw_is_word(raw);
    let u = field_bits(imm_s_spec(raw), 0x1000);
    assert(u == funct7_of(raw) * 0x20 + rd_of(raw));
    assert(u / 0x20 == funct7_of(raw) && u % 0x20 == rd_of(raw));
}

/// A B-type word re-encodes from its decoded offset.
proof fn lemma_b_reencode(raw: u32)
    requires
        opcode_of(raw) == 0x63,
    ensures
        b_word(imm_b_spec(raw), rs2_of(raw) as int, rs1_of(raw) as int, funct3_of(raw) as int, 0x63) == raw,
{
    lemma_raw_is_word(raw);
    lemma_b_fields(raw);
}

/// A J-type word re-encodes from its decoded offset.
proof fn lemma_j_reencode(raw: u32)
    requires
        opcode_of(raw) == 0x6f,
    ensures
        j_word(imm_j_spec(raw), rd_of(raw) as int, 0x6f) == raw,
{
    lemma_raw_is_word(raw);
    lemma_j_fields(raw);
}

/// A U-type word re-encodes from its decoded immediate.
proof fn lemma_u_reencode(raw: u32, op: int)
    requires
        opcode_of(raw) == op,
    ensures
        u_word(imm_u_spec(raw), rd_of(raw) as int, op) == raw,
{
    lemma_raw_is_word(raw);
    lemma_u_fields(raw);
    let q = raw as int / 0x1000;
    assert(0 <= q < 0x10_0000);
    assert(field_bits(imm_u_spec(raw), 0x1_0000_0000) == q * 0x1000);
    assert((q * 0x1000) / 0x1000 == q);
}

/// Words with opcode 0x03 re-encode.
proof fn lemma_reencodes_load(raw: u32)
    requires
        opcode_of(raw) == 0x03,
        decode_spec(raw) is Ok,
    ensures
        reencodes(raw),
{
    lemma_raw_is_word(raw);
    lemma_i_reencode(raw, 0x03);
}

/// Words with opcode 0x23 re-encode.
proof fn lemma_reencodes_store(raw: u32)
    requires
        opcode_of(raw) == 0x23,
        decode_spec(raw) is Ok,
    ensures
        reencodes(raw),
{
    lemma_raw_is_word(raw);
    lemma_s_reencode(raw);
}

/// Words with opcode 0x13 re-encode.
proof fn lemma_reencodes_op_imm(raw: u32)
    requires
        opcode_of(raw) == 0x13,
        decode_spec(raw) is Ok,
    ensures
        reencodes(raw),
{
    lemma_raw_is_word(raw);
    lemma_i_reencode(raw, 0x13);
}

/// Words with opcode 0x17 re-encode.
proof fn lemma_reencodes_auipc(raw: u32)
    requires
        opcode_of(raw) == 0x17,
        decode_spec(raw) is Ok,
    ensures
        reencodes(raw),
{
    lemma_raw_is_word(raw);
    lemma_u_reencode(raw, 0x17);
}

/// Words with opcode 0x37 re-encode.
proof fn lemma_reencodes_lui(raw: u32)
    requires
        opcode_of(raw) == 0x37,
        decode_spec(raw) is Ok,
    ensures
        reencodes(raw),
{
    lemma_raw_is_word(raw);
    lemma_u_reencode(raw, 0x37);
}

/// Words with opcode 0x63 re-encode.
proof fn lemma_reencodes_branch(raw: u32)
    requires
        opcode_of(raw) == 0x63,
        decode_spec(raw) is Ok,
    ensures
        reencodes(raw),
{
    lemma_raw_is_word(raw);
    lemma_b_reencode(raw);
}

/// Words with opcode 0x2f re-encode.
proof fn lemma_reencodes_amo(raw: u32)
    requires
        opcode_of(raw) == 0x2f,
        decode_spec(raw) is Ok,
    ensures
        reencodes(raw),
{
    lemma_raw_is_word(raw);
    
}

/// Words with opcode 0x33 re-encode.
proof fn lemma_reencodes_op(raw: u32)
    requires
        opcode_of(raw) == 0x33,
        decode_spec(raw) is Ok,
    ensures
        reencodes(raw),
{
    lemma_raw_is_word(raw);
    
}

/// Words with opcode 0x3b re-encode.
proof fn lemma_reencodes_op32(raw: u32)
    requires
        opcode_of(raw) == 0x3b,
        decode_spec(raw) is Ok,
    ensures
        reencodes(raw),
{
    lemma_raw_is_word(raw);
    
}

/// Words with opcode 0x1b re-encode.
proof fn lemma_reencodes_op_imm32(raw: u32)
    requires
        opcode_of(raw) == 0x1b,
        decode_spec(raw) is Ok,
    ensures
        reencodes(raw),
{
    lemma_raw_is_word(raw);
    lemma_i_reencode(raw, 0x1b);
}

/// Words with opcode 0x0f re-encode.
proof fn lemma_reencodes_misc_mem(raw: u32)
    requires
        opcode_of(raw) == 0x0f,
        decode_spec(raw) is Ok,
    ensures
        reencodes(raw),
{
    lemma_raw_is_word(raw);
    
}

/// Words with opcode 0x67 re-encode.
proof fn lemma_reencodes_jalr(raw: u32)
    requires
        opcode_of(raw) == 0x67,
        decode_spec(raw) is Ok,
    ensures
        reencodes(raw),
{
    lemma_raw_is_word(raw);
    lemma_i_reencode(raw, 0x67);
}

/// Words with opcode 0x6f re-encode.
proof fn lemma_reencodes_jal(raw: u32)
    requires
        opcode_of(raw) == 0x6f,
        decode_spec(raw) is Ok,
    ensures
        reencodes(raw),
{
    lemma_raw_is_word(raw);
    lemma_j_reencode(raw);
}

/// Words with opcode 0x73 re-encode.
proof fn lemma_reencodes_system(raw: u32)
    requires
        opcode_of(raw) == 0x73,
        decode_spec(raw) is Ok,
    ensures
        reencodes(raw),
{
    lemma_raw_is_word(raw);
    
}

/// The decoder accepts only encodings: a word that decodes is the encoding
/// of what it decodes to, except for the fields the ISA lets it ignore
/// (the ordering fields of FENCE and FENCE.I, which only fix their opcode
/// and funct3, and the aq/rl bits of the atomics).
pub proof fn law_decoded_words_are_encodings(raw: u32)
    requires
        decode_spec(raw) is Ok,
    ensures
        reencodes(raw),
{
    if opcode_of(raw) == 0x03 {
        lemma_reencodes_load(raw);
    } else if opcode_of(raw) == 0x23 {
        lemma_reencodes_store(raw);
    } else if opcode_of(raw) == 0x13 {
        lemma_reencodes_op_imm(raw);
    } else if opcode_of(raw) == 0x17 {
        lemma_reencodes_auipc(raw);
    } else if opcode_of(raw) == 0x37 {
        lemma_reencodes_lui(raw);
    } else if opcode_of(raw) == 0x63 {
        lemma_reencodes_branch(raw);
    } else if opcode_of(raw) == 0x2f {
        lemma_reencodes_amo(raw);
    } else if opcode_of(raw) == 0x33 {
        lemma_reencodes_op(raw);
    } else if opcode_of(raw) == 0x3b {
        lemma_reencodes_op32(raw);
    } else if opcode_of(raw) == 0x1b {
        lemma_reencodes_op_imm32(raw);
    } else if opcode_of(raw) == 0x0f {
        lemma_reencodes_misc_mem(raw);
    } else if opcode_of(raw) == 0x67 {
        lemma_reencodes_jalr(raw);
    } else if opcode_of(raw) == 0x6f {
        lemma_reencodes_jal(raw);
    } else if opcode_of(raw) == 0x73 {
        lemma_reencodes_system(raw);
    }
}

} // verus!
