//! The arithmetic of the computational instructions: what each of them writes
//! to rd, as a function of its operand values.
//!
//! Registers hold 64 bits with no notion of signedness; `signed64` is the
//! two's-complement reading, `to_reg` turns an integer back into register
//! bits (modulo 2^64), and `to_reg32` does the same for a 32-bit result
//! (its low 32 bits, sign-extended), which is how every W instruction ends.

use vstd::prelude::*;

use crate::inst::{sext, Inst};
use vstd::arithmetic::div_mod::{
    lemma_add_mod_noop, lemma_fundamental_div_mod, lemma_mod_add_multiples_vanish, lemma_mod_bound, lemma_mod_mod,
    lemma_mod_pos_bound, lemma_mod_twice, lemma_mul_mod_noop_general, lemma_small_mod,
};

verus! {

/// An integer as register bits: its residue modulo 2^64.
pub open spec fn to_reg(x: int) -> u64 {
    (x % 0x1_0000_0000_0000_0000) as u64
}

/// The two's-complement reading of a register.
pub open spec fn signed64(v: u64) -> int {
    if v >= 0x8000_0000_0000_0000 {
        v - 0x1_0000_0000_0000_0000
    } else {
        v as int
    }
}

/// The two's-complement reading of the low 32 bits of `x`.
pub open spec fn signed32(x: int) -> int {
    if x % 0x1_0000_0000 >= 0x8000_0000 {
        x % 0x1_0000_0000 - 0x1_0000_0000
    } else {
        x % 0x1_0000_0000
    }
}

/// A 32-bit result as register bits: its low 32 bits, sign-extended to 64.
pub open spec fn to_reg32(x: int) -> u64 {
    to_reg(signed32(x))
}

/// The low 32 bits of a register.
pub open spec fn low32(x: u64) -> u32 {
    (x % 0x1_0000_0000) as u32
}

/// Arithmetic right shift: copies of the sign bit (bit 63) shift in.
pub open spec fn sra64(x: u64, s: u64) -> u64 {
    if x < 0x8000_0000_0000_0000 {
        x >> s
    } else {
        !((!x) >> s)
    }
}

/// Arithmetic right shift of a 32-bit value: bit 31 is the sign.
pub open spec fn sra32(w: u32, s: u32) -> u32 {
    if w < 0x8000_0000 {
        w >> s
    } else {
        !((!w) >> s)
    }
}

pub open spec fn abs(x: int) -> int {
    if x < 0 {
        -x
    } else {
        x
    }
}

/// Division rounding toward zero.
pub open spec fn div_trunc(x: int, y: int) -> int {
    if (x < 0) != (y < 0) {
        -(abs(x) / abs(y))
    } else {
        abs(x) / abs(y)
    }
}

/// The remainder of division rounding toward zero: its sign follows the dividend.
pub open spec fn rem_trunc(x: int, y: int) -> int {
    if x < 0 {
        -(abs(x) % abs(y))
    } else {
        abs(x) % abs(y)
    }
}

/// The instructions whose whole effect is writing rd with a value computed
/// from pc and the rs1/rs2 values.
pub open spec fn is_compute(inst: Inst) -> bool {
    match inst {
        Inst::Addi { .. } | Inst::Slti { .. } | Inst::Sltiu { .. } | Inst::Xori { .. }
        | Inst::Ori { .. } | Inst::Andi { .. } | Inst::Lui { .. } | Inst::Auipc { .. }
        | Inst::Slli { .. } | Inst::Srli { .. } | Inst::Srai { .. } | Inst::Addiw { .. }
        | Inst::Slliw { .. } | Inst::Srliw { .. } | Inst::Sraiw { .. } | Inst::Add { .. }
        | Inst::Sub { .. } | Inst::Sll { .. } | Inst::Slt { .. } | Inst::Sltu { .. }
        | Inst::Xor { .. } | Inst::Srl { .. } | Inst::Sra { .. } | Inst::Or { .. }
        | Inst::And { .. } | Inst::Addw { .. } | Inst::Subw { .. } | Inst::Sllw { .. }
        | Inst::Srlw { .. } | Inst::Sraw { .. } | Inst::Mul { .. } | Inst::Mulh { .. }
        | Inst::Mulhsu { .. } | Inst::Mulhu { .. } | Inst::Mulw { .. } | Inst::Div { .. }
        | Inst::Divu { .. } | Inst::Rem { .. } | Inst::Remu { .. } | Inst::Divw { .. }
        | Inst::Divuw { .. } | Inst::Remw { .. } | Inst::Remuw { .. } => true,
        _ => false,
    }
}

/// What a computational instruction writes to rd, given the value `x` of rs1,
/// the value `y` of rs2 and the instruction's own address `pc`.
pub open spec fn compute_spec(inst: Inst, x: u64, y: u64, pc: u64) -> u64 {
    match inst {
        Inst::Addi { imm, .. } => to_reg(x + imm),
        Inst::Slti { imm, .. } => if signed64(x) < imm {
            1
        } else {
            0
        },
        // The immediate is sign-extended first; only the compare is unsigned.
        Inst::Sltiu { imm, .. } => if x < to_reg(imm as int) {
            1
        } else {
            0
        },
        Inst::Xori { imm, .. } => x ^ to_reg(imm as int),
        Inst::Ori { imm, .. } => x | to_reg(imm as int),
        Inst::Andi { imm, .. } => x & to_reg(imm as int),
        Inst::Lui { imm, .. } => to_reg(imm as int),
        Inst::Auipc { imm, .. } => to_reg(pc + imm),
        Inst::Slli { shamt, .. } => x << shamt,
        Inst::Srli { shamt, .. } => x >> shamt,
        Inst::Srai { shamt, .. } => sra64(x, shamt as u64),
        Inst::Addiw { imm, .. } => to_reg32(x + imm),
        Inst::Slliw { shamt, .. } => to_reg32((low32(x) << shamt) as int),
        Inst::Srliw { shamt, .. } => to_reg32((low32(x) >> shamt) as int),
        Inst::Sraiw { shamt, .. } => to_reg32(sra32(low32(x), shamt) as int),
        Inst::Add { .. } => to_reg(x + y),
        Inst::Sub { .. } => to_reg(x - y),
        // Register shifts use the low 6 bits of rs2 (5 for the W forms).
        Inst::Sll { .. } => x << (y % 64),
        Inst::Slt { .. } => if signed64(x) < signed64(y) {
            1
        } else {
            0
        },
        Inst::Sltu { .. } => if x < y {
            1
        } else {
            0
        },
        Inst::Xor { .. } => x ^ y,
        Inst::Srl { .. } => x >> (y % 64),
        Inst::Sra { .. } => sra64(x, y % 64),
        Inst::Or { .. } => x | y,
        Inst::And { .. } => x & y,
        Inst::Addw { .. } => to_reg32(x + y),
        Inst::Subw { .. } => to_reg32(x - y),
        Inst::Sllw { .. } => to_reg32((low32(x) << ((y % 32) as u32)) as int),
        Inst::Srlw { .. } => to_reg32((low32(x) >> ((y % 32) as u32)) as int),
        Inst::Sraw { .. } => to_reg32(sra32(low32(x), (y % 32) as u32) as int),
        // M extension: the 128-bit product, low or high half.
        Inst::Mul { .. } => to_reg(x * y),
        Inst::Mulh { .. } => to_reg((signed64(x) * signed64(y)) / 0x1_0000_0000_0000_0000),
        Inst::Mulhsu { .. } => to_reg((signed64(x) * y) / 0x1_0000_0000_0000_0000),
        Inst::Mulhu { .. } => to_reg((x * y) / 0x1_0000_0000_0000_0000),
        Inst::Mulw { .. } => to_reg32(low32(x) * low32(y)),
        // Division never traps: a zero divisor gives all ones (quotients)
        // or the dividend (remainders); MIN / -1 wraps to MIN, remainder 0.
        Inst::Div { .. } => if y == 0 {
            u64::MAX
        } else {
            to_reg(div_trunc(signed64(x), signed64(y)))
        },
        Inst::Divu { .. } => if y == 0 {
            u64::MAX
        } else {
            x / y
        },
        Inst::Rem { .. } => if y == 0 {
            x
        } else {
            to_reg(rem_trunc(signed64(x), signed64(y)))
        },
        Inst::Remu { .. } => if y == 0 {
            x
        } else {
            x % y
        },
        Inst::Divw { .. } => if low32(y) == 0 {
            u64::MAX
        } else {
            to_reg32(div_trunc(signed32(x as int), signed32(y as int)))
        },
        Inst::Divuw { .. } => if low32(y) == 0 {
            u64::MAX
        } else {
            to_reg32((low32(x) / low32(y)) as int)
        },
        Inst::Remw { .. } => if low32(y) == 0 {
            to_reg32(x as int)
        } else {
            to_reg32(rem_trunc(signed32(x as int), signed32(y as int)))
        },
        Inst::Remuw { .. } => if low32(y) == 0 {
            to_reg32(x as int)
        } else {
            to_reg32((low32(x) % low32(y)) as int)
        },
        _ => 0,
    }
}

/// Casts between register bits, 32-bit words and immediates, read as
/// arithmetic.
pub proof fn lemma_cast_bits(x: u64, imm: i64, w: u32)
    by (bit_vector)
    ensures
        ((imm as u64) == to_reg(imm as int))
            && ((imm as u32 as i32 as u64) == to_reg32(imm as int))
            && ((w as i32 as u64) == to_reg32(w as int))
            && ((x as u32) == low32(x))
            && (((x as i64) < imm) == (signed64(x) < imm))
            && (((if (x as u32) + (imm as u32) > u32::MAX {
            ((x as u32) + (imm as u32) - 0x1_0000_0000) as u32
        } else {
            ((x as u32) + (imm as u32)) as u32
        }) as i32 as u64) == to_reg32(x + imm)),
{
}

/// Shift amounts come from the low 6 (or 5) bits; arithmetic shifts of the
/// signed reading are `sra64`/`sra32`.
proof fn lemma_shift_bits(x: u64, y: u64, a: u32, sh: u32)
    by (bit_vector)
    ensures
        ((y & 0x3f) == y % 64)
            && ((y & 0x3f) < 64)
            && (((y & 0x1f) as u32) == (y % 32) as u32)
            && (((y & 0x1f) as u32) < 32)
            && ((((x as i64) >> (y & 0x3f)) as u64) == sra64(x, y % 64))
            && (sh < 64 ==> (((x as i64) >> sh) as u64) == sra64(x, sh as u64))
            && (sh < 32 ==> (((a as i32) >> sh) as u32) == sra32(a, sh))
            && ((((a as i32) >> ((y & 0x1f) as u32)) as u32) == sra32(a, (y % 32) as u32)),
{
}

/// Shifting a 128-bit product right by 64 is division by 2^64.
proof fn lemma_wide_shift(p: i128, u: u128, q: i128)
    by (bit_vector)
    ensures
        ((p >> 64u32) == p / 0x1_0000_0000_0000_0000i128)
            && ((u >> 64u32) == u / 0x1_0000_0000_0000_0000u128)
            && ((q as u64) == (q % 0x1_0000_0000_0000_0000) as u64),
{
}

/// Signed comparisons of words and registers are comparisons of their
/// two's-complement readings.
pub proof fn lemma_signed_order(a: u32, b: u32, c: u64, d: u64)
    by (bit_vector)
    ensures
        (((a as i32) <= (b as i32)) == (signed32(a as int) <= signed32(b as int)))
            && (((a as i32) >= (b as i32)) == (signed32(a as int) >= signed32(b as int)))
            && (((c as i64) <= (d as i64)) == (signed64(c) <= signed64(d)))
            && (((c as i64) >= (d as i64)) == (signed64(c) >= signed64(d)))
            && (((c as i64) < (d as i64)) == (signed64(c) < signed64(d)))
            && ((c as i64 as i128) == signed64(c))
            && ((d as i64 as i128) == signed64(d)),
{
}

/// Narrowing, widening and masking of register bits, read as arithmetic.
pub proof fn lemma_bit_facts(x: u64, b: u8, h: u16, w: u32)
    by (bit_vector)
    ensures
        ((x as u8) == x % 256) && ((x as u16) == x % 0x10000) && ((x as u32) == x % 0x1_0000_0000)
            && ((x as u8) == (x % 256) as u8) && ((x >> 8u64) == x / 256) && ((x >> 1u64) == x / 2)
            && (((x as u32) & 1) == (x % 2) as u32) && (((x >> 12u64) & 0xfffff) == (x / 0x1000)
            % 0x10_0000) && ((x & !1u64) % 2 == 0) && ((h & 3) == h % 4) && ((b as i8 as u64)
            == to_reg(sext(b as int, 0x80))) && ((h as i16 as u64) == to_reg(sext(h as int, 0x8000)))
            && ((w as i32 as u64) == to_reg(sext(w as int, 0x8000_0000))),
{
}

// --- Building blocks ------------------------------------------------------------

pub fn wadd64(a: u64, b: u64) -> (r: u64)
    ensures
        r == to_reg(a + b),
{
    let r = a.wrapping_add(b);
    assert(r == to_reg(a + b));
    r
}

fn wsub64(a: u64, b: u64) -> (r: u64)
    ensures
        r == to_reg(a - b),
{
    let r = a.wrapping_sub(b);
    assert(r == to_reg(a - b));
    r
}

/// The register bits of an immediate.
pub fn imm_bits(imm: i64) -> (r: u64)
    ensures
        r == to_reg(imm as int),
{
    let r = imm as u64;
    proof {
        lemma_cast_bits(0, imm, 0);
    }
    r
}

/// Sign-extend a 32-bit result into a register.
pub fn sext32(w: u32) -> (r: u64)
    ensures
        r == to_reg32(w as int),
        r == w as i32 as u64,
{
    let r = w as i32 as u64;
    proof {
        lemma_cast_bits(0, 0, w);
    }
    r
}

/// A 32-bit result, given as a signed integer, as register bits.
fn reg32(v: i64) -> (r: u64)
    ensures
        r == to_reg32(v as int),
{
    let r = v as u32 as i32 as u64;
    proof {
        lemma_cast_bits(0, v, 0);
    }
    r
}

/// The low 32 bits of a register.
pub fn low_word(x: u64) -> (r: u32)
    ensures
        r == low32(x),
        r == x as u32,
{
    let r = x as u32;
    proof {
        lemma_cast_bits(x, 0, 0);
    }
    r
}

/// Signed 64-bit division, rounding toward zero, as register bits.
fn div_signed64(x: u64, y: u64) -> (r: u64)
    requires
        y != 0,
    ensures
        r == to_reg(div_trunc(signed64(x), signed64(y))),
{
    let nx = x >= 0x8000_0000_0000_0000;
    let ny = y >= 0x8000_0000_0000_0000;
    let ax = if nx {
        wsub64(0, x)
    } else {
        x
    };
    let ay = if ny {
        wsub64(0, y)
    } else {
        y
    };
    assert(ax == abs(signed64(x)) && ay == abs(signed64(y)));
    let q = ax / ay;
    if nx != ny {
        wsub64(0, q)
    } else {
        assert(to_reg(q as int) == q);
        q
    }
}

/// Signed 64-bit remainder (sign of the dividend), as register bits.
fn rem_signed64(x: u64, y: u64) -> (r: u64)
    requires
        y != 0,
    ensures
        r == to_reg(rem_trunc(signed64(x), signed64(y))),
{
    let nx = x >= 0x8000_0000_0000_0000;
    let ny = y >= 0x8000_0000_0000_0000;
    let ax = if nx {
        wsub64(0, x)
    } else {
        x
    };
    let ay = if ny {
        wsub64(0, y)
    } else {
        y
    };
    assert(ax == abs(signed64(x)) && ay == abs(signed64(y)));
    let m = ax % ay;
    if nx {
        wsub64(0, m)
    } else {
        assert(to_reg(m as int) == m);
        m
    }
}

/// Signed 32-bit division of the low words, rounding toward zero, sign-extended.
fn div_signed32(x: u64, y: u64) -> (r: u64)
    requires
        low32(y) != 0,
    ensures
        r == to_reg32(div_trunc(signed32(x as int), signed32(y as int))),
{
    let wx = low_word(x) as u64;
    let wy = low_word(y) as u64;
    let nx = wx >= 0x8000_0000;
    let ny = wy >= 0x8000_0000;
    let ax = if nx {
        0x1_0000_0000 - wx
    } else {
        wx
    };
    let ay = if ny {
        0x1_0000_0000 - wy
    } else {
        wy
    };
    assert(ax == (if x % 0x1_0000_0000 >= 0x8000_0000 {
        0x1_0000_0000 - x % 0x1_0000_0000
    } else {
        (x % 0x1_0000_0000) as int
    }) && ay == (if y % 0x1_0000_0000 >= 0x8000_0000 {
        0x1_0000_0000 - y % 0x1_0000_0000
    } else {
        (y % 0x1_0000_0000) as int
    }));
    assert(ax == abs(signed32(x as int)) && ay == abs(signed32(y as int)));
    let q = ax / ay;
    assert(q <= 0x8000_0000);
    if nx != ny {
        reg32(-(q as i64))
    } else {
        reg32(q as i64)
    }
}

/// Signed 32-bit remainder of the low words (sign of the dividend), sign-extended.
fn rem_signed32(x: u64, y: u64) -> (r: u64)
    requires
        low32(y) != 0,
    ensures
        r == to_reg32(rem_trunc(signed32(x as int), signed32(y as int))),
{
    let wx = low_word(x) as u64;
    let wy = low_word(y) as u64;
    let nx = wx >= 0x8000_0000;
    let ny = wy >= 0x8000_0000;
    let ax = if nx {
        0x1_0000_0000 - wx
    } else {
        wx
    };
    let ay = if ny {
        0x1_0000_0000 - wy
    } else {
        wy
    };
    assert(ax == (if x % 0x1_0000_0000 >= 0x8000_0000 {
        0x1_0000_0000 - x % 0x1_0000_0000
    } else {
        (x % 0x1_0000_0000) as int
    }) && ay == (if y % 0x1_0000_0000 >= 0x8000_0000 {
        0x1_0000_0000 - y % 0x1_0000_0000
    } else {
        (y % 0x1_0000_0000) as int
    }));
    assert(ax == abs(signed32(x as int)) && ay == abs(signed32(y as int)));
    let m = ax % ay;
    assert(m < 0x8000_0000);
    if nx {
        reg32(-(m as i64))
    } else {
        reg32(m as i64)
    }
}


/// What a computational instruction writes to rd: `x` is the value of rs1,
/// `y` that of rs2 (unused operands are ignored), `pc` the instruction's address.
#[verifier::rlimit(30)]
pub fn compute(inst: Inst, x: u64, y: u64, pc: u64) -> (r: u64)
    requires
        is_compute(inst),
        inst.wf(),
    ensures
        r == compute_spec(inst, x, y, pc),
{
    match inst {
        // Guest integer overflow is architecturally defined to wrap.
        Inst::Addi { imm, .. } => {
            let c = imm_bits(imm);
            let r = wadd64(x, c);
            assert(r == to_reg(x + imm));
            r
        },
        Inst::Slti { imm, .. } => {
            let b = (x as i64) < imm;
            assert(b == (signed64(x) < imm)) by {
                lemma_cast_bits(x, imm, 0);
            }
            if b {
                1
            } else {
                0
            }
        },
        Inst::Sltiu { imm, .. } => {
            if x < imm_bits(imm) {
                1
            } else {
                0
            }
        },
        Inst::Xori { imm, .. } => x ^ imm_bits(imm),
        Inst::Ori { imm, .. } => x | imm_bits(imm),
        Inst::Andi { imm, .. } => x & imm_bits(imm),
        Inst::Lui { imm, .. } => imm_bits(imm),
        Inst::Auipc { imm, .. } => {
            let c = imm_bits(imm);
            let r = wadd64(pc, c);
            assert(r == to_reg(pc + imm));
            r
        },
        // Shifts: >> is logical on unsigned and arithmetic on signed, so the
        // u64/i64 cast picks the semantics.
        Inst::Slli { shamt, .. } => x << shamt,
        Inst::Srli { shamt, .. } => x >> shamt,
        Inst::Srai { shamt, .. } => {
            let r = ((x as i64) >> shamt) as u64;
            assert(r == sra64(x, shamt as u64)) by {
                lemma_shift_bits(x, 0, 0, shamt);
            }
            r
        },
        // W family: compute in 32 bits, then sign-extend the 32-bit result
        // into the full register.
        Inst::Addiw { imm, .. } => {
            let a = low_word(x);
            let b = imm as u32;
            let w = a.wrapping_add(b);
            let r = sext32(w);
            assert(r == to_reg32(x + imm)) by {
                lemma_cast_bits(x, imm, 0);
            }
            r
        },
        Inst::Slliw { shamt, .. } => sext32(low_word(x) << shamt),
        Inst::Srliw { shamt, .. } => sext32(low_word(x) >> shamt),
        Inst::Sraiw { shamt, .. } => {
            let a = low_word(x);
            let w = ((a as i32) >> shamt) as u32;
            assert(w == sra32(a, shamt)) by {
                lemma_shift_bits(x, 0, a, shamt);
            }
            sext32(w)
        },
        // OP: register-register; shift amounts come from the low 6 bits of
        // rs2 (5 for the W forms), the upper bits ignored.
        Inst::Add { .. } => wadd64(x, y),
        Inst::Sub { .. } => wsub64(x, y),
        Inst::Sll { .. } => {
            let s = y & 0x3f;
            assert(s == y % 64) by {
                lemma_shift_bits(x, y, 0, 0);
            }
            x << s
        },
        Inst::Slt { .. } => {
            let b = (x as i64) < (y as i64);
            assert(b == (signed64(x) < signed64(y))) by {
                lemma_signed_order(0, 0, x, y);
            }
            if b {
                1
            } else {
                0
            }
        },
        Inst::Sltu { .. } => {
            if x < y {
                1
            } else {
                0
            }
        },
        Inst::Xor { .. } => x ^ y,
        Inst::Srl { .. } => {
            let s = y & 0x3f;
            assert(s == y % 64) by {
                lemma_shift_bits(x, y, 0, 0);
            }
            x >> s
        },
        Inst::Sra { .. } => {
            let s = y & 0x3f;
            assert(s < 64 && ((x as i64) >> s) as u64 == sra64(x, y % 64)) by {
                lemma_shift_bits(x, y, 0, 0);
            }
            let r = ((x as i64) >> s) as u64;
            r
        },
        Inst::Or { .. } => x | y,
        Inst::And { .. } => x & y,
        Inst::Addw { .. } => {
            let a = low_word(x);
            let b = low_word(y);
            let w = a.wrapping_add(b);
            let r = sext32(w);
            assert(r == to_reg32(x + y));
            r
        },
        Inst::Subw { .. } => {
            let a = low_word(x);
            let b = low_word(y);
            let w = a.wrapping_sub(b);
            let r = sext32(w);
            assert(r == to_reg32(x - y));
            r
        },
        Inst::Sllw { .. } => {
            let s = (y & 0x1f) as u32;
            assert(s == (y % 32) as u32 && s < 32) by {
                lemma_shift_bits(x, y, 0, 0);
            }
            sext32(low_word(x) << s)
        },
        Inst::Srlw { .. } => {
            let s = (y & 0x1f) as u32;
            assert(s == (y % 32) as u32 && s < 32) by {
                lemma_shift_bits(x, y, 0, 0);
            }
            sext32(low_word(x) >> s)
        },
        Inst::Sraw { .. } => {
            let a = low_word(x);
            let s = (y & 0x1f) as u32;
            assert(s < 32 && ((a as i32) >> s) as u32 == sra32(a, (y % 32) as u32)) by {
                lemma_shift_bits(x, y, a, 0);
            }
            let w = ((a as i32) >> s) as u32;
            sext32(w)
        },
        // M multiplies: the full 64x64 product is 128 bits, so compute in
        // i128/u128 and pick a half.
        Inst::Mul { .. } => x.wrapping_mul(y),
        Inst::Mulh { .. } => {
            let sx = x as i64 as i128;
            let sy = y as i64 as i128;
            assert(sx == signed64(x) && sy == signed64(y)) by {
                lemma_signed_order(0, 0, x, y);
            }
            assert(-0x4000_0000_0000_0000_0000_0000_0000_0000 <= sx * sy
                <= 0x4000_0000_0000_0000_0000_0000_0000_0000) by (nonlinear_arith)
                requires
                    -0x8000_0000_0000_0000 <= sx < 0x8000_0000_0000_0000,
                    -0x8000_0000_0000_0000 <= sy < 0x8000_0000_0000_0000,
            ;
            let product = sx * sy;
            let q = product >> 64u32;
            let r = q as u64;
            assert(q == product / 0x1_0000_0000_0000_0000i128 && r == (q % 0x1_0000_0000_0000_0000) as u64) by {
                lemma_wide_shift(product, 0, q);
            }
            r
        },
        Inst::Mulhsu { .. } => {
            let sx = x as i64 as i128;
            let uy = y as i128;
            assert(sx == signed64(x)) by {
                lemma_signed_order(0, 0, x, y);
            }
            assert(-0x8000_0000_0000_0000_0000_0000_0000_0000 < sx * uy
                < 0x8000_0000_0000_0000_0000_0000_0000_0000) by (nonlinear_arith)
                requires
                    -0x8000_0000_0000_0000 <= sx < 0x8000_0000_0000_0000,
                    0 <= uy < 0x1_0000_0000_0000_0000,
            ;
            let product = sx * uy;
            let q = product >> 64u32;
            let r = q as u64;
            assert(q == product / 0x1_0000_0000_0000_0000i128 && r == (q % 0x1_0000_0000_0000_0000) as u64) by {
                lemma_wide_shift(product, 0, q);
            }
            r
        },
        Inst::Mulhu { .. } => {
            let ux = x as u128;
            let uy = y as u128;
            assert(ux * uy < 0x1_0000_0000_0000_0000_0000_0000_0000_0000) by (nonlinear_arith)
                requires
                    ux < 0x1_0000_0000_0000_0000,
                    uy < 0x1_0000_0000_0000_0000,
            ;
            let product = ux * uy;
            let q = product >> 64u32;
            assert(q == product / 0x1_0000_0000_0000_0000u128) by {
                lemma_wide_shift(0, product, 0);
            }
            let r = q as u64;
            r
        },
        Inst::Mulw { .. } => {
            let a = low_word(x);
            let b = low_word(y);
            let w = a.wrapping_mul(b);
            sext32(w)
        },
        // M divides: no traps; the error cases have defined values.
        Inst::Div { .. } => {
            if y == 0 {
                u64::MAX
            } else {
                div_signed64(x, y)
            }
        },
        Inst::Divu { .. } => {
            if y == 0 {
                u64::MAX
            } else {
                x / y
            }
        },
        Inst::Rem { .. } => {
            if y == 0 {
                x
            } else {
                rem_signed64(x, y)
            }
        },
        Inst::Remu { .. } => {
            if y == 0 {
                x
            } else {
                x % y
            }
        },
        // The W variants divide the low 32 bits and sign-extend the 32-bit
        // result, the unsigned ones included.
        Inst::Divw { .. } => {
            if low_word(y) == 0 {
                u64::MAX
            } else {
                div_signed32(x, y)
            }
        },
        Inst::Divuw { .. } => {
            let (a, b) = (low_word(x), low_word(y));
            if b == 0 {
                u64::MAX
            } else {
                sext32(a / b)
            }
        },
        Inst::Remw { .. } => {
            if low_word(y) == 0 {
                sext32(low_word(x))
            } else {
                rem_signed32(x, y)
            }
        },
        Inst::Remuw { .. } => {
            let (a, b) = (low_word(x), low_word(y));
            if b == 0 {
                sext32(a)
            } else {
                sext32(a % b)
            }
        },
        _ => 0,
    }
}


// --- Atomic memory operations ----------------------------------------------------

/// The combining function of an AMO: memory receives op(old, rs2).
#[derive(Debug, Clone, Copy, PartialEq, Eq, Structural)]
pub enum AmoOp {
    Add,
    Swap,
    Xor,
    Or,
    And,
    Min,
    Max,
    Minu,
    Maxu,
}

/// The 32-bit AMO result; min/max compare as signed or unsigned words.
pub open spec fn amo_w_spec(op: AmoOp, a: u32, b: u32) -> u32 {
    match op {
        AmoOp::Add => ((a + b) % 0x1_0000_0000) as u32,
        AmoOp::Swap => b,
        AmoOp::Xor => a ^ b,
        AmoOp::Or => a | b,
        AmoOp::And => a & b,
        AmoOp::Min => if signed32(a as int) <= signed32(b as int) {
            a
        } else {
            b
        },
        AmoOp::Max => if signed32(a as int) >= signed32(b as int) {
            a
        } else {
            b
        },
        AmoOp::Minu => if a <= b {
            a
        } else {
            b
        },
        AmoOp::Maxu => if a >= b {
            a
        } else {
            b
        },
    }
}

/// The 64-bit AMO result.
pub open spec fn amo_d_spec(op: AmoOp, a: u64, b: u64) -> u64 {
    match op {
        AmoOp::Add => to_reg(a + b),
        AmoOp::Swap => b,
        AmoOp::Xor => a ^ b,
        AmoOp::Or => a | b,
        AmoOp::And => a & b,
        AmoOp::Min => if signed64(a) <= signed64(b) {
            a
        } else {
            b
        },
        AmoOp::Max => if signed64(a) >= signed64(b) {
            a
        } else {
            b
        },
        AmoOp::Minu => if a <= b {
            a
        } else {
            b
        },
        AmoOp::Maxu => if a >= b {
            a
        } else {
            b
        },
    }
}

pub fn combine_w(op: AmoOp, a: u32, b: u32) -> (r: u32)
    ensures
        r == amo_w_spec(op, a, b),
{
    match op {
        AmoOp::Add => a.wrapping_add(b),
        AmoOp::Swap => b,
        AmoOp::Xor => a ^ b,
        AmoOp::Or => a | b,
        AmoOp::And => a & b,
        AmoOp::Min => {
            let le = (a as i32) <= (b as i32);
            proof {
                lemma_signed_order(a, b, 0, 0);
            }
            if le {
                a
            } else {
                b
            }
        },
        AmoOp::Max => {
            let ge = (a as i32) >= (b as i32);
            proof {
                lemma_signed_order(a, b, 0, 0);
            }
            if ge {
                a
            } else {
                b
            }
        },
        AmoOp::Minu => if a <= b {
            a
        } else {
            b
        },
        AmoOp::Maxu => if a >= b {
            a
        } else {
            b
        },
    }
}

pub fn combine_d(op: AmoOp, a: u64, b: u64) -> (r: u64)
    ensures
        r == amo_d_spec(op, a, b),
{
    match op {
        AmoOp::Add => wadd64(a, b),
        AmoOp::Swap => b,
        AmoOp::Xor => a ^ b,
        AmoOp::Or => a | b,
        AmoOp::And => a & b,
        AmoOp::Min => {
            let le = (a as i64) <= (b as i64);
            proof {
                lemma_signed_order(0, 0, a, b);
            }
            if le {
                a
            } else {
                b
            }
        },
        AmoOp::Max => {
            let ge = (a as i64) >= (b as i64);
            proof {
                lemma_signed_order(0, 0, a, b);
            }
            if ge {
                a
            } else {
                b
            }
        },
        AmoOp::Minu => if a <= b {
            a
        } else {
            b
        },
        AmoOp::Maxu => if a >= b {
            a
        } else {
            b
        },
    }
}

// --- Laws of the M extension and the W family ------------------------------------

/// Register arithmetic is arithmetic modulo 2^64: operands that agree modulo
/// 2^64 give the same register bits for a * b + c.
proof fn lemma_reg_congruent(a: int, b: int, c: int, a2: int, b2: int, c2: int)
    requires
        a % 0x1_0000_0000_0000_0000 == a2 % 0x1_0000_0000_0000_0000,
        b % 0x1_0000_0000_0000_0000 == b2 % 0x1_0000_0000_0000_0000,
        c % 0x1_0000_0000_0000_0000 == c2 % 0x1_0000_0000_0000_0000,
    ensures
        to_reg(a * b + c) == to_reg(a2 * b2 + c2),
{
    let m: int = 0x1_0000_0000_0000_0000;
    lemma_mul_mod_noop_general(a, b, m);
    lemma_mul_mod_noop_general(a2, b2, m);
    lemma_add_mod_noop(a * b, c, m);
    lemma_add_mod_noop(a2 * b2, c2, m);
}

/// The two's-complement reading of a register is congruent to its bits.
proof fn lemma_signed64_congruent(x: u64)
    ensures
        signed64(x) % 0x1_0000_0000_0000_0000 == x as int,
        to_reg(signed64(x)) == x,
{
}

/// Truncating division: quotient times divisor plus remainder gives the
/// dividend back; the remainder is smaller than the divisor in magnitude and
/// carries the dividend's sign.
proof fn lemma_div_rem_trunc(x: int, y: int)
    requires
        y != 0,
    ensures
        div_trunc(x, y) * y + rem_trunc(x, y) == x,
        abs(rem_trunc(x, y)) < abs(y),
        rem_trunc(x, y) == 0 || ((rem_trunc(x, y) < 0) == (x < 0)),
{
    let (a, b) = (abs(x), abs(y));
    lemma_fundamental_div_mod(a, b);
    lemma_mod_pos_bound(a, b);
    let (q, r) = (a / b, a % b);
    assert(b * q + r == a);
    if x < 0 && y < 0 {
        assert(q * y == -(b * q)) by (nonlinear_arith)
            requires
                y == -b,
        ;
    } else if x < 0 {
        assert(-q * y == -(b * q)) by (nonlinear_arith)
            requires
                y == b,
        ;
    } else if y < 0 {
        assert(-q * y == b * q) by (nonlinear_arith)
            requires
                y == -b,
        ;
    } else {
        assert(q * y == b * q) by (nonlinear_arith)
            requires
                y == b,
        ;
    }
}

/// The rd values of the four 64-bit divide instructions on rs1 = `x`,
/// rs2 = `y`: (DIV, REM, DIVU, REMU).
pub open spec fn divides64(x: u64, y: u64) -> (u64, u64, u64, u64) {
    (
        compute_spec(Inst::Div { rd: 0, rs1: 0, rs2: 0 }, x, y, 0),
        compute_spec(Inst::Rem { rd: 0, rs1: 0, rs2: 0 }, x, y, 0),
        compute_spec(Inst::Divu { rd: 0, rs1: 0, rs2: 0 }, x, y, 0),
        compute_spec(Inst::Remu { rd: 0, rs1: 0, rs2: 0 }, x, y, 0),
    )
}

/// Division never traps and always satisfies quotient * divisor + remainder
/// == dividend in register arithmetic, signed and unsigned alike: including
/// a zero divisor (quotient all ones, remainder the dividend) and the signed
/// overflow MIN / -1 (quotient MIN, remainder 0). The signed remainder takes
/// the dividend's sign; the unsigned one is below the divisor.
pub proof fn law_division_identity(x: u64, y: u64)
    ensures
        ({
            let (q, r, qu, ru) = divides64(x, y);
            &&& to_reg(q * y + r) == x
            &&& to_reg(qu * y + ru) == x
            &&& y != 0 ==> ru < y
            &&& y != 0 ==> abs(signed64(r)) < abs(signed64(y))
            &&& (r == 0 || (signed64(r) < 0) == (signed64(x) < 0))
        }),
{
    let (q, r, qu, ru) = divides64(x, y);
    let m: int = 0x1_0000_0000_0000_0000;
    if y == 0 {
        assert(q * y + r == x);
        assert(qu * y + ru == x);
    } else {
        let (sx, sy) = (signed64(x), signed64(y));
        lemma_signed64_congruent(x);
        lemma_signed64_congruent(y);
        lemma_div_rem_trunc(sx, sy);
        let (d, e) = (div_trunc(sx, sy), rem_trunc(sx, sy));
        lemma_mod_twice(d, m);
        lemma_mod_twice(e, m);
        lemma_reg_congruent(q as int, y as int, r as int, d, sy, e);
        assert(to_reg(d * sy + e) == x);
        // The remainder fits in 64 signed bits, so its register bits read back.
        assert(-0x8000_0000_0000_0000 <= e < 0x8000_0000_0000_0000);
        assert(signed64(r) == e);
        lemma_fundamental_div_mod(x as int, y as int);
        lemma_mod_pos_bound(x as int, y as int);
        assert(qu * y + ru == x) by (nonlinear_arith)
            requires
                qu == x / y,
                ru == x % y,
                x == y * (x / y) + x % y,
        ;
    }
}

/// The 128-bit product, split: MUL is its low half whatever the operands'
/// signedness, and MULH, MULHU and MULHSU its high half when the operands
/// are read as signed x signed, unsigned x unsigned and signed x unsigned.
pub proof fn law_mul_split(x: u64, y: u64)
    ensures
        ({
            let lo = compute_spec(Inst::Mul { rd: 0, rs1: 0, rs2: 0 }, x, y, 0);
            let hs = compute_spec(Inst::Mulh { rd: 0, rs1: 0, rs2: 0 }, x, y, 0);
            let hu = compute_spec(Inst::Mulhu { rd: 0, rs1: 0, rs2: 0 }, x, y, 0);
            let hsu = compute_spec(Inst::Mulhsu { rd: 0, rs1: 0, rs2: 0 }, x, y, 0);
            &&& signed64(x) * signed64(y) == signed64(hs) * 0x1_0000_0000_0000_0000 + lo
            &&& x * y == hu * 0x1_0000_0000_0000_0000 + lo
            &&& signed64(x) * y == signed64(hsu) * 0x1_0000_0000_0000_0000 + lo
            &&& lo == to_reg(signed64(x) * signed64(y))
        }),
{
    let m: int = 0x1_0000_0000_0000_0000;
    let (sx, sy) = (signed64(x), signed64(y));
    lemma_signed64_congruent(x);
    lemma_signed64_congruent(y);
    lemma_reg_congruent(sx, sy, 0, x as int, y as int, 0);
    lemma_reg_congruent(sx, y as int, 0, x as int, y as int, 0);
    let lo = to_reg(x * y);
    // Each product splits into its quotient and remainder by 2^64, and the
    // quotients fit in 64 bits (signed where the product can be negative).
    lemma_fundamental_div_mod(sx * sy, m);
    lemma_fundamental_div_mod(x * y, m);
    lemma_fundamental_div_mod(sx * y, m);
    assert(-0x4000_0000_0000_0000_0000_0000_0000_0000 <= sx * sy
        <= 0x4000_0000_0000_0000_0000_0000_0000_0000) by (nonlinear_arith)
        requires
            -0x8000_0000_0000_0000 <= sx < 0x8000_0000_0000_0000,
            -0x8000_0000_0000_0000 <= sy < 0x8000_0000_0000_0000,
    ;
    assert(0 <= x * y < 0x1_0000_0000_0000_0000 * 0x1_0000_0000_0000_0000) by (nonlinear_arith)
        requires
            0 <= x < 0x1_0000_0000_0000_0000,
            0 <= y < 0x1_0000_0000_0000_0000,
    ;
    assert(-0x8000_0000_0000_0000 * 0x1_0000_0000_0000_0000 <= sx * y
        < 0x8000_0000_0000_0000 * 0x1_0000_0000_0000_0000) by (nonlinear_arith)
        requires
            -0x8000_0000_0000_0000 <= sx < 0x8000_0000_0000_0000,
            0 <= y < 0x1_0000_0000_0000_0000,
    ;
    lemma_mod_bound(sx * sy, m);
    lemma_mod_pos_bound(x * y, m);
    lemma_mod_bound(sx * y, m);
    assert(-0x4000_0000_0000_0000 <= (sx * sy) / m <= 0x4000_0000_0000_0000);
    assert(0 <= (x * y) / m < m);
    assert(-0x8000_0000_0000_0000 <= (sx * y) / m < 0x8000_0000_0000_0000);
}

/// Whether `inst` is one of the W (32-bit) computational instructions.
pub open spec fn is_word_op(inst: Inst) -> bool {
    match inst {
        Inst::Addiw { .. } | Inst::Slliw { .. } | Inst::Srliw { .. } | Inst::Sraiw { .. }
        | Inst::Addw { .. } | Inst::Subw { .. } | Inst::Sllw { .. } | Inst::Srlw { .. }
        | Inst::Sraw { .. } | Inst::Mulw { .. } | Inst::Divw { .. } | Inst::Divuw { .. }
        | Inst::Remw { .. } | Inst::Remuw { .. } => true,
        _ => false,
    }
}

/// A 32-bit result as register bits reads back as the same 32-bit result.
pub proof fn lemma_to_reg32_idempotent(z: int)
    ensures
        to_reg32(to_reg32(z) as int) == to_reg32(z),
{
    let s = signed32(z);
    let m: int = 0x1_0000_0000_0000_0000;
    let k: int = 0x1_0000_0000;
    lemma_mod_bound(z, k);
    assert(-0x8000_0000 <= s < 0x8000_0000);
    assert(s % k == z % k) by {
        lemma_mod_bound(z, k);
        if z % k >= 0x8000_0000 {
            lemma_mod_add_multiples_vanish(s, k);
        } else {
            lemma_small_mod((z % k) as nat, k as nat);
        }
    }
    let t = to_reg32(z);
    assert(t as int == s % m);
    lemma_mod_mod(s, k, 0x1_0000_0000);
    assert((t as int) % k == s % k);
}

/// Every W instruction leaves a sign-extended 32-bit value in rd: the upper
/// 32 bits copy bit 31, also for the unsigned W divides and for a zero
/// divisor.
pub proof fn law_word_results_sign_extended(inst: Inst, x: u64, y: u64, pc: u64)
    requires
        is_word_op(inst),
    ensures
        to_reg32(compute_spec(inst, x, y, pc) as int) == compute_spec(inst, x, y, pc),
{
    let r = compute_spec(inst, x, y, pc);
    if r == u64::MAX {
        assert(to_reg32(r as int) == r);
    } else {
        match inst {
            Inst::Addiw { imm, .. } => lemma_to_reg32_idempotent(x + imm),
            Inst::Slliw { shamt, .. } => lemma_to_reg32_idempotent((low32(x) << shamt) as int),
            Inst::Srliw { shamt, .. } => lemma_to_reg32_idempotent((low32(x) >> shamt) as int),
            Inst::Sraiw { shamt, .. } => lemma_to_reg32_idempotent(
                sra32(low32(x), shamt) as int,
            ),
            Inst::Addw { .. } => lemma_to_reg32_idempotent(x + y),
            Inst::Subw { .. } => lemma_to_reg32_idempotent(x - y),
            Inst::Sllw { .. } => lemma_to_reg32_idempotent(
                (low32(x) << ((y % 32) as u32)) as int,
            ),
            Inst::Srlw { .. } => lemma_to_reg32_idempotent(
                (low32(x) >> ((y % 32) as u32)) as int,
            ),
            Inst::Sraw { .. } => lemma_to_reg32_idempotent(
                sra32(low32(x), (y % 32) as u32) as int,
            ),
            Inst::Mulw { .. } => lemma_to_reg32_idempotent(low32(x) * low32(y)),
            Inst::Divw { .. } => lemma_to_reg32_idempotent(
                div_trunc(signed32(x as int), signed32(y as int)),
            ),
            Inst::Divuw { .. } => lemma_to_reg32_idempotent((low32(x) / low32(y)) as int),
            Inst::Remw { .. } => {
                lemma_to_reg32_idempotent(x as int);
                lemma_to_reg32_idempotent(rem_trunc(signed32(x as int), signed32(y as int)));
            },
            Inst::Remuw { .. } => {
                lemma_to_reg32_idempotent(x as int);
                lemma_to_reg32_idempotent((low32(x) % low32(y)) as int);
            },
            _ => {},
        }
    }
}

} // verus!
