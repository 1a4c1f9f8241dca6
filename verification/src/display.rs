//! Human-readable text for the emulator's values: numbers in decimal and
//! hexadecimal (as `{}`, `{:#x}` and `{:#010x}` print them), instructions in
//! objdump-like assembly syntax, exceptions and run outcomes.

use vstd::prelude::*;

use crate::alu::{lemma_bit_facts, lemma_cast_bits, to_reg};
use crate::difftest::{Divergence, Event, EventView};
use crate::exception::Exception;
use crate::harness::Outcome as TestOutcome;
use crate::inst::{decode, decode_spec, Inst};
use crate::linux::Outcome as LinuxOutcome;
use crate::text::{
    all_digits, digit_value, digits_value, is_word, lemma_digit_not_space, parse_unsigned, push_char,
};
use vstd::arithmetic::div_mod::{lemma_div_decreases, lemma_small_mod};
use vstd::string::StrSliceExecFns;
use vstd::string::StringExecFns;

verus! {

/// The character of digit `d` (below 16): 0-9, then a-f.
pub open spec fn digit_char(d: nat) -> char {
    if d < 10 {
        (0x30 + d) as char
    } else {
        (0x57 + d) as char
    }
}

/// `n` in base `radix`, most significant digit first, no leading zeros
/// ("0" for zero).
pub open spec fn digits(n: nat, radix: nat) -> Seq<char>
    decreases n,
{
    if n < radix || radix < 2 {
        seq![digit_char(n)]
    } else {
        proof {
            lemma_div_decreases(n as int, radix as int);
        }
        digits(n / radix, radix).push(digit_char(n % radix))
    }
}

/// A digit prints as a character that reads back as that digit.
proof fn lemma_digit_char_value(d: nat, radix: nat)
    requires
        d < radix <= 16,
    ensures
        digit_value(digit_char(d), radix) == Some(d),
        digit_char(d) != '+',
        digit_char(d) != ')',
{
}

/// Printed digits read back: `digits(n, radix)` is a nonempty string of
/// digits in `radix` whose value is `n`.
proof fn lemma_digits_value(n: nat, radix: nat)
    requires
        2 <= radix <= 16,
    ensures
        digits(n, radix).len() > 0,
        all_digits(digits(n, radix), radix),
        digits_value(digits(n, radix), radix) == n,
        digits(n, radix)[0] != '+',
        digits(n, radix).last() != ')',
    decreases n,
{
    if n < radix {
        lemma_digit_char_value(n, radix);
        assert(seq![digit_char(n)].drop_last() =~= Seq::<char>::empty());
        assert(digits_value(Seq::<char>::empty(), radix) == 0);
        assert(0 * radix == 0);
    } else {
        lemma_div_decreases(n as int, radix as int);
        lemma_digits_value(n / radix, radix);
        let p = digits(n / radix, radix);
        lemma_digit_char_value(n % radix, radix);
        assert(p.push(digit_char(n % radix)).drop_last() =~= p);
        assert forall|i: int| 0 <= i < p.len() + 1 implies #[trigger] digit_value(
            p.push(digit_char(n % radix))[i],
            radix,
        ) is Some by {
            if i < p.len() {
                assert(p.push(digit_char(n % radix))[i] == p[i]);
            }
        }
        assert((n / radix) * radix + n % radix == n) by (nonlinear_arith)
            requires
                radix > 0,
        ;
        let q = p.push(digit_char(n % radix));
        assert(digits(n, radix) == q);
        assert(digits_value(q, radix) == digits_value(p, radix) * radix + digit_value(
            digit_char(n % radix),
            radix,
        ).unwrap_or(0));
        assert(digits_value(p, radix) * radix == (n / radix) * radix);
    }
}

/// The digits of a number are a word (no whitespace), not ending in ')'.
pub proof fn lemma_digits_are_a_word(n: nat, radix: nat)
    requires
        2 <= radix <= 16,
    ensures
        is_word(digits(n, radix)),
        digits(n, radix).last() != ')',
        digits(n, radix)[0] != '(',
{
    lemma_digits_value(n, radix);
    let d = digits(n, radix);
    assert forall|i: int| 0 <= i < d.len() implies !crate::text::is_space(#[trigger] d[i]) by {
        lemma_digit_not_space(d[i], radix);
    }
    lemma_digit_not_space(d[0], radix);
    assert(digit_value(d[0], radix) is Some);
}

/// Numbers print and parse back: the digits of `n` in any radix from 2 to
/// 16 read as `n` (given it is within the reader's bound).
pub proof fn law_printed_numbers_parse_back(n: nat, radix: nat, max: nat)
    requires
        2 <= radix <= 16,
        n <= max,
    ensures
        parse_unsigned(digits(n, radix), radix, max) == Some(n),
        digits(n, radix).last() != ')',
{
    lemma_digits_value(n, radix);
}

/// `{}` of an unsigned number.
pub open spec fn dec(n: nat) -> Seq<char> {
    digits(n, 10)
}

/// `{}` of a signed number.
pub open spec fn dec_signed(x: int) -> Seq<char> {
    if x < 0 {
        seq!['-'] + dec((-x) as nat)
    } else {
        dec(x as nat)
    }
}

/// `{:#x}`: "0x" and the lowercase hex digits.
pub open spec fn hex_prefixed(n: nat) -> Seq<char> {
    seq!['0', 'x'] + digits(n, 16)
}

/// `{:#010x}`: "0x" and at least 8 hex digits, zero-padded.
pub open spec fn hex_padded8(n: nat) -> Seq<char> {
    let d = digits(n, 16);
    seq!['0', 'x'] + Seq::new(if d.len() < 8 {
        (8 - d.len()) as nat
    } else {
        0
    }, |i: int| '0') + d
}

fn digit_of(d: u64) -> (c: char)
    requires
        d < 16,
    ensures
        c == digit_char(d as nat),
{
    let b = d as u8;
    if b < 10 {
        (0x30u8 + b) as char
    } else {
        (0x57u8 + b) as char
    }
}

/// The number of digits of `n` in `radix`.
proof fn lemma_digits_len(n: nat, radix: nat)
    requires
        radix >= 2,
    ensures
        digits(n, radix).len() >= 1,
        n < radix ==> digits(n, radix).len() == 1,
    decreases n,
{
    if n >= radix {
        lemma_div_decreases(n as int, radix as int);
        lemma_digits_len(n / radix, radix);
    }
}

/// Append `n` in base `radix` (2 to 16).
fn push_digits(s: &mut String, n: u64, radix: u64)
    requires
        2 <= radix <= 16,
    ensures
        final(s)@ == old(s)@ + digits(n as nat, radix as nat),
    decreases n,
{
    if n >= radix {
        proof {
            lemma_div_decreases(n as int, radix as int);
        }
        push_digits(s, n / radix, radix);
    }
    push_char(s, digit_of(n % radix));
    proof {
        if n >= radix {
            assert(old(s)@ + digits((n / radix) as nat, radix as nat) + seq![digit_char((n % radix) as nat)]
                =~= old(s)@ + digits(n as nat, radix as nat));
        } else {
            lemma_small_mod(n as nat, radix as nat);
            assert(n % radix == n);
            assert(old(s)@.push(digit_char(n as nat)) =~= old(s)@ + digits(n as nat, radix as nat));
        }
    }
}

/// Append `{}` of an unsigned number.
pub fn push_dec(s: &mut String, n: u64)
    ensures
        final(s)@ == old(s)@ + dec(n as nat),
{
    push_digits(s, n, 10);
}

/// Append `{}` of a signed number.
pub fn push_dec_signed(s: &mut String, x: i64)
    ensures
        final(s)@ == old(s)@ + dec_signed(x as int),
{
    if x < 0 {
        push_char(s, '-');
        let m: u64 = if x == i64::MIN {
            0x8000_0000_0000_0000
        } else {
            (-x) as u64
        };
        push_dec(s, m);
        assert(old(s)@.push('-') + dec(m as nat) =~= old(s)@ + dec_signed(x as int));
    } else {
        push_dec(s, x as u64);
    }
}

/// Append `{:#x}`.
pub fn push_hex(s: &mut String, n: u64)
    ensures
        final(s)@ == old(s)@ + hex_prefixed(n as nat),
{
    push_char(s, '0');
    push_char(s, 'x');
    push_digits(s, n, 16);
    assert(old(s)@.push('0').push('x') + digits(n as nat, 16) =~= old(s)@ + hex_prefixed(n as nat));
}

/// Append `{:#010x}` of a 32-bit value.
pub fn push_hex_padded8(s: &mut String, n: u32)
    ensures
        final(s)@ == old(s)@ + hex_padded8(n as nat),
{
    let mut d = String::new();
    push_digits(&mut d, n as u64, 16);
    assert(d@ =~= digits(n as nat, 16));
    let width = d.as_str().unicode_len();
    push_char(s, '0');
    push_char(s, 'x');
    let ghost s1 = s@;
    let mut pad: usize = width;
    while pad < 8
        invariant
            width <= pad,
            pad <= 8 || pad == width,
            s@ == s1 + Seq::new((pad - width) as nat, |i: int| '0'),
        decreases 8 - pad,
    {
        push_char(s, '0');
        assert(s1 + Seq::new((pad + 1 - width) as nat, |i: int| '0') =~= s1 + Seq::new(
            (pad - width) as nat,
            |i: int| '0',
        ).push('0'));
        pad = pad + 1;
    }
    let ghost zeros = s@;
    s.append(d.as_str());
    assert(s1 == old(s)@ + seq!['0', 'x']);
    if width < 8 {
        assert(zeros == s1 + Seq::new((8 - width) as nat, |i: int| '0'));
    } else {
        assert(zeros =~= s1 + Seq::new(0, |i: int| '0'));
    }
    assert(old(s)@ + hex_padded8(n as nat) =~= zeros + d@);
}

// --- Instructions in assembly syntax ------------------------------------------------

/// `x<r>`: a register operand.
pub open spec fn reg_text(r: usize) -> Seq<char> {
    seq!['x'] + dec(r as nat)
}

/// The ", " between operands.
pub open spec fn sep() -> Seq<char> {
    seq![',', ' ']
}

/// `op xRD, xRS1, IMM`
pub open spec fn fmt_rri(m: Seq<char>, rd: usize, rs1: usize, imm: i64) -> Seq<char> {
    m + seq![' '] + reg_text(rd) + sep() + reg_text(rs1) + sep() + dec_signed(imm as int)
}

/// The raw upper-20-bit field of a LUI/AUIPC immediate, as objdump prints
/// it (not the shifted value).
pub open spec fn upper_field(imm: i64) -> nat {
    ((to_reg(imm as int) / 0x1000) % 0x10_0000) as nat
}

/// `op xRD, 0xFIELD`
pub open spec fn fmt_upper(m: Seq<char>, rd: usize, imm: i64) -> Seq<char> {
    m + seq![' '] + reg_text(rd) + sep() + hex_prefixed(upper_field(imm))
}

/// `op xRD, OFFSET`
pub open spec fn fmt_jump(m: Seq<char>, rd: usize, offset: i64) -> Seq<char> {
    m + seq![' '] + reg_text(rd) + sep() + dec_signed(offset as int)
}

/// `op xR, OFFSET(xBASE)`
pub open spec fn fmt_mem(m: Seq<char>, r: usize, offset: i64, base: usize) -> Seq<char> {
    m + seq![' '] + reg_text(r) + sep() + dec_signed(offset as int) + seq!['('] + reg_text(base)
        + seq![')']
}

/// `op xRD, xRS1, 0xSHAMT` (objdump prints shift amounts in hex)
pub open spec fn fmt_shift(m: Seq<char>, rd: usize, rs1: usize, shamt: u32) -> Seq<char> {
    m + seq![' '] + reg_text(rd) + sep() + reg_text(rs1) + sep() + hex_prefixed(shamt as nat)
}

/// `op xA, xB, xC`
pub open spec fn fmt_rrr(m: Seq<char>, a: usize, b: usize, c: usize) -> Seq<char> {
    m + seq![' '] + reg_text(a) + sep() + reg_text(b) + sep() + reg_text(c)
}

/// `op xRD, xRS2, (xRS1)`
pub open spec fn fmt_amo(m: Seq<char>, rd: usize, rs2: usize, rs1: usize) -> Seq<char> {
    m + seq![' '] + reg_text(rd) + sep() + reg_text(rs2) + sep() + seq!['('] + reg_text(rs1) + seq![
        ')',
    ]
}

/// `op xRD, (xRS1)`
pub open spec fn fmt_lr(m: Seq<char>, rd: usize, rs1: usize) -> Seq<char> {
    m + seq![' '] + reg_text(rd) + sep() + seq!['('] + reg_text(rs1) + seq![')']
}

/// `op xRS1, xRS2, OFFSET`
pub open spec fn fmt_branch(m: Seq<char>, rs1: usize, rs2: usize, offset: i64) -> Seq<char> {
    m + seq![' '] + reg_text(rs1) + sep() + reg_text(rs2) + sep() + dec_signed(offset as int)
}

/// `op xRD, 0xCSR, xRS1` (CSRs are printed by number)
pub open spec fn fmt_csr(m: Seq<char>, rd: usize, csr: usize, rs1: usize) -> Seq<char> {
    m + seq![' '] + reg_text(rd) + sep() + hex_prefixed(csr as nat) + sep() + reg_text(rs1)
}

/// `op xRD, 0xCSR, UIMM`
pub open spec fn fmt_csri(m: Seq<char>, rd: usize, csr: usize, uimm: u64) -> Seq<char> {
    m + seq![' '] + reg_text(rd) + sep() + hex_prefixed(csr as nat) + sep() + dec(uimm as nat)
}

/// An instruction in objdump-like assembly syntax.
pub open spec fn asm_text(inst: Inst) -> Seq<char> {
    match inst {
            Inst::Addi { rd, rs1, imm } => fmt_rri("addi"@, rd, rs1, imm),
            Inst::Slti { rd, rs1, imm } => fmt_rri("slti"@, rd, rs1, imm),
            Inst::Sltiu { rd, rs1, imm } => fmt_rri("sltiu"@, rd, rs1, imm),
            Inst::Xori { rd, rs1, imm } => fmt_rri("xori"@, rd, rs1, imm),
            Inst::Ori { rd, rs1, imm } => fmt_rri("ori"@, rd, rs1, imm),
            Inst::Andi { rd, rs1, imm } => fmt_rri("andi"@, rd, rs1, imm),
            Inst::Lui { rd, imm } => fmt_upper("lui"@, rd, imm),
            Inst::Auipc { rd, imm } => fmt_upper("auipc"@, rd, imm),
            Inst::Jal { rd, offset } => fmt_jump("jal"@, rd, offset),
            Inst::Jalr { rd, rs1, offset } => fmt_mem("jalr"@, rd, offset, rs1),
            Inst::Slli { rd, rs1, shamt } => fmt_shift("slli"@, rd, rs1, shamt),
            Inst::Srli { rd, rs1, shamt } => fmt_shift("srli"@, rd, rs1, shamt),
            Inst::Srai { rd, rs1, shamt } => fmt_shift("srai"@, rd, rs1, shamt),
            Inst::Addiw { rd, rs1, imm } => fmt_rri("addiw"@, rd, rs1, imm),
            Inst::Slliw { rd, rs1, shamt } => fmt_shift("slliw"@, rd, rs1, shamt),
            Inst::Srliw { rd, rs1, shamt } => fmt_shift("srliw"@, rd, rs1, shamt),
            Inst::Sraiw { rd, rs1, shamt } => fmt_shift("sraiw"@, rd, rs1, shamt),
            Inst::Add { rd, rs1, rs2 } => fmt_rrr("add"@, rd, rs1, rs2),
            Inst::Sub { rd, rs1, rs2 } => fmt_rrr("sub"@, rd, rs1, rs2),
            Inst::Sll { rd, rs1, rs2 } => fmt_rrr("sll"@, rd, rs1, rs2),
            Inst::Slt { rd, rs1, rs2 } => fmt_rrr("slt"@, rd, rs1, rs2),
            Inst::Sltu { rd, rs1, rs2 } => fmt_rrr("sltu"@, rd, rs1, rs2),
            Inst::Xor { rd, rs1, rs2 } => fmt_rrr("xor"@, rd, rs1, rs2),
            Inst::Srl { rd, rs1, rs2 } => fmt_rrr("srl"@, rd, rs1, rs2),
            Inst::Sra { rd, rs1, rs2 } => fmt_rrr("sra"@, rd, rs1, rs2),
            Inst::Or { rd, rs1, rs2 } => fmt_rrr("or"@, rd, rs1, rs2),
            Inst::And { rd, rs1, rs2 } => fmt_rrr("and"@, rd, rs1, rs2),
            Inst::Addw { rd, rs1, rs2 } => fmt_rrr("addw"@, rd, rs1, rs2),
            Inst::Subw { rd, rs1, rs2 } => fmt_rrr("subw"@, rd, rs1, rs2),
            Inst::Sllw { rd, rs1, rs2 } => fmt_rrr("sllw"@, rd, rs1, rs2),
            Inst::Srlw { rd, rs1, rs2 } => fmt_rrr("srlw"@, rd, rs1, rs2),
            Inst::Sraw { rd, rs1, rs2 } => fmt_rrr("sraw"@, rd, rs1, rs2),
            Inst::Mul { rd, rs1, rs2 } => fmt_rrr("mul"@, rd, rs1, rs2),
            Inst::Mulh { rd, rs1, rs2 } => fmt_rrr("mulh"@, rd, rs1, rs2),
            Inst::Mulhsu { rd, rs1, rs2 } => fmt_rrr("mulhsu"@, rd, rs1, rs2),
            Inst::Mulhu { rd, rs1, rs2 } => fmt_rrr("mulhu"@, rd, rs1, rs2),
            Inst::Mulw { rd, rs1, rs2 } => fmt_rrr("mulw"@, rd, rs1, rs2),
            Inst::Div { rd, rs1, rs2 } => fmt_rrr("div"@, rd, rs1, rs2),
            Inst::Divu { rd, rs1, rs2 } => fmt_rrr("divu"@, rd, rs1, rs2),
            Inst::Rem { rd, rs1, rs2 } => fmt_rrr("rem"@, rd, rs1, rs2),
            Inst::Remu { rd, rs1, rs2 } => fmt_rrr("remu"@, rd, rs1, rs2),
            Inst::Divw { rd, rs1, rs2 } => fmt_rrr("divw"@, rd, rs1, rs2),
            Inst::Divuw { rd, rs1, rs2 } => fmt_rrr("divuw"@, rd, rs1, rs2),
            Inst::Remw { rd, rs1, rs2 } => fmt_rrr("remw"@, rd, rs1, rs2),
            Inst::Remuw { rd, rs1, rs2 } => fmt_rrr("remuw"@, rd, rs1, rs2),
            Inst::AmoaddW { rd, rs1, rs2 } => fmt_amo("amoadd.w"@, rd, rs2, rs1),
            Inst::AmoaddD { rd, rs1, rs2 } => fmt_amo("amoadd.d"@, rd, rs2, rs1),
            Inst::AmoswapW { rd, rs1, rs2 } => fmt_amo("amoswap.w"@, rd, rs2, rs1),
            Inst::AmoswapD { rd, rs1, rs2 } => fmt_amo("amoswap.d"@, rd, rs2, rs1),
            Inst::AmoxorW { rd, rs1, rs2 } => fmt_amo("amoxor.w"@, rd, rs2, rs1),
            Inst::AmoxorD { rd, rs1, rs2 } => fmt_amo("amoxor.d"@, rd, rs2, rs1),
            Inst::AmoorW { rd, rs1, rs2 } => fmt_amo("amoor.w"@, rd, rs2, rs1),
            Inst::AmoorD { rd, rs1, rs2 } => fmt_amo("amoor.d"@, rd, rs2, rs1),
            Inst::AmoandW { rd, rs1, rs2 } => fmt_amo("amoand.w"@, rd, rs2, rs1),
            Inst::AmoandD { rd, rs1, rs2 } => fmt_amo("amoand.d"@, rd, rs2, rs1),
            Inst::AmominW { rd, rs1, rs2 } => fmt_amo("amomin.w"@, rd, rs2, rs1),
            Inst::AmominD { rd, rs1, rs2 } => fmt_amo("amomin.d"@, rd, rs2, rs1),
            Inst::AmomaxW { rd, rs1, rs2 } => fmt_amo("amomax.w"@, rd, rs2, rs1),
            Inst::AmomaxD { rd, rs1, rs2 } => fmt_amo("amomax.d"@, rd, rs2, rs1),
            Inst::AmominuW { rd, rs1, rs2 } => fmt_amo("amominu.w"@, rd, rs2, rs1),
            Inst::AmominuD { rd, rs1, rs2 } => fmt_amo("amominu.d"@, rd, rs2, rs1),
            Inst::AmomaxuW { rd, rs1, rs2 } => fmt_amo("amomaxu.w"@, rd, rs2, rs1),
            Inst::AmomaxuD { rd, rs1, rs2 } => fmt_amo("amomaxu.d"@, rd, rs2, rs1),
            Inst::LrW { rd, rs1 } => fmt_lr("lr.w"@, rd, rs1),
            Inst::LrD { rd, rs1 } => fmt_lr("lr.d"@, rd, rs1),
            Inst::ScW { rd, rs1, rs2 } => fmt_amo("sc.w"@, rd, rs2, rs1),
            Inst::ScD { rd, rs1, rs2 } => fmt_amo("sc.d"@, rd, rs2, rs1),
            Inst::Beq { rs1, rs2, offset } => fmt_branch("beq"@, rs1, rs2, offset),
            Inst::Bne { rs1, rs2, offset } => fmt_branch("bne"@, rs1, rs2, offset),
            Inst::Blt { rs1, rs2, offset } => fmt_branch("blt"@, rs1, rs2, offset),
            Inst::Bge { rs1, rs2, offset } => fmt_branch("bge"@, rs1, rs2, offset),
            Inst::Bltu { rs1, rs2, offset } => fmt_branch("bltu"@, rs1, rs2, offset),
            Inst::Bgeu { rs1, rs2, offset } => fmt_branch("bgeu"@, rs1, rs2, offset),
            Inst::Lb { rd, rs1, offset } => fmt_mem("lb"@, rd, offset, rs1),
            Inst::Lh { rd, rs1, offset } => fmt_mem("lh"@, rd, offset, rs1),
            Inst::Lw { rd, rs1, offset } => fmt_mem("lw"@, rd, offset, rs1),
            Inst::Lbu { rd, rs1, offset } => fmt_mem("lbu"@, rd, offset, rs1),
            Inst::Lhu { rd, rs1, offset } => fmt_mem("lhu"@, rd, offset, rs1),
            Inst::Lwu { rd, rs1, offset } => fmt_mem("lwu"@, rd, offset, rs1),
            Inst::Ld { rd, rs1, offset } => fmt_mem("ld"@, rd, offset, rs1),
            Inst::Sb { rs1, rs2, offset } => fmt_mem("sb"@, rs2, offset, rs1),
            Inst::Sh { rs1, rs2, offset } => fmt_mem("sh"@, rs2, offset, rs1),
            Inst::Sw { rs1, rs2, offset } => fmt_mem("sw"@, rs2, offset, rs1),
            Inst::Sd { rs1, rs2, offset } => fmt_mem("sd"@, rs2, offset, rs1),
            Inst::Csrrw { rd, rs1, csr } => fmt_csr("csrrw"@, rd, csr, rs1),
            Inst::Csrrs { rd, rs1, csr } => fmt_csr("csrrs"@, rd, csr, rs1),
            Inst::Csrrc { rd, rs1, csr } => fmt_csr("csrrc"@, rd, csr, rs1),
            Inst::Csrrwi { rd, uimm, csr } => fmt_csri("csrrwi"@, rd, csr, uimm),
            Inst::Csrrsi { rd, uimm, csr } => fmt_csri("csrrsi"@, rd, csr, uimm),
            Inst::Csrrci { rd, uimm, csr } => fmt_csri("csrrci"@, rd, csr, uimm),
            Inst::Ecall => "ecall"@,
            Inst::Ebreak => "ebreak"@,
            Inst::Fence => "fence"@,
            Inst::FenceI => "fence.i"@,
            Inst::Mret => "mret"@,
    }
}

fn push_reg(s: &mut String, r: usize)
    ensures
        final(s)@ == old(s)@ + reg_text(r),
{
    push_char(s, 'x');
    push_dec(s, r as u64);
    assert(old(s)@.push('x') + dec(r as nat) =~= old(s)@ + reg_text(r));
}

fn push_sep(s: &mut String)
    ensures
        final(s)@ == old(s)@ + sep(),
{
    push_char(s, ',');
    push_char(s, ' ');
    assert(old(s)@.push(',').push(' ') =~= old(s)@ + sep());
}

/// Append `m` and the space after it.
fn push_op(s: &mut String, m: &str)
    ensures
        final(s)@ == old(s)@ + m@ + seq![' '],
{
    s.append(m);
    push_char(s, ' ');
    assert(old(s)@ + m@ + seq![' '] =~= (old(s)@ + m@).push(' '));
}

fn push_rri(s: &mut String, m: &str, rd: usize, rs1: usize, imm: i64)
    ensures
        final(s)@ == old(s)@ + fmt_rri(m@, rd, rs1, imm),
{
    push_op(s, m);
    push_reg(s, rd);
    push_sep(s);
    push_reg(s, rs1);
    push_sep(s);
    push_dec_signed(s, imm);
    assert(s@ =~= old(s)@ + fmt_rri(m@, rd, rs1, imm));
}

fn push_upper(s: &mut String, m: &str, rd: usize, imm: i64)
    ensures
        final(s)@ == old(s)@ + fmt_upper(m@, rd, imm),
{
    let u = imm as u64;
    let field = (u >> 12u64) & 0xfffff;
    proof {
        lemma_cast_bits(0, imm, 0);
        lemma_bit_facts(u, 0, 0, 0);
    }
    push_op(s, m);
    push_reg(s, rd);
    push_sep(s);
    push_hex(s, field);
    assert(s@ =~= old(s)@ + fmt_upper(m@, rd, imm));
}

fn push_jump(s: &mut String, m: &str, rd: usize, offset: i64)
    ensures
        final(s)@ == old(s)@ + fmt_jump(m@, rd, offset),
{
    push_op(s, m);
    push_reg(s, rd);
    push_sep(s);
    push_dec_signed(s, offset);
    assert(s@ =~= old(s)@ + fmt_jump(m@, rd, offset));
}

fn push_mem(s: &mut String, m: &str, r: usize, offset: i64, base: usize)
    ensures
        final(s)@ == old(s)@ + fmt_mem(m@, r, offset, base),
{
    push_op(s, m);
    push_reg(s, r);
    push_sep(s);
    push_dec_signed(s, offset);
    push_char(s, '(');
    push_reg(s, base);
    push_char(s, ')');
    assert(s@ =~= old(s)@ + fmt_mem(m@, r, offset, base));
}

fn push_shift(s: &mut String, m: &str, rd: usize, rs1: usize, shamt: u32)
    ensures
        final(s)@ == old(s)@ + fmt_shift(m@, rd, rs1, shamt),
{
    push_op(s, m);
    push_reg(s, rd);
    push_sep(s);
    push_reg(s, rs1);
    push_sep(s);
    push_hex(s, shamt as u64);
    assert(s@ =~= old(s)@ + fmt_shift(m@, rd, rs1, shamt));
}

fn push_rrr(s: &mut String, m: &str, a: usize, b: usize, c: usize)
    ensures
        final(s)@ == old(s)@ + fmt_rrr(m@, a, b, c),
{
    push_op(s, m);
    push_reg(s, a);
    push_sep(s);
    push_reg(s, b);
    push_sep(s);
    push_reg(s, c);
    assert(s@ =~= old(s)@ + fmt_rrr(m@, a, b, c));
}

fn push_amo(s: &mut String, m: &str, rd: usize, rs2: usize, rs1: usize)
    ensures
        final(s)@ == old(s)@ + fmt_amo(m@, rd, rs2, rs1),
{
    push_op(s, m);
    push_reg(s, rd);
    push_sep(s);
    push_reg(s, rs2);
    push_sep(s);
    push_char(s, '(');
    push_reg(s, rs1);
    push_char(s, ')');
    assert(s@ =~= old(s)@ + fmt_amo(m@, rd, rs2, rs1));
}

fn push_lr(s: &mut String, m: &str, rd: usize, rs1: usize)
    ensures
        final(s)@ == old(s)@ + fmt_lr(m@, rd, rs1),
{
    push_op(s, m);
    push_reg(s, rd);
    push_sep(s);
    push_char(s, '(');
    push_reg(s, rs1);
    push_char(s, ')');
    assert(s@ =~= old(s)@ + fmt_lr(m@, rd, rs1));
}

fn push_branch(s: &mut String, m: &str, rs1: usize, rs2: usize, offset: i64)
    ensures
        final(s)@ == old(s)@ + fmt_branch(m@, rs1, rs2, offset),
{
    push_op(s, m);
    push_reg(s, rs1);
    push_sep(s);
    push_reg(s, rs2);
    push_sep(s);
    push_dec_signed(s, offset);
    assert(s@ =~= old(s)@ + fmt_branch(m@, rs1, rs2, offset));
}

fn push_csr(s: &mut String, m: &str, rd: usize, csr: usize, rs1: usize)
    ensures
        final(s)@ == old(s)@ + fmt_csr(m@, rd, csr, rs1),
{
    push_op(s, m);
    push_reg(s, rd);
    push_sep(s);
    push_hex(s, csr as u64);
    push_sep(s);
    push_reg(s, rs1);
    assert(s@ =~= old(s)@ + fmt_csr(m@, rd, csr, rs1));
}

fn push_csri(s: &mut String, m: &str, rd: usize, csr: usize, uimm: u64)
    ensures
        final(s)@ == old(s)@ + fmt_csri(m@, rd, csr, uimm),
{
    push_op(s, m);
    push_reg(s, rd);
    push_sep(s);
    push_hex(s, csr as u64);
    push_sep(s);
    push_dec(s, uimm);
    assert(s@ =~= old(s)@ + fmt_csri(m@, rd, csr, uimm));
}

impl Inst {
    /// The instruction in objdump-like assembly syntax: a free disassembler,
    /// used by the trace output for Spike diff testing.
    pub fn to_text(&self) -> (r: String)
        ensures
            r@ == asm_text(*self),
    {
        let mut s = String::new();
        match *self {
            Inst::Addi { rd, rs1, imm } => push_rri(&mut s, "addi", rd, rs1, imm),
            Inst::Slti { rd, rs1, imm } => push_rri(&mut s, "slti", rd, rs1, imm),
            Inst::Sltiu { rd, rs1, imm } => push_rri(&mut s, "sltiu", rd, rs1, imm),
            Inst::Xori { rd, rs1, imm } => push_rri(&mut s, "xori", rd, rs1, imm),
            Inst::Ori { rd, rs1, imm } => push_rri(&mut s, "ori", rd, rs1, imm),
            Inst::Andi { rd, rs1, imm } => push_rri(&mut s, "andi", rd, rs1, imm),
            Inst::Lui { rd, imm } => push_upper(&mut s, "lui", rd, imm),
            Inst::Auipc { rd, imm } => push_upper(&mut s, "auipc", rd, imm),
            Inst::Jal { rd, offset } => push_jump(&mut s, "jal", rd, offset),
            Inst::Jalr { rd, rs1, offset } => push_mem(&mut s, "jalr", rd, offset, rs1),
            Inst::Slli { rd, rs1, shamt } => push_shift(&mut s, "slli", rd, rs1, shamt),
            Inst::Srli { rd, rs1, shamt } => push_shift(&mut s, "srli", rd, rs1, shamt),
            Inst::Srai { rd, rs1, shamt } => push_shift(&mut s, "srai", rd, rs1, shamt),
            Inst::Addiw { rd, rs1, imm } => push_rri(&mut s, "addiw", rd, rs1, imm),
            Inst::Slliw { rd, rs1, shamt } => push_shift(&mut s, "slliw", rd, rs1, shamt),
            Inst::Srliw { rd, rs1, shamt } => push_shift(&mut s, "srliw", rd, rs1, shamt),
            Inst::Sraiw { rd, rs1, shamt } => push_shift(&mut s, "sraiw", rd, rs1, shamt),
            Inst::Add { rd, rs1, rs2 } => push_rrr(&mut s, "add", rd, rs1, rs2),
            Inst::Sub { rd, rs1, rs2 } => push_rrr(&mut s, "sub", rd, rs1, rs2),
            Inst::Sll { rd, rs1, rs2 } => push_rrr(&mut s, "sll", rd, rs1, rs2),
            Inst::Slt { rd, rs1, rs2 } => push_rrr(&mut s, "slt", rd, rs1, rs2),
            Inst::Sltu { rd, rs1, rs2 } => push_rrr(&mut s, "sltu", rd, rs1, rs2),
            Inst::Xor { rd, rs1, rs2 } => push_rrr(&mut s, "xor", rd, rs1, rs2),
            Inst::Srl { rd, rs1, rs2 } => push_rrr(&mut s, "srl", rd, rs1, rs2),
            Inst::Sra { rd, rs1, rs2 } => push_rrr(&mut s, "sra", rd, rs1, rs2),
            Inst::Or { rd, rs1, rs2 } => push_rrr(&mut s, "or", rd, rs1, rs2),
            Inst::And { rd, rs1, rs2 } => push_rrr(&mut s, "and", rd, rs1, rs2),
            Inst::Addw { rd, rs1, rs2 } => push_rrr(&mut s, "addw", rd, rs1, rs2),
            Inst::Subw { rd, rs1, rs2 } => push_rrr(&mut s, "subw", rd, rs1, rs2),
            Inst::Sllw { rd, rs1, rs2 } => push_rrr(&mut s, "sllw", rd, rs1, rs2),
            Inst::Srlw { rd, rs1, rs2 } => push_rrr(&mut s, "srlw", rd, rs1, rs2),
            Inst::Sraw { rd, rs1, rs2 } => push_rrr(&mut s, "sraw", rd, rs1, rs2),
            Inst::Mul { rd, rs1, rs2 } => push_rrr(&mut s, "mul", rd, rs1, rs2),
            Inst::Mulh { rd, rs1, rs2 } => push_rrr(&mut s, "mulh", rd, rs1, rs2),
            Inst::Mulhsu { rd, rs1, rs2 } => push_rrr(&mut s, "mulhsu", rd, rs1, rs2),
            Inst::Mulhu { rd, rs1, rs2 } => push_rrr(&mut s, "mulhu", rd, rs1, rs2),
            Inst::Mulw { rd, rs1, rs2 } => push_rrr(&mut s, "mulw", rd, rs1, rs2),
            Inst::Div { rd, rs1, rs2 } => push_rrr(&mut s, "div", rd, rs1, rs2),
            Inst::Divu { rd, rs1, rs2 } => push_rrr(&mut s, "divu", rd, rs1, rs2),
            Inst::Rem { rd, rs1, rs2 } => push_rrr(&mut s, "rem", rd, rs1, rs2),
            Inst::Remu { rd, rs1, rs2 } => push_rrr(&mut s, "remu", rd, rs1, rs2),
            Inst::Divw { rd, rs1, rs2 } => push_rrr(&mut s, "divw", rd, rs1, rs2),
            Inst::Divuw { rd, rs1, rs2 } => push_rrr(&mut s, "divuw", rd, rs1, rs2),
            Inst::Remw { rd, rs1, rs2 } => push_rrr(&mut s, "remw", rd, rs1, rs2),
            Inst::Remuw { rd, rs1, rs2 } => push_rrr(&mut s, "remuw", rd, rs1, rs2),
            Inst::AmoaddW { rd, rs1, rs2 } => push_amo(&mut s, "amoadd.w", rd, rs2, rs1),
            Inst::AmoaddD { rd, rs1, rs2 } => push_amo(&mut s, "amoadd.d", rd, rs2, rs1),
            Inst::AmoswapW { rd, rs1, rs2 } => push_amo(&mut s, "amoswap.w", rd, rs2, rs1),
            Inst::AmoswapD { rd, rs1, rs2 } => push_amo(&mut s, "amoswap.d", rd, rs2, rs1),
            Inst::AmoxorW { rd, rs1, rs2 } => push_amo(&mut s, "amoxor.w", rd, rs2, rs1),
            Inst::AmoxorD { rd, rs1, rs2 } => push_amo(&mut s, "amoxor.d", rd, rs2, rs1),
            Inst::AmoorW { rd, rs1, rs2 } => push_amo(&mut s, "amoor.w", rd, rs2, rs1),
            Inst::AmoorD { rd, rs1, rs2 } => push_amo(&mut s, "amoor.d", rd, rs2, rs1),
            Inst::AmoandW { rd, rs1, rs2 } => push_amo(&mut s, "amoand.w", rd, rs2, rs1),
            Inst::AmoandD { rd, rs1, rs2 } => push_amo(&mut s, "amoand.d", rd, rs2, rs1),
            Inst::AmominW { rd, rs1, rs2 } => push_amo(&mut s, "amomin.w", rd, rs2, rs1),
            Inst::AmominD { rd, rs1, rs2 } => push_amo(&mut s, "amomin.d", rd, rs2, rs1),
            Inst::AmomaxW { rd, rs1, rs2 } => push_amo(&mut s, "amomax.w", rd, rs2, rs1),
            Inst::AmomaxD { rd, rs1, rs2 } => push_amo(&mut s, "amomax.d", rd, rs2, rs1),
            Inst::AmominuW { rd, rs1, rs2 } => push_amo(&mut s, "amominu.w", rd, rs2, rs1),
            Inst::AmominuD { rd, rs1, rs2 } => push_amo(&mut s, "amominu.d", rd, rs2, rs1),
            Inst::AmomaxuW { rd, rs1, rs2 } => push_amo(&mut s, "amomaxu.w", rd, rs2, rs1),
            Inst::AmomaxuD { rd, rs1, rs2 } => push_amo(&mut s, "amomaxu.d", rd, rs2, rs1),
            Inst::LrW { rd, rs1 } => push_lr(&mut s, "lr.w", rd, rs1),
            Inst::LrD { rd, rs1 } => push_lr(&mut s, "lr.d", rd, rs1),
            Inst::ScW { rd, rs1, rs2 } => push_amo(&mut s, "sc.w", rd, rs2, rs1),
            Inst::ScD { rd, rs1, rs2 } => push_amo(&mut s, "sc.d", rd, rs2, rs1),
            Inst::Beq { rs1, rs2, offset } => push_branch(&mut s, "beq", rs1, rs2, offset),
            Inst::Bne { rs1, rs2, offset } => push_branch(&mut s, "bne", rs1, rs2, offset),
            Inst::Blt { rs1, rs2, offset } => push_branch(&mut s, "blt", rs1, rs2, offset),
            Inst::Bge { rs1, rs2, offset } => push_branch(&mut s, "bge", rs1, rs2, offset),
            Inst::Bltu { rs1, rs2, offset } => push_branch(&mut s, "bltu", rs1, rs2, offset),
            Inst::Bgeu { rs1, rs2, offset } => push_branch(&mut s, "bgeu", rs1, rs2, offset),
            Inst::Lb { rd, rs1, offset } => push_mem(&mut s, "lb", rd, offset, rs1),
            Inst::Lh { rd, rs1, offset } => push_mem(&mut s, "lh", rd, offset, rs1),
            Inst::Lw { rd, rs1, offset } => push_mem(&mut s, "lw", rd, offset, rs1),
            Inst::Lbu { rd, rs1, offset } => push_mem(&mut s, "lbu", rd, offset, rs1),
            Inst::Lhu { rd, rs1, offset } => push_mem(&mut s, "lhu", rd, offset, rs1),
            Inst::Lwu { rd, rs1, offset } => push_mem(&mut s, "lwu", rd, offset, rs1),
            Inst::Ld { rd, rs1, offset } => push_mem(&mut s, "ld", rd, offset, rs1),
            Inst::Sb { rs1, rs2, offset } => push_mem(&mut s, "sb", rs2, offset, rs1),
            Inst::Sh { rs1, rs2, offset } => push_mem(&mut s, "sh", rs2, offset, rs1),
            Inst::Sw { rs1, rs2, offset } => push_mem(&mut s, "sw", rs2, offset, rs1),
            Inst::Sd { rs1, rs2, offset } => push_mem(&mut s, "sd", rs2, offset, rs1),
            Inst::Csrrw { rd, rs1, csr } => push_csr(&mut s, "csrrw", rd, csr, rs1),
            Inst::Csrrs { rd, rs1, csr } => push_csr(&mut s, "csrrs", rd, csr, rs1),
            Inst::Csrrc { rd, rs1, csr } => push_csr(&mut s, "csrrc", rd, csr, rs1),
            Inst::Csrrwi { rd, uimm, csr } => push_csri(&mut s, "csrrwi", rd, csr, uimm),
            Inst::Csrrsi { rd, uimm, csr } => push_csri(&mut s, "csrrsi", rd, csr, uimm),
            Inst::Csrrci { rd, uimm, csr } => push_csri(&mut s, "csrrci", rd, csr, uimm),
            Inst::Ecall => s.append("ecall"),
            Inst::Ebreak => s.append("ebreak"),
            Inst::Fence => s.append("fence"),
            Inst::FenceI => s.append("fence.i"),
            Inst::Mret => s.append("mret"),
        }
        assert(s@ =~= asm_text(*self));
        s
    }
}

/// The assembler mnemonic of each instruction (the objdump names; the A
/// extension's with their `.w`/`.d` width suffix).
pub open spec fn mnemonic(inst: Inst) -> Seq<char> {
    match inst {
        Inst::Addi { .. } => "addi"@,
        Inst::Slti { .. } => "slti"@,
        Inst::Sltiu { .. } => "sltiu"@,
        Inst::Xori { .. } => "xori"@,
        Inst::Ori { .. } => "ori"@,
        Inst::Andi { .. } => "andi"@,
        Inst::Lui { .. } => "lui"@,
        Inst::Auipc { .. } => "auipc"@,
        Inst::Jal { .. } => "jal"@,
        Inst::Jalr { .. } => "jalr"@,
        Inst::Slli { .. } => "slli"@,
        Inst::Srli { .. } => "srli"@,
        Inst::Srai { .. } => "srai"@,
        Inst::Addiw { .. } => "addiw"@,
        Inst::Slliw { .. } => "slliw"@,
        Inst::Srliw { .. } => "srliw"@,
        Inst::Sraiw { .. } => "sraiw"@,
        Inst::Add { .. } => "add"@,
        Inst::Sub { .. } => "sub"@,
        Inst::Sll { .. } => "sll"@,
        Inst::Slt { .. } => "slt"@,
        Inst::Sltu { .. } => "sltu"@,
        Inst::Xor { .. } => "xor"@,
        Inst::Srl { .. } => "srl"@,
        Inst::Sra { .. } => "sra"@,
        Inst::Or { .. } => "or"@,
        Inst::And { .. } => "and"@,
        Inst::Addw { .. } => "addw"@,
        Inst::Subw { .. } => "subw"@,
        Inst::Sllw { .. } => "sllw"@,
        Inst::Srlw { .. } => "srlw"@,
        Inst::Sraw { .. } => "sraw"@,
        Inst::Mul { .. } => "mul"@,
        Inst::Mulh { .. } => "mulh"@,
        Inst::Mulhsu { .. } => "mulhsu"@,
        Inst::Mulhu { .. } => "mulhu"@,
        Inst::Mulw { .. } => "mulw"@,
        Inst::Div { .. } => "div"@,
        Inst::Divu { .. } => "divu"@,
        Inst::Rem { .. } => "rem"@,
        Inst::Remu { .. } => "remu"@,
        Inst::Divw { .. } => "divw"@,
        Inst::Divuw { .. } => "divuw"@,
        Inst::Remw { .. } => "remw"@,
        Inst::Remuw { .. } => "remuw"@,
        Inst::AmoaddW { .. } => "amoadd.w"@,
        Inst::AmoaddD { .. } => "amoadd.d"@,
        Inst::AmoswapW { .. } => "amoswap.w"@,
        Inst::AmoswapD { .. } => "amoswap.d"@,
        Inst::AmoxorW { .. } => "amoxor.w"@,
        Inst::AmoxorD { .. } => "amoxor.d"@,
        Inst::AmoorW { .. } => "amoor.w"@,
        Inst::AmoorD { .. } => "amoor.d"@,
        Inst::AmoandW { .. } => "amoand.w"@,
        Inst::AmoandD { .. } => "amoand.d"@,
        Inst::AmominW { .. } => "amomin.w"@,
        Inst::AmominD { .. } => "amomin.d"@,
        Inst::AmomaxW { .. } => "amomax.w"@,
        Inst::AmomaxD { .. } => "amomax.d"@,
        Inst::AmominuW { .. } => "amominu.w"@,
        Inst::AmominuD { .. } => "amominu.d"@,
        Inst::AmomaxuW { .. } => "amomaxu.w"@,
        Inst::AmomaxuD { .. } => "amomaxu.d"@,
        Inst::LrW { .. } => "lr.w"@,
        Inst::LrD { .. } => "lr.d"@,
        Inst::ScW { .. } => "sc.w"@,
        Inst::ScD { .. } => "sc.d"@,
        Inst::Beq { .. } => "beq"@,
        Inst::Bne { .. } => "bne"@,
        Inst::Blt { .. } => "blt"@,
        Inst::Bge { .. } => "bge"@,
        Inst::Bltu { .. } => "bltu"@,
        Inst::Bgeu { .. } => "bgeu"@,
        Inst::Lb { .. } => "lb"@,
        Inst::Lh { .. } => "lh"@,
        Inst::Lw { .. } => "lw"@,
        Inst::Lbu { .. } => "lbu"@,
        Inst::Lhu { .. } => "lhu"@,
        Inst::Lwu { .. } => "lwu"@,
        Inst::Ld { .. } => "ld"@,
        Inst::Sb { .. } => "sb"@,
        Inst::Sh { .. } => "sh"@,
        Inst::Sw { .. } => "sw"@,
        Inst::Sd { .. } => "sd"@,
        Inst::Csrrw { .. } => "csrrw"@,
        Inst::Csrrs { .. } => "csrrs"@,
        Inst::Csrrc { .. } => "csrrc"@,
        Inst::Csrrwi { .. } => "csrrwi"@,
        Inst::Csrrsi { .. } => "csrrsi"@,
        Inst::Csrrci { .. } => "csrrci"@,
        Inst::Ecall => "ecall"@,
        Inst::Ebreak => "ebreak"@,
        Inst::Fence => "fence"@,
        Inst::FenceI => "fence.i"@,
        Inst::Mret => "mret"@,
    }
}

/// `fmt_rri` text begins with its mnemonic and a space.
proof fn lemma_fmt_rri_begins(m: Seq<char>, rd: usize, rs1: usize, imm: i64)
    ensures
        fmt_rri(m, rd, rs1, imm).len() > m.len(),
        fmt_rri(m, rd, rs1, imm).take(m.len() as int) == m,
        fmt_rri(m, rd, rs1, imm)[m.len() as int] == ' ',
{
    let rest = reg_text(rd) + sep() + reg_text(rs1) + sep() + dec_signed(imm as int);
    assert(fmt_rri(m, rd, rs1, imm) =~= m + (seq![' '] + rest));
    assert((m + (seq![' '] + rest)).take(m.len() as int) =~= m);
}

/// `fmt_upper` text begins with its mnemonic and a space.
proof fn lemma_fmt_upper_begins(m: Seq<char>, rd: usize, imm: i64)
    ensures
        fmt_upper(m, rd, imm).len() > m.len(),
        fmt_upper(m, rd, imm).take(m.len() as int) == m,
        fmt_upper(m, rd, imm)[m.len() as int] == ' ',
{
    let rest = reg_text(rd) + sep() + hex_prefixed(upper_field(imm));
    assert(fmt_upper(m, rd, imm) =~= m + (seq![' '] + rest));
    assert((m + (seq![' '] + rest)).take(m.len() as int) =~= m);
}

/// `fmt_jump` text begins with its mnemonic and a space.
proof fn lemma_fmt_jump_begins(m: Seq<char>, rd: usize, offset: i64)
    ensures
        fmt_jump(m, rd, offset).len() > m.len(),
        fmt_jump(m, rd, offset).take(m.len() as int) == m,
        fmt_jump(m, rd, offset)[m.len() as int] == ' ',
{
    let rest = reg_text(rd) + sep() + dec_signed(offset as int);
    assert(fmt_jump(m, rd, offset) =~= m + (seq![' '] + rest));
    assert((m + (seq![' '] + rest)).take(m.len() as int) =~= m);
}

/// `fmt_mem` text begins with its mnemonic and a space.
proof fn lemma_fmt_mem_begins(m: Seq<char>, r: usize, offset: i64, base: usize)
    ensures
        fmt_mem(m, r, offset, base).len() > m.len(),
        fmt_mem(m, r, offset, base).take(m.len() as int) == m,
        fmt_mem(m, r, offset, base)[m.len() as int] == ' ',
{
    let rest = reg_text(r) + sep() + dec_signed(offset as int) + seq!['('] + reg_text(base)
        + seq![')'];
    assert(fmt_mem(m, r, offset, base) =~= m + (seq![' '] + rest));
    assert((m + (seq![' '] + rest)).take(m.len() as int) =~= m);
}

/// `fmt_shift` text begins with its mnemonic and a space.
proof fn lemma_fmt_shift_begins(m: Seq<char>, rd: usize, rs1: usize, shamt: u32)
    ensures
        fmt_shift(m, rd, rs1, shamt).len() > m.len(),
        fmt_shift(m, rd, rs1, shamt).take(m.len() as int) == m,
        fmt_shift(m, rd, rs1, shamt)[m.len() as int] == ' ',
{
    let rest = reg_text(rd) + sep() + reg_text(rs1) + sep() + hex_prefixed(shamt as nat);
    assert(fmt_shift(m, rd, rs1, shamt) =~= m + (seq![' '] + rest));
    assert((m + (seq![' '] + rest)).take(m.len() as int) =~= m);
}

/// `fmt_rrr` text begins with its mnemonic and a space.
proof fn lemma_fmt_rrr_begins(m: Seq<char>, a: usize, b: usize, c: usize)
    ensures
        fmt_rrr(m, a, b, c).len() > m.len(),
        fmt_rrr(m, a, b, c).take(m.len() as int) == m,
        fmt_rrr(m, a, b, c)[m.len() as int] == ' ',
{
    let rest = reg_text(a) + sep() + reg_text(b) + sep() + reg_text(c);
    assert(fmt_rrr(m, a, b, c) =~= m + (seq![' '] + rest));
    assert((m + (seq![' '] + rest)).take(m.len() as int) =~= m);
}

/// `fmt_amo` text begins with its mnemonic and a space.
proof fn lemma_fmt_amo_begins(m: Seq<char>, rd: usize, rs2: usize, rs1: usize)
    ensures
        fmt_amo(m, rd, rs2, rs1).len() > m.len(),
        fmt_amo(m, rd, rs2, rs1).take(m.len() as int) == m,
        fmt_amo(m, rd, rs2, rs1)[m.len() as int] == ' ',
{
    let rest = reg_text(rd) + sep() + reg_text(rs2) + sep() + seq!['('] + reg_text(rs1) + seq![
        ')',
    ];
    assert(fmt_amo(m, rd, rs2, rs1) =~= m + (seq![' '] + rest));
    assert((m + (seq![' '] + rest)).take(m.len() as int) =~= m);
}

/// `fmt_lr` text begins with its mnemonic and a space.
proof fn lemma_fmt_lr_begins(m: Seq<char>, rd: usize, rs1: usize)
    ensures
        fmt_lr(m, rd, rs1).len() > m.len(),
        fmt_lr(m, rd, rs1).take(m.len() as int) == m,
        fmt_lr(m, rd, rs1)[m.len() as int] == ' ',
{
    let rest = reg_text(rd) + sep() + seq!['('] + reg_text(rs1) + seq![')'];
    assert(fmt_lr(m, rd, rs1) =~= m + (seq![' '] + rest));
    assert((m + (seq![' '] + rest)).take(m.len() as int) =~= m);
}

/// `fmt_branch` text begins with its mnemonic and a space.
proof fn lemma_fmt_branch_begins(m: Seq<char>, rs1: usize, rs2: usize, offset: i64)
    ensures
        fmt_branch(m, rs1, rs2, offset).len() > m.len(),
        fmt_branch(m, rs1, rs2, offset).take(m.len() as int) == m,
        fmt_branch(m, rs1, rs2, offset)[m.len() as int] == ' ',
{
    let rest = reg_text(rs1) + sep() + reg_text(rs2) + sep() + dec_signed(offset as int);
    assert(fmt_branch(m, rs1, rs2, offset) =~= m + (seq![' '] + rest));
    assert((m + (seq![' '] + rest)).take(m.len() as int) =~= m);
}

/// `fmt_csr` text begins with its mnemonic and a space.
proof fn lemma_fmt_csr_begins(m: Seq<char>, rd: usize, csr: usize, rs1: usize)
    ensures
        fmt_csr(m, rd, csr, rs1).len() > m.len(),
        fmt_csr(m, rd, csr, rs1).take(m.len() as int) == m,
        fmt_csr(m, rd, csr, rs1)[m.len() as int] == ' ',
{
    let rest = reg_text(rd) + sep() + hex_prefixed(csr as nat) + sep() + reg_text(rs1);
    assert(fmt_csr(m, rd, csr, rs1) =~= m + (seq![' '] + rest));
    assert((m + (seq![' '] + rest)).take(m.len() as int) =~= m);
}

/// `fmt_csri` text begins with its mnemonic and a space.
proof fn lemma_fmt_csri_begins(m: Seq<char>, rd: usize, csr: usize, uimm: u64)
    ensures
        fmt_csri(m, rd, csr, uimm).len() > m.len(),
        fmt_csri(m, rd, csr, uimm).take(m.len() as int) == m,
        fmt_csri(m, rd, csr, uimm)[m.len() as int] == ' ',
{
    let rest = reg_text(rd) + sep() + hex_prefixed(csr as nat) + sep() + dec(uimm as nat);
    assert(fmt_csri(m, rd, csr, uimm) =~= m + (seq![' '] + rest));
    assert((m + (seq![' '] + rest)).take(m.len() as int) =~= m);
}

/// `fmt_rri` lays out its operands in objdump's notation.
proof fn lemma_fmt_rri_layout(m: Seq<char>, rd: usize, rs1: usize, imm: i64)
    ensures
        fmt_rri(m, rd, rs1, imm) == m + (seq![' ', 'x'] + dec(rd as nat) + seq![',', ' ', 'x'] + dec(rs1 as nat) + seq![',', ' '] + dec_signed(imm as int)),
{
    assert(fmt_rri(m, rd, rs1, imm) =~= m + (seq![' ', 'x'] + dec(rd as nat) + seq![',', ' ', 'x'] + dec(rs1 as nat) + seq![',', ' '] + dec_signed(imm as int)));
}

/// `fmt_upper` lays out its operands in objdump's notation.
proof fn lemma_fmt_upper_layout(m: Seq<char>, rd: usize, imm: i64)
    ensures
        fmt_upper(m, rd, imm) == m + (seq![' ', 'x'] + dec(rd as nat) + seq![',', ' '] + hex_prefixed(upper_field(imm))),
{
    assert(fmt_upper(m, rd, imm) =~= m + (seq![' ', 'x'] + dec(rd as nat) + seq![',', ' '] + hex_prefixed(upper_field(imm))));
}

/// `fmt_jump` lays out its operands in objdump's notation.
proof fn lemma_fmt_jump_layout(m: Seq<char>, rd: usize, offset: i64)
    ensures
        fmt_jump(m, rd, offset) == m + (seq![' ', 'x'] + dec(rd as nat) + seq![',', ' '] + dec_signed(offset as int)),
{
    assert(fmt_jump(m, rd, offset) =~= m + (seq![' ', 'x'] + dec(rd as nat) + seq![',', ' '] + dec_signed(offset as int)));
}

/// `fmt_mem` lays out its operands in objdump's notation.
proof fn lemma_fmt_mem_layout(m: Seq<char>, r: usize, offset: i64, base: usize)
    ensures
        fmt_mem(m, r, offset, base) == m + (seq![' ', 'x'] + dec(r as nat) + seq![',', ' '] + dec_signed(offset as int) + seq!['(', 'x'] + dec(base as nat) + seq![')']),
{
    assert(fmt_mem(m, r, offset, base) =~= m + (seq![' ', 'x'] + dec(r as nat) + seq![',', ' '] + dec_signed(offset as int) + seq!['(', 'x'] + dec(base as nat) + seq![')']));
}

/// `fmt_shift` lays out its operands in objdump's notation.
proof fn lemma_fmt_shift_layout(m: Seq<char>, rd: usize, rs1: usize, shamt: u32)
    ensures
        fmt_shift(m, rd, rs1, shamt) == m + (seq![' ', 'x'] + dec(rd as nat) + seq![',', ' ', 'x'] + dec(rs1 as nat) + seq![',', ' '] + hex_prefixed(shamt as nat)),
{
    assert(fmt_shift(m, rd, rs1, shamt) =~= m + (seq![' ', 'x'] + dec(rd as nat) + seq![',', ' ', 'x'] + dec(rs1 as nat) + seq![',', ' '] + hex_prefixed(shamt as nat)));
}

/// `fmt_rrr` lays out its operands in objdump's notation.
proof fn lemma_fmt_rrr_layout(m: Seq<char>, a: usize, b: usize, c: usize)
    ensures
        fmt_rrr(m, a, b, c) == m + (seq![' ', 'x'] + dec(a as nat) + seq![',', ' ', 'x'] + dec(b as nat) + seq![',', ' ', 'x'] + dec(c as nat)),
{
    assert(fmt_rrr(m, a, b, c) =~= m + (seq![' ', 'x'] + dec(a as nat) + seq![',', ' ', 'x'] + dec(b as nat) + seq![',', ' ', 'x'] + dec(c as nat)));
}

/// `fmt_amo` lays out its operands in objdump's notation.
proof fn lemma_fmt_amo_layout(m: Seq<char>, rd: usize, rs2: usize, rs1: usize)
    ensures
        fmt_amo(m, rd, rs2, rs1) == m + (seq![' ', 'x'] + dec(rd as nat) + seq![',', ' ', 'x'] + dec(rs2 as nat) + seq![',', ' ', '(', 'x'] + dec(rs1 as nat) + seq![')']),
{
    assert(fmt_amo(m, rd, rs2, rs1) =~= m + (seq![' ', 'x'] + dec(rd as nat) + seq![',', ' ', 'x'] + dec(rs2 as nat) + seq![',', ' ', '(', 'x'] + dec(rs1 as nat) + seq![')']));
}

/// `fmt_lr` lays out its operands in objdump's notation.
proof fn lemma_fmt_lr_layout(m: Seq<char>, rd: usize, rs1: usize)
    ensures
        fmt_lr(m, rd, rs1) == m + (seq![' ', 'x'] + dec(rd as nat) + seq![',', ' ', '(', 'x'] + dec(rs1 as nat) + seq![')']),
{
    assert(fmt_lr(m, rd, rs1) =~= m + (seq![' ', 'x'] + dec(rd as nat) + seq![',', ' ', '(', 'x'] + dec(rs1 as nat) + seq![')']));
}

/// `fmt_branch` lays out its operands in objdump's notation.
proof fn lemma_fmt_branch_layout(m: Seq<char>, rs1: usize, rs2: usize, offset: i64)
    ensures
        fmt_branch(m, rs1, rs2, offset) == m + (seq![' ', 'x'] + dec(rs1 as nat) + seq![',', ' ', 'x'] + dec(rs2 as nat) + seq![',', ' '] + dec_signed(offset as int)),
{
    assert(fmt_branch(m, rs1, rs2, offset) =~= m + (seq![' ', 'x'] + dec(rs1 as nat) + seq![',', ' ', 'x'] + dec(rs2 as nat) + seq![',', ' '] + dec_signed(offset as int)));
}

/// `fmt_csr` lays out its operands in objdump's notation.
proof fn lemma_fmt_csr_layout(m: Seq<char>, rd: usize, csr: usize, rs1: usize)
    ensures
        fmt_csr(m, rd, csr, rs1) == m + (seq![' ', 'x'] + dec(rd as nat) + seq![',', ' '] + hex_prefixed(csr as nat) + seq![',', ' ', 'x'] + dec(rs1 as nat)),
{
    assert(fmt_csr(m, rd, csr, rs1) =~= m + (seq![' ', 'x'] + dec(rd as nat) + seq![',', ' '] + hex_prefixed(csr as nat) + seq![',', ' ', 'x'] + dec(rs1 as nat)));
}

/// `fmt_csri` lays out its operands in objdump's notation.
proof fn lemma_fmt_csri_layout(m: Seq<char>, rd: usize, csr: usize, uimm: u64)
    ensures
        fmt_csri(m, rd, csr, uimm) == m + (seq![' ', 'x'] + dec(rd as nat) + seq![',', ' '] + hex_prefixed(csr as nat) + seq![',', ' '] + dec(uimm as nat)),
{
    assert(fmt_csri(m, rd, csr, uimm) =~= m + (seq![' ', 'x'] + dec(rd as nat) + seq![',', ' '] + hex_prefixed(csr as nat) + seq![',', ' '] + dec(uimm as nat)));
}

/// Every instruction prints as its mnemonic followed by its operands in
/// objdump's order and notation: registers as `x<n>`, immediates and offsets
/// in signed decimal, offsets of memory accesses before their base register
/// in parentheses, shift amounts, CSR numbers and LUI/AUIPC's upper field in
/// hexadecimal.
pub proof fn law_text_shows_the_operands(inst: Inst)
    ensures
        asm_text(inst) == mnemonic(inst) + match inst {
            Inst::Addi { rd, rs1, imm } => seq![' ', 'x'] + dec(rd as nat) + seq![',', ' ', 'x'] + dec(rs1 as nat) + seq![',', ' '] + dec_signed(imm as int),
            Inst::Slti { rd, rs1, imm } => seq![' ', 'x'] + dec(rd as nat) + seq![',', ' ', 'x'] + dec(rs1 as nat) + seq![',', ' '] + dec_signed(imm as int),
            Inst::Sltiu { rd, rs1, imm } => seq![' ', 'x'] + dec(rd as nat) + seq![',', ' ', 'x'] + dec(rs1 as nat) + seq![',', ' '] + dec_signed(imm as int),
            Inst::Xori { rd, rs1, imm } => seq![' ', 'x'] + dec(rd as nat) + seq![',', ' ', 'x'] + dec(rs1 as nat) + seq![',', ' '] + dec_signed(imm as int),
            Inst::Ori { rd, rs1, imm } => seq![' ', 'x'] + dec(rd as nat) + seq![',', ' ', 'x'] + dec(rs1 as nat) + seq![',', ' '] + dec_signed(imm as int),
            Inst::Andi { rd, rs1, imm } => seq![' ', 'x'] + dec(rd as nat) + seq![',', ' ', 'x'] + dec(rs1 as nat) + seq![',', ' '] + dec_signed(imm as int),
            Inst::Lui { rd, imm } => seq![' ', 'x'] + dec(rd as nat) + seq![',', ' '] + hex_prefixed(upper_field(imm)),
            Inst::Auipc { rd, imm } => seq![' ', 'x'] + dec(rd as nat) + seq![',', ' '] + hex_prefixed(upper_field(imm)),
            Inst::Jal { rd, offset } => seq![' ', 'x'] + dec(rd as nat) + seq![',', ' '] + dec_signed(offset as int),
            Inst::Jalr { rd, rs1, offset } => seq![' ', 'x'] + dec(rd as nat) + seq![',', ' '] + dec_signed(offset as int) + seq!['(', 'x'] + dec(rs1 as nat) + seq![')'],
            Inst::Slli { rd, rs1, shamt } => seq![' ', 'x'] + dec(rd as nat) + seq![',', ' ', 'x'] + dec(rs1 as nat) + seq![',', ' '] + hex_prefixed(shamt as nat),
            Inst::Srli { rd, rs1, shamt } => seq![' ', 'x'] + dec(rd as nat) + seq![',', ' ', 'x'] + dec(rs1 as nat) + seq![',', ' '] + hex_prefixed(shamt as nat),
            Inst::Srai { rd, rs1, shamt } => seq![' ', 'x'] + dec(rd as nat) + seq![',', ' ', 'x'] + dec(rs1 as nat) + seq![',', ' '] + hex_prefixed(shamt as nat),
            Inst::Addiw { rd, rs1, imm } => seq![' ', 'x'] + dec(rd as nat) + seq![',', ' ', 'x'] + dec(rs1 as nat) + seq![',', ' '] + dec_signed(imm as int),
            Inst::Slliw { rd, rs1, shamt } => seq![' ', 'x'] + dec(rd as nat) + seq![',', ' ', 'x'] + dec(rs1 as nat) + seq![',', ' '] + hex_prefixed(shamt as nat),
            Inst::Srliw { rd, rs1, shamt } => seq![' ', 'x'] + dec(rd as nat) + seq![',', ' ', 'x'] + dec(rs1 as nat) + seq![',', ' '] + hex_prefixed(shamt as nat),
            Inst::Sraiw { rd, rs1, shamt } => seq![' ', 'x'] + dec(rd as nat) + seq![',', ' ', 'x'] + dec(rs1 as nat) + seq![',', ' '] + hex_prefixed(shamt as nat),
            Inst::Add { rd, rs1, rs2 } => seq![' ', 'x'] + dec(rd as nat) + seq![',', ' ', 'x'] + dec(rs1 as nat) + seq![',', ' ', 'x'] + dec(rs2 as nat),
            Inst::Sub { rd, rs1, rs2 } => seq![' ', 'x'] + dec(rd as nat) + seq![',', ' ', 'x'] + dec(rs1 as nat) + seq![',', ' ', 'x'] + dec(rs2 as nat),
            Inst::Sll { rd, rs1, rs2 } => seq![' ', 'x'] + dec(rd as nat) + seq![',', ' ', 'x'] + dec(rs1 as nat) + seq![',', ' ', 'x'] + dec(rs2 as nat),
            Inst::Slt { rd, rs1, rs2 } => seq![' ', 'x'] + dec(rd as nat) + seq![',', ' ', 'x'] + dec(rs1 as nat) + seq![',', ' ', 'x'] + dec(rs2 as nat),
            Inst::Sltu { rd, rs1, rs2 } => seq![' ', 'x'] + dec(rd as nat) + seq![',', ' ', 'x'] + dec(rs1 as nat) + seq![',', ' ', 'x'] + dec(rs2 as nat),
            Inst::Xor { rd, rs1, rs2 } => seq![' ', 'x'] + dec(rd as nat) + seq![',', ' ', 'x'] + dec(rs1 as nat) + seq![',', ' ', 'x'] + dec(rs2 as nat),
            Inst::Srl { rd, rs1, rs2 } => seq![' ', 'x'] + dec(rd as nat) + seq![',', ' ', 'x'] + dec(rs1 as nat) + seq![',', ' ', 'x'] + dec(rs2 as nat),
            Inst::Sra { rd, rs1, rs2 } => seq![' ', 'x'] + dec(rd as nat) + seq![',', ' ', 'x'] + dec(rs1 as nat) + seq![',', ' ', 'x'] + dec(rs2 as nat),
            Inst::Or { rd, rs1, rs2 } => seq![' ', 'x'] + dec(rd as nat) + seq![',', ' ', 'x'] + dec(rs1 as nat) + seq![',', ' ', 'x'] + dec(rs2 as nat),
            Inst::And { rd, rs1, rs2 } => seq![' ', 'x'] + dec(rd as nat) + seq![',', ' ', 'x'] + dec(rs1 as nat) + seq![',', ' ', 'x'] + dec(rs2 as nat),
            Inst::Addw { rd, rs1, rs2 } => seq![' ', 'x'] + dec(rd as nat) + seq![',', ' ', 'x'] + dec(rs1 as nat) + seq![',', ' ', 'x'] + dec(rs2 as nat),
            Inst::Subw { rd, rs1, rs2 } => seq![' ', 'x'] + dec(rd as nat) + seq![',', ' ', 'x'] + dec(rs1 as nat) + seq![',', ' ', 'x'] + dec(rs2 as nat),
            Inst::Sllw { rd, rs1, rs2 } => seq![' ', 'x'] + dec(rd as nat) + seq![',', ' ', 'x'] + dec(rs1 as nat) + seq![',', ' ', 'x'] + dec(rs2 as nat),
            Inst::Srlw { rd, rs1, rs2 } => seq![' ', 'x'] + dec(rd as nat) + seq![',', ' ', 'x'] + dec(rs1 as nat) + seq![',', ' ', 'x'] + dec(rs2 as nat),
            Inst::Sraw { rd, rs1, rs2 } => seq![' ', 'x'] + dec(rd as nat) + seq![',', ' ', 'x'] + dec(rs1 as nat) + seq![',', ' ', 'x'] + dec(rs2 as nat),
            Inst::Mul { rd, rs1, rs2 } => seq![' ', 'x'] + dec(rd as nat) + seq![',', ' ', 'x'] + dec(rs1 as nat) + seq![',', ' ', 'x'] + dec(rs2 as nat),
            Inst::Mulh { rd, rs1, rs2 } => seq![' ', 'x'] + dec(rd as nat) + seq![',', ' ', 'x'] + dec(rs1 as nat) + seq![',', ' ', 'x'] + dec(rs2 as nat),
            Inst::Mulhsu { rd, rs1, rs2 } => seq![' ', 'x'] + dec(rd as nat) + seq![',', ' ', 'x'] + dec(rs1 as nat) + seq![',', ' ', 'x'] + dec(rs2 as nat),
            Inst::Mulhu { rd, rs1, rs2 } => seq![' ', 'x'] + dec(rd as nat) + seq![',', ' ', 'x'] + dec(rs1 as nat) + seq![',', ' ', 'x'] + dec(rs2 as nat),
            Inst::Mulw { rd, rs1, rs2 } => seq![' ', 'x'] + dec(rd as nat) + seq![',', ' ', 'x'] + dec(rs1 as nat) + seq![',', ' ', 'x'] + dec(rs2 as nat),
            Inst::Div { rd, rs1, rs2 } => seq![' ', 'x'] + dec(rd as nat) + seq![',', ' ', 'x'] + dec(rs1 as nat) + seq![',', ' ', 'x'] + dec(rs2 as nat),
            Inst::Divu { rd, rs1, rs2 } => seq![' ', 'x'] + dec(rd as nat) + seq![',', ' ', 'x'] + dec(rs1 as nat) + seq![',', ' ', 'x'] + dec(rs2 as nat),
            Inst::Rem { rd, rs1, rs2 } => seq![' ', 'x'] + dec(rd as nat) + seq![',', ' ', 'x'] + dec(rs1 as nat) + seq![',', ' ', 'x'] + dec(rs2 as nat),
            Inst::Remu { rd, rs1, rs2 } => seq![' ', 'x'] + dec(rd as nat) + seq![',', ' ', 'x'] + dec(rs1 as nat) + seq![',', ' ', 'x'] + dec(rs2 as nat),
            Inst::Divw { rd, rs1, rs2 } => seq![' ', 'x'] + dec(rd as nat) + seq![',', ' ', 'x'] + dec(rs1 as nat) + seq![',', ' ', 'x'] + dec(rs2 as nat),
            Inst::Divuw { rd, rs1, rs2 } => seq![' ', 'x'] + dec(rd as nat) + seq![',', ' ', 'x'] + dec(rs1 as nat) + seq![',', ' ', 'x'] + dec(rs2 as nat),
            Inst::Remw { rd, rs1, rs2 } => seq![' ', 'x'] + dec(rd as nat) + seq![',', ' ', 'x'] + dec(rs1 as nat) + seq![',', ' ', 'x'] + dec(rs2 as nat),
            Inst::Remuw { rd, rs1, rs2 } => seq![' ', 'x'] + dec(rd as nat) + seq![',', ' ', 'x'] + dec(rs1 as nat) + seq![',', ' ', 'x'] + dec(rs2 as nat),
            Inst::AmoaddW { rd, rs1, rs2 } => seq![' ', 'x'] + dec(rd as nat) + seq![',', ' ', 'x'] + dec(rs2 as nat) + seq![',', ' ', '(', 'x'] + dec(rs1 as nat) + seq![')'],
            Inst::AmoaddD { rd, rs1, rs2 } => seq![' ', 'x'] + dec(rd as nat) + seq![',', ' ', 'x'] + dec(rs2 as nat) + seq![',', ' ', '(', 'x'] + dec(rs1 as nat) + seq![')'],
            Inst::AmoswapW { rd, rs1, rs2 } => seq![' ', 'x'] + dec(rd as nat) + seq![',', ' ', 'x'] + dec(rs2 as nat) + seq![',', ' ', '(', 'x'] + dec(rs1 as nat) + seq![')'],
            Inst::AmoswapD { rd, rs1, rs2 } => seq![' ', 'x'] + dec(rd as nat) + seq![',', ' ', 'x'] + dec(rs2 as nat) + seq![',', ' ', '(', 'x'] + dec(rs1 as nat) + seq![')'],
            Inst::AmoxorW { rd, rs1, rs2 } => seq![' ', 'x'] + dec(rd as nat) + seq![',', ' ', 'x'] + dec(rs2 as nat) + seq![',', ' ', '(', 'x'] + dec(rs1 as nat) + seq![')'],
            Inst::AmoxorD { rd, rs1, rs2 } => seq![' ', 'x'] + dec(rd as nat) + seq![',', ' ', 'x'] + dec(rs2 as nat) + seq![',', ' ', '(', 'x'] + dec(rs1 as nat) + seq![')'],
            Inst::AmoorW { rd, rs1, rs2 } => seq![' ', 'x'] + dec(rd as nat) + seq![',', ' ', 'x'] + dec(rs2 as nat) + seq![',', ' ', '(', 'x'] + dec(rs1 as nat) + seq![')'],
            Inst::AmoorD { rd, rs1, rs2 } => seq![' ', 'x'] + dec(rd as nat) + seq![',', ' ', 'x'] + dec(rs2 as nat) + seq![',', ' ', '(', 'x'] + dec(rs1 as nat) + seq![')'],
            Inst::AmoandW { rd, rs1, rs2 } => seq![' ', 'x'] + dec(rd as nat) + seq![',', ' ', 'x'] + dec(rs2 as nat) + seq![',', ' ', '(', 'x'] + dec(rs1 as nat) + seq![')'],
            Inst::AmoandD { rd, rs1, rs2 } => seq![' ', 'x'] + dec(rd as nat) + seq![',', ' ', 'x'] + dec(rs2 as nat) + seq![',', ' ', '(', 'x'] + dec(rs1 as nat) + seq![')'],
            Inst::AmominW { rd, rs1, rs2 } => seq![' ', 'x'] + dec(rd as nat) + seq![',', ' ', 'x'] + dec(rs2 as nat) + seq![',', ' ', '(', 'x'] + dec(rs1 as nat) + seq![')'],
            Inst::AmominD { rd, rs1, rs2 } => seq![' ', 'x'] + dec(rd as nat) + seq![',', ' ', 'x'] + dec(rs2 as nat) + seq![',', ' ', '(', 'x'] + dec(rs1 as nat) + seq![')'],
            Inst::AmomaxW { rd, rs1, rs2 } => seq![' ', 'x'] + dec(rd as nat) + seq![',', ' ', 'x'] + dec(rs2 as nat) + seq![',', ' ', '(', 'x'] + dec(rs1 as nat) + seq![')'],
            Inst::AmomaxD { rd, rs1, rs2 } => seq![' ', 'x'] + dec(rd as nat) + seq![',', ' ', 'x'] + dec(rs2 as nat) + seq![',', ' ', '(', 'x'] + dec(rs1 as nat) + seq![')'],
            Inst::AmominuW { rd, rs1, rs2 } => seq![' ', 'x'] + dec(rd as nat) + seq![',', ' ', 'x'] + dec(rs2 as nat) + seq![',', ' ', '(', 'x'] + dec(rs1 as nat) + seq![')'],
            Inst::AmominuD { rd, rs1, rs2 } => seq![' ', 'x'] + dec(rd as nat) + seq![',', ' ', 'x'] + dec(rs2 as nat) + seq![',', ' ', '(', 'x'] + dec(rs1 as nat) + seq![')'],
            Inst::AmomaxuW { rd, rs1, rs2 } => seq![' ', 'x'] + dec(rd as nat) + seq![',', ' ', 'x'] + dec(rs2 as nat) + seq![',', ' ', '(', 'x'] + dec(rs1 as nat) + seq![')'],
            Inst::AmomaxuD { rd, rs1, rs2 } => seq![' ', 'x'] + dec(rd as nat) + seq![',', ' ', 'x'] + dec(rs2 as nat) + seq![',', ' ', '(', 'x'] + dec(rs1 as nat) + seq![')'],
            Inst::LrW { rd, rs1 } => seq![' ', 'x'] + dec(rd as nat) + seq![',', ' ', '(', 'x'] + dec(rs1 as nat) + seq![')'],
            Inst::LrD { rd, rs1 } => seq![' ', 'x'] + dec(rd as nat) + seq![',', ' ', '(', 'x'] + dec(rs1 as nat) + seq![')'],
            Inst::ScW { rd, rs1, rs2 } => seq![' ', 'x'] + dec(rd as nat) + seq![',', ' ', 'x'] + dec(rs2 as nat) + seq![',', ' ', '(', 'x'] + dec(rs1 as nat) + seq![')'],
            Inst::ScD { rd, rs1, rs2 } => seq![' ', 'x'] + dec(rd as nat) + seq![',', ' ', 'x'] + dec(rs2 as nat) + seq![',', ' ', '(', 'x'] + dec(rs1 as nat) + seq![')'],
            Inst::Beq { rs1, rs2, offset } => seq![' ', 'x'] + dec(rs1 as nat) + seq![',', ' ', 'x'] + dec(rs2 as nat) + seq![',', ' '] + dec_signed(offset as int),
            Inst::Bne { rs1, rs2, offset } => seq![' ', 'x'] + dec(rs1 as nat) + seq![',', ' ', 'x'] + dec(rs2 as nat) + seq![',', ' '] + dec_signed(offset as int),
            Inst::Blt { rs1, rs2, offset } => seq![' ', 'x'] + dec(rs1 as nat) + seq![',', ' ', 'x'] + dec(rs2 as nat) + seq![',', ' '] + dec_signed(offset as int),
            Inst::Bge { rs1, rs2, offset } => seq![' ', 'x'] + dec(rs1 as nat) + seq![',', ' ', 'x'] + dec(rs2 as nat) + seq![',', ' '] + dec_signed(offset as int),
            Inst::Bltu { rs1, rs2, offset } => seq![' ', 'x'] + dec(rs1 as nat) + seq![',', ' ', 'x'] + dec(rs2 as nat) + seq![',', ' '] + dec_signed(offset as int),
            Inst::Bgeu { rs1, rs2, offset } => seq![' ', 'x'] + dec(rs1 as nat) + seq![',', ' ', 'x'] + dec(rs2 as nat) + seq![',', ' '] + dec_signed(offset as int),
            Inst::Lb { rd, rs1, offset } => seq![' ', 'x'] + dec(rd as nat) + seq![',', ' '] + dec_signed(offset as int) + seq!['(', 'x'] + dec(rs1 as nat) + seq![')'],
            Inst::Lh { rd, rs1, offset } => seq![' ', 'x'] + dec(rd as nat) + seq![',', ' '] + dec_signed(offset as int) + seq!['(', 'x'] + dec(rs1 as nat) + seq![')'],
            Inst::Lw { rd, rs1, offset } => seq![' ', 'x'] + dec(rd as nat) + seq![',', ' '] + dec_signed(offset as int) + seq!['(', 'x'] + dec(rs1 as nat) + seq![')'],
            Inst::Lbu { rd, rs1, offset } => seq![' ', 'x'] + dec(rd as nat) + seq![',', ' '] + dec_signed(offset as int) + seq!['(', 'x'] + dec(rs1 as nat) + seq![')'],
            Inst::Lhu { rd, rs1, offset } => seq![' ', 'x'] + dec(rd as nat) + seq![',', ' '] + dec_signed(offset as int) + seq!['(', 'x'] + dec(rs1 as nat) + seq![')'],
            Inst::Lwu { rd, rs1, offset } => seq![' ', 'x'] + dec(rd as nat) + seq![',', ' '] + dec_signed(offset as int) + seq!['(', 'x'] + dec(rs1 as nat) + seq![')'],
            Inst::Ld { rd, rs1, offset } => seq![' ', 'x'] + dec(rd as nat) + seq![',', ' '] + dec_signed(offset as int) + seq!['(', 'x'] + dec(rs1 as nat) + seq![')'],
            Inst::Sb { rs1, rs2, offset } => seq![' ', 'x'] + dec(rs2 as nat) + seq![',', ' '] + dec_signed(offset as int) + seq!['(', 'x'] + dec(rs1 as nat) + seq![')'],
            Inst::Sh { rs1, rs2, offset } => seq![' ', 'x'] + dec(rs2 as nat) + seq![',', ' '] + dec_signed(offset as int) + seq!['(', 'x'] + dec(rs1 as nat) + seq![')'],
            Inst::Sw { rs1, rs2, offset } => seq![' ', 'x'] + dec(rs2 as nat) + seq![',', ' '] + dec_signed(offset as int) + seq!['(', 'x'] + dec(rs1 as nat) + seq![')'],
            Inst::Sd { rs1, rs2, offset } => seq![' ', 'x'] + dec(rs2 as nat) + seq![',', ' '] + dec_signed(offset as int) + seq!['(', 'x'] + dec(rs1 as nat) + seq![')'],
            Inst::Csrrw { rd, rs1, csr } => seq![' ', 'x'] + dec(rd as nat) + seq![',', ' '] + hex_prefixed(csr as nat) + seq![',', ' ', 'x'] + dec(rs1 as nat),
            Inst::Csrrs { rd, rs1, csr } => seq![' ', 'x'] + dec(rd as nat) + seq![',', ' '] + hex_prefixed(csr as nat) + seq![',', ' ', 'x'] + dec(rs1 as nat),
            Inst::Csrrc { rd, rs1, csr } => seq![' ', 'x'] + dec(rd as nat) + seq![',', ' '] + hex_prefixed(csr as nat) + seq![',', ' ', 'x'] + dec(rs1 as nat),
            Inst::Csrrwi { rd, uimm, csr } => seq![' ', 'x'] + dec(rd as nat) + seq![',', ' '] + hex_prefixed(csr as nat) + seq![',', ' '] + dec(uimm as nat),
            Inst::Csrrsi { rd, uimm, csr } => seq![' ', 'x'] + dec(rd as nat) + seq![',', ' '] + hex_prefixed(csr as nat) + seq![',', ' '] + dec(uimm as nat),
            Inst::Csrrci { rd, uimm, csr } => seq![' ', 'x'] + dec(rd as nat) + seq![',', ' '] + hex_prefixed(csr as nat) + seq![',', ' '] + dec(uimm as nat),
            Inst::Ecall => Seq::<char>::empty(),
            Inst::Ebreak => Seq::<char>::empty(),
            Inst::Fence => Seq::<char>::empty(),
            Inst::FenceI => Seq::<char>::empty(),
            Inst::Mret => Seq::<char>::empty(),
        },
{
    match inst {
        Inst::Addi { rd, rs1, imm } => lemma_fmt_rri_layout("addi"@, rd, rs1, imm),
        Inst::Slti { rd, rs1, imm } => lemma_fmt_rri_layout("slti"@, rd, rs1, imm),
        Inst::Sltiu { rd, rs1, imm } => lemma_fmt_rri_layout("sltiu"@, rd, rs1, imm),
        Inst::Xori { rd, rs1, imm } => lemma_fmt_rri_layout("xori"@, rd, rs1, imm),
        Inst::Ori { rd, rs1, imm } => lemma_fmt_rri_layout("ori"@, rd, rs1, imm),
        Inst::Andi { rd, rs1, imm } => lemma_fmt_rri_layout("andi"@, rd, rs1, imm),
        Inst::Lui { rd, imm } => lemma_fmt_upper_layout("lui"@, rd, imm),
        Inst::Auipc { rd, imm } => lemma_fmt_upper_layout("auipc"@, rd, imm),
        Inst::Jal { rd, offset } => lemma_fmt_jump_layout("jal"@, rd, offset),
        Inst::Jalr { rd, rs1, offset } => lemma_fmt_mem_layout("jalr"@, rd, offset, rs1),
        Inst::Slli { rd, rs1, shamt } => lemma_fmt_shift_layout("slli"@, rd, rs1, shamt),
        Inst::Srli { rd, rs1, shamt } => lemma_fmt_shift_layout("srli"@, rd, rs1, shamt),
        Inst::Srai { rd, rs1, shamt } => lemma_fmt_shift_layout("srai"@, rd, rs1, shamt),
        Inst::Addiw { rd, rs1, imm } => lemma_fmt_rri_layout("addiw"@, rd, rs1, imm),
        Inst::Slliw { rd, rs1, shamt } => lemma_fmt_shift_layout("slliw"@, rd, rs1, shamt),
        Inst::Srliw { rd, rs1, shamt } => lemma_fmt_shift_layout("srliw"@, rd, rs1, shamt),
        Inst::Sraiw { rd, rs1, shamt } => lemma_fmt_shift_layout("sraiw"@, rd, rs1, shamt),
        Inst::Add { rd, rs1, rs2 } => lemma_fmt_rrr_layout("add"@, rd, rs1, rs2),
        Inst::Sub { rd, rs1, rs2 } => lemma_fmt_rrr_layout("sub"@, rd, rs1, rs2),
        Inst::Sll { rd, rs1, rs2 } => lemma_fmt_rrr_layout("sll"@, rd, rs1, rs2),
        Inst::Slt { rd, rs1, rs2 } => lemma_fmt_rrr_layout("slt"@, rd, rs1, rs2),
        Inst::Sltu { rd, rs1, rs2 } => lemma_fmt_rrr_layout("sltu"@, rd, rs1, rs2),
        Inst::Xor { rd, rs1, rs2 } => lemma_fmt_rrr_layout("xor"@, rd, rs1, rs2),
        Inst::Srl { rd, rs1, rs2 } => lemma_fmt_rrr_layout("srl"@, rd, rs1, rs2),
        Inst::Sra { rd, rs1, rs2 } => lemma_fmt_rrr_layout("sra"@, rd, rs1, rs2),
        Inst::Or { rd, rs1, rs2 } => lemma_fmt_rrr_layout("or"@, rd, rs1, rs2),
        Inst::And { rd, rs1, rs2 } => lemma_fmt_rrr_layout("and"@, rd, rs1, rs2),
        Inst::Addw { rd, rs1, rs2 } => lemma_fmt_rrr_layout("addw"@, rd, rs1, rs2),
        Inst::Subw { rd, rs1, rs2 } => lemma_fmt_rrr_layout("subw"@, rd, rs1, rs2),
        Inst::Sllw { rd, rs1, rs2 } => lemma_fmt_rrr_layout("sllw"@, rd, rs1, rs2),
        Inst::Srlw { rd, rs1, rs2 } => lemma_fmt_rrr_layout("srlw"@, rd, rs1, rs2),
        Inst::Sraw { rd, rs1, rs2 } => lemma_fmt_rrr_layout("sraw"@, rd, rs1, rs2),
        Inst::Mul { rd, rs1, rs2 } => lemma_fmt_rrr_layout("mul"@, rd, rs1, rs2),
        Inst::Mulh { rd, rs1, rs2 } => lemma_fmt_rrr_layout("mulh"@, rd, rs1, rs2),
        Inst::Mulhsu { rd, rs1, rs2 } => lemma_fmt_rrr_layout("mulhsu"@, rd, rs1, rs2),
        Inst::Mulhu { rd, rs1, rs2 } => lemma_fmt_rrr_layout("mulhu"@, rd, rs1, rs2),
        Inst::Mulw { rd, rs1, rs2 } => lemma_fmt_rrr_layout("mulw"@, rd, rs1, rs2),
        Inst::Div { rd, rs1, rs2 } => lemma_fmt_rrr_layout("div"@, rd, rs1, rs2),
        Inst::Divu { rd, rs1, rs2 } => lemma_fmt_rrr_layout("divu"@, rd, rs1, rs2),
        Inst::Rem { rd, rs1, rs2 } => lemma_fmt_rrr_layout("rem"@, rd, rs1, rs2),
        Inst::Remu { rd, rs1, rs2 } => lemma_fmt_rrr_layout("remu"@, rd, rs1, rs2),
        Inst::Divw { rd, rs1, rs2 } => lemma_fmt_rrr_layout("divw"@, rd, rs1, rs2),
        Inst::Divuw { rd, rs1, rs2 } => lemma_fmt_rrr_layout("divuw"@, rd, rs1, rs2),
        Inst::Remw { rd, rs1, rs2 } => lemma_fmt_rrr_layout("remw"@, rd, rs1, rs2),
        Inst::Remuw { rd, rs1, rs2 } => lemma_fmt_rrr_layout("remuw"@, rd, rs1, rs2),
        Inst::AmoaddW { rd, rs1, rs2 } => lemma_fmt_amo_layout("amoadd.w"@, rd, rs2, rs1),
        Inst::AmoaddD { rd, rs1, rs2 } => lemma_fmt_amo_layout("amoadd.d"@, rd, rs2, rs1),
        Inst::AmoswapW { rd, rs1, rs2 } => lemma_fmt_amo_layout("amoswap.w"@, rd, rs2, rs1),
        Inst::AmoswapD { rd, rs1, rs2 } => lemma_fmt_amo_layout("amoswap.d"@, rd, rs2, rs1),
        Inst::AmoxorW { rd, rs1, rs2 } => lemma_fmt_amo_layout("amoxor.w"@, rd, rs2, rs1),
        Inst::AmoxorD { rd, rs1, rs2 } => lemma_fmt_amo_layout("amoxor.d"@, rd, rs2, rs1),
        Inst::AmoorW { rd, rs1, rs2 } => lemma_fmt_amo_layout("amoor.w"@, rd, rs2, rs1),
        Inst::AmoorD { rd, rs1, rs2 } => lemma_fmt_amo_layout("amoor.d"@, rd, rs2, rs1),
        Inst::AmoandW { rd, rs1, rs2 } => lemma_fmt_amo_layout("amoand.w"@, rd, rs2, rs1),
        Inst::AmoandD { rd, rs1, rs2 } => lemma_fmt_amo_layout("amoand.d"@, rd, rs2, rs1),
        Inst::AmominW { rd, rs1, rs2 } => lemma_fmt_amo_layout("amomin.w"@, rd, rs2, rs1),
        Inst::AmominD { rd, rs1, rs2 } => lemma_fmt_amo_layout("amomin.d"@, rd, rs2, rs1),
        Inst::AmomaxW { rd, rs1, rs2 } => lemma_fmt_amo_layout("amomax.w"@, rd, rs2, rs1),
        Inst::AmomaxD { rd, rs1, rs2 } => lemma_fmt_amo_layout("amomax.d"@, rd, rs2, rs1),
        Inst::AmominuW { rd, rs1, rs2 } => lemma_fmt_amo_layout("amominu.w"@, rd, rs2, rs1),
        Inst::AmominuD { rd, rs1, rs2 } => lemma_fmt_amo_layout("amominu.d"@, rd, rs2, rs1),
        Inst::AmomaxuW { rd, rs1, rs2 } => lemma_fmt_amo_layout("amomaxu.w"@, rd, rs2, rs1),
        Inst::AmomaxuD { rd, rs1, rs2 } => lemma_fmt_amo_layout("amomaxu.d"@, rd, rs2, rs1),
        Inst::LrW { rd, rs1 } => lemma_fmt_lr_layout("lr.w"@, rd, rs1),
        Inst::LrD { rd, rs1 } => lemma_fmt_lr_layout("lr.d"@, rd, rs1),
        Inst::ScW { rd, rs1, rs2 } => lemma_fmt_amo_layout("sc.w"@, rd, rs2, rs1),
        Inst::ScD { rd, rs1, rs2 } => lemma_fmt_amo_layout("sc.d"@, rd, rs2, rs1),
        Inst::Beq { rs1, rs2, offset } => lemma_fmt_branch_layout("beq"@, rs1, rs2, offset),
        Inst::Bne { rs1, rs2, offset } => lemma_fmt_branch_layout("bne"@, rs1, rs2, offset),
        Inst::Blt { rs1, rs2, offset } => lemma_fmt_branch_layout("blt"@, rs1, rs2, offset),
        Inst::Bge { rs1, rs2, offset } => lemma_fmt_branch_layout("bge"@, rs1, rs2, offset),
        Inst::Bltu { rs1, rs2, offset } => lemma_fmt_branch_layout("bltu"@, rs1, rs2, offset),
        Inst::Bgeu { rs1, rs2, offset } => lemma_fmt_branch_layout("bgeu"@, rs1, rs2, offset),
        Inst::Lb { rd, rs1, offset } => lemma_fmt_mem_layout("lb"@, rd, offset, rs1),
        Inst::Lh { rd, rs1, offset } => lemma_fmt_mem_layout("lh"@, rd, offset, rs1),
        Inst::Lw { rd, rs1, offset } => lemma_fmt_mem_layout("lw"@, rd, offset, rs1),
        Inst::Lbu { rd, rs1, offset } => lemma_fmt_mem_layout("lbu"@, rd, offset, rs1),
        Inst::Lhu { rd, rs1, offset } => lemma_fmt_mem_layout("lhu"@, rd, offset, rs1),
        Inst::Lwu { rd, rs1, offset } => lemma_fmt_mem_layout("lwu"@, rd, offset, rs1),
        Inst::Ld { rd, rs1, offset } => lemma_fmt_mem_layout("ld"@, rd, offset, rs1),
        Inst::Sb { rs1, rs2, offset } => lemma_fmt_mem_layout("sb"@, rs2, offset, rs1),
        Inst::Sh { rs1, rs2, offset } => lemma_fmt_mem_layout("sh"@, rs2, offset, rs1),
        Inst::Sw { rs1, rs2, offset } => lemma_fmt_mem_layout("sw"@, rs2, offset, rs1),
        Inst::Sd { rs1, rs2, offset } => lemma_fmt_mem_layout("sd"@, rs2, offset, rs1),
        Inst::Csrrw { rd, rs1, csr } => lemma_fmt_csr_layout("csrrw"@, rd, csr, rs1),
        Inst::Csrrs { rd, rs1, csr } => lemma_fmt_csr_layout("csrrs"@, rd, csr, rs1),
        Inst::Csrrc { rd, rs1, csr } => lemma_fmt_csr_layout("csrrc"@, rd, csr, rs1),
        Inst::Csrrwi { rd, uimm, csr } => lemma_fmt_csri_layout("csrrwi"@, rd, csr, uimm),
        Inst::Csrrsi { rd, uimm, csr } => lemma_fmt_csri_layout("csrrsi"@, rd, csr, uimm),
        Inst::Csrrci { rd, uimm, csr } => lemma_fmt_csri_layout("csrrci"@, rd, csr, uimm),
        Inst::Ecall => { assert(asm_text(inst) =~= mnemonic(inst) + Seq::<char>::empty()); },
        Inst::Ebreak => { assert(asm_text(inst) =~= mnemonic(inst) + Seq::<char>::empty()); },
        Inst::Fence => { assert(asm_text(inst) =~= mnemonic(inst) + Seq::<char>::empty()); },
        Inst::FenceI => { assert(asm_text(inst) =~= mnemonic(inst) + Seq::<char>::empty()); },
        Inst::Mret => { assert(asm_text(inst) =~= mnemonic(inst) + Seq::<char>::empty()); },
    }

}

/// No mnemonic contains a space.
proof fn lemma_mnemonic_has_no_space(inst: Inst)
    ensures
        forall|i: int| 0 <= i < mnemonic(inst).len() ==> mnemonic(inst)[i] != ' ',
        mnemonic(inst).len() > 0,
{
    match inst {
        Inst::Addi { .. } => reveal_strlit("addi"),
        Inst::Slti { .. } => reveal_strlit("slti"),
        Inst::Sltiu { .. } => reveal_strlit("sltiu"),
        Inst::Xori { .. } => reveal_strlit("xori"),
        Inst::Ori { .. } => reveal_strlit("ori"),
        Inst::Andi { .. } => reveal_strlit("andi"),
        Inst::Lui { .. } => reveal_strlit("lui"),
        Inst::Auipc { .. } => reveal_strlit("auipc"),
        Inst::Jal { .. } => reveal_strlit("jal"),
        Inst::Jalr { .. } => reveal_strlit("jalr"),
        Inst::Slli { .. } => reveal_strlit("slli"),
        Inst::Srli { .. } => reveal_strlit("srli"),
        Inst::Srai { .. } => reveal_strlit("srai"),
        Inst::Addiw { .. } => reveal_strlit("addiw"),
        Inst::Slliw { .. } => reveal_strlit("slliw"),
        Inst::Srliw { .. } => reveal_strlit("srliw"),
        Inst::Sraiw { .. } => reveal_strlit("sraiw"),
        Inst::Add { .. } => reveal_strlit("add"),
        Inst::Sub { .. } => reveal_strlit("sub"),
        Inst::Sll { .. } => reveal_strlit("sll"),
        Inst::Slt { .. } => reveal_strlit("slt"),
        Inst::Sltu { .. } => reveal_strlit("sltu"),
        Inst::Xor { .. } => reveal_strlit("xor"),
        Inst::Srl { .. } => reveal_strlit("srl"),
        Inst::Sra { .. } => reveal_strlit("sra"),
        Inst::Or { .. } => reveal_strlit("or"),
        Inst::And { .. } => reveal_strlit("and"),
        Inst::Addw { .. } => reveal_strlit("addw"),
        Inst::Subw { .. } => reveal_strlit("subw"),
        Inst::Sllw { .. } => reveal_strlit("sllw"),
        Inst::Srlw { .. } => reveal_strlit("srlw"),
        Inst::Sraw { .. } => reveal_strlit("sraw"),
        Inst::Mul { .. } => reveal_strlit("mul"),
        Inst::Mulh { .. } => reveal_strlit("mulh"),
        Inst::Mulhsu { .. } => reveal_strlit("mulhsu"),
        Inst::Mulhu { .. } => reveal_strlit("mulhu"),
        Inst::Mulw { .. } => reveal_strlit("mulw"),
        Inst::Div { .. } => reveal_strlit("div"),
        Inst::Divu { .. } => reveal_strlit("divu"),
        Inst::Rem { .. } => reveal_strlit("rem"),
        Inst::Remu { .. } => reveal_strlit("remu"),
        Inst::Divw { .. } => reveal_strlit("divw"),
        Inst::Divuw { .. } => reveal_strlit("divuw"),
        Inst::Remw { .. } => reveal_strlit("remw"),
        Inst::Remuw { .. } => reveal_strlit("remuw"),
        Inst::AmoaddW { .. } => reveal_strlit("amoadd.w"),
        Inst::AmoaddD { .. } => reveal_strlit("amoadd.d"),
        Inst::AmoswapW { .. } => reveal_strlit("amoswap.w"),
        Inst::AmoswapD { .. } => reveal_strlit("amoswap.d"),
        Inst::AmoxorW { .. } => reveal_strlit("amoxor.w"),
        Inst::AmoxorD { .. } => reveal_strlit("amoxor.d"),
        Inst::AmoorW { .. } => reveal_strlit("amoor.w"),
        Inst::AmoorD { .. } => reveal_strlit("amoor.d"),
        Inst::AmoandW { .. } => reveal_strlit("amoand.w"),
        Inst::AmoandD { .. } => reveal_strlit("amoand.d"),
        Inst::AmominW { .. } => reveal_strlit("amomin.w"),
        Inst::AmominD { .. } => reveal_strlit("amomin.d"),
        Inst::AmomaxW { .. } => reveal_strlit("amomax.w"),
        Inst::AmomaxD { .. } => reveal_strlit("amomax.d"),
        Inst::AmominuW { .. } => reveal_strlit("amominu.w"),
        Inst::AmominuD { .. } => reveal_strlit("amominu.d"),
        Inst::AmomaxuW { .. } => reveal_strlit("amomaxu.w"),
        Inst::AmomaxuD { .. } => reveal_strlit("amomaxu.d"),
        Inst::LrW { .. } => reveal_strlit("lr.w"),
        Inst::LrD { .. } => reveal_strlit("lr.d"),
        Inst::ScW { .. } => reveal_strlit("sc.w"),
        Inst::ScD { .. } => reveal_strlit("sc.d"),
        Inst::Beq { .. } => reveal_strlit("beq"),
        Inst::Bne { .. } => reveal_strlit("bne"),
        Inst::Blt { .. } => reveal_strlit("blt"),
        Inst::Bge { .. } => reveal_strlit("bge"),
        Inst::Bltu { .. } => reveal_strlit("bltu"),
        Inst::Bgeu { .. } => reveal_strlit("bgeu"),
        Inst::Lb { .. } => reveal_strlit("lb"),
        Inst::Lh { .. } => reveal_strlit("lh"),
        Inst::Lw { .. } => reveal_strlit("lw"),
        Inst::Lbu { .. } => reveal_strlit("lbu"),
        Inst::Lhu { .. } => reveal_strlit("lhu"),
        Inst::Lwu { .. } => reveal_strlit("lwu"),
        Inst::Ld { .. } => reveal_strlit("ld"),
        Inst::Sb { .. } => reveal_strlit("sb"),
        Inst::Sh { .. } => reveal_strlit("sh"),
        Inst::Sw { .. } => reveal_strlit("sw"),
        Inst::Sd { .. } => reveal_strlit("sd"),
        Inst::Csrrw { .. } => reveal_strlit("csrrw"),
        Inst::Csrrs { .. } => reveal_strlit("csrrs"),
        Inst::Csrrc { .. } => reveal_strlit("csrrc"),
        Inst::Csrrwi { .. } => reveal_strlit("csrrwi"),
        Inst::Csrrsi { .. } => reveal_strlit("csrrsi"),
        Inst::Csrrci { .. } => reveal_strlit("csrrci"),
        Inst::Ecall => reveal_strlit("ecall"),
        Inst::Ebreak => reveal_strlit("ebreak"),
        Inst::Fence => reveal_strlit("fence"),
        Inst::FenceI => reveal_strlit("fence.i"),
        Inst::Mret => reveal_strlit("mret"),
    }
}

/// The text names the mnemonic: two instructions whose texts are equal have
/// the same mnemonic (so instructions with different mnemonics never print
/// alike, whatever their operands).
pub proof fn law_text_determines_mnemonic(a: Inst, b: Inst)
    requires
        asm_text(a) == asm_text(b),
    ensures
        mnemonic(a) == mnemonic(b),
{
    law_text_starts_with_mnemonic(a);
    law_text_starts_with_mnemonic(b);
    lemma_mnemonic_has_no_space(a);
    lemma_mnemonic_has_no_space(b);
    let t = asm_text(a);
    let (ka, kb) = (mnemonic(a).len() as int, mnemonic(b).len() as int);
    if ka < kb {
        assert(t[ka] == mnemonic(b)[ka]);
    } else if kb < ka {
        assert(t[kb] == mnemonic(a)[kb]);
    }
    assert(mnemonic(a) =~= mnemonic(b)) by {
        assert forall|i: int| 0 <= i < ka implies mnemonic(a)[i] == mnemonic(b)[i] by {
            assert(t.take(ka)[i] == t[i]);
            assert(t.take(kb)[i] == t[i]);
        }
    }
}

/// Every instruction's text begins with its own mnemonic, followed by a
/// space and its operands or by nothing.
pub proof fn law_text_starts_with_mnemonic(inst: Inst)
    ensures
        asm_text(inst).len() >= mnemonic(inst).len(),
        asm_text(inst).take(mnemonic(inst).len() as int) == mnemonic(inst),
        asm_text(inst).len() == mnemonic(inst).len() || asm_text(inst)[mnemonic(inst).len() as int]
            == ' ',
{
    match inst {
        Inst::Addi { rd, rs1, imm } => lemma_fmt_rri_begins("addi"@, rd, rs1, imm),
        Inst::Slti { rd, rs1, imm } => lemma_fmt_rri_begins("slti"@, rd, rs1, imm),
        Inst::Sltiu { rd, rs1, imm } => lemma_fmt_rri_begins("sltiu"@, rd, rs1, imm),
        Inst::Xori { rd, rs1, imm } => lemma_fmt_rri_begins("xori"@, rd, rs1, imm),
        Inst::Ori { rd, rs1, imm } => lemma_fmt_rri_begins("ori"@, rd, rs1, imm),
        Inst::Andi { rd, rs1, imm } => lemma_fmt_rri_begins("andi"@, rd, rs1, imm),
        Inst::Lui { rd, imm } => lemma_fmt_upper_begins("lui"@, rd, imm),
        Inst::Auipc { rd, imm } => lemma_fmt_upper_begins("auipc"@, rd, imm),
        Inst::Jal { rd, offset } => lemma_fmt_jump_begins("jal"@, rd, offset),
        Inst::Jalr { rd, rs1, offset } => lemma_fmt_mem_begins("jalr"@, rd, offset, rs1),
        Inst::Slli { rd, rs1, shamt } => lemma_fmt_shift_begins("slli"@, rd, rs1, shamt),
        Inst::Srli { rd, rs1, shamt } => lemma_fmt_shift_begins("srli"@, rd, rs1, shamt),
        Inst::Srai { rd, rs1, shamt } => lemma_fmt_shift_begins("srai"@, rd, rs1, shamt),
        Inst::Addiw { rd, rs1, imm } => lemma_fmt_rri_begins("addiw"@, rd, rs1, imm),
        Inst::Slliw { rd, rs1, shamt } => lemma_fmt_shift_begins("slliw"@, rd, rs1, shamt),
        Inst::Srliw { rd, rs1, shamt } => lemma_fmt_shift_begins("srliw"@, rd, rs1, shamt),
        Inst::Sraiw { rd, rs1, shamt } => lemma_fmt_shift_begins("sraiw"@, rd, rs1, shamt),
        Inst::Add { rd, rs1, rs2 } => lemma_fmt_rrr_begins("add"@, rd, rs1, rs2),
        Inst::Sub { rd, rs1, rs2 } => lemma_fmt_rrr_begins("sub"@, rd, rs1, rs2),
        Inst::Sll { rd, rs1, rs2 } => lemma_fmt_rrr_begins("sll"@, rd, rs1, rs2),
        Inst::Slt { rd, rs1, rs2 } => lemma_fmt_rrr_begins("slt"@, rd, rs1, rs2),
        Inst::Sltu { rd, rs1, rs2 } => lemma_fmt_rrr_begins("sltu"@, rd, rs1, rs2),
        Inst::Xor { rd, rs1, rs2 } => lemma_fmt_rrr_begins("xor"@, rd, rs1, rs2),
        Inst::Srl { rd, rs1, rs2 } => lemma_fmt_rrr_begins("srl"@, rd, rs1, rs2),
        Inst::Sra { rd, rs1, rs2 } => lemma_fmt_rrr_begins("sra"@, rd, rs1, rs2),
        Inst::Or { rd, rs1, rs2 } => lemma_fmt_rrr_begins("or"@, rd, rs1, rs2),
        Inst::And { rd, rs1, rs2 } => lemma_fmt_rrr_begins("and"@, rd, rs1, rs2),
        Inst::Addw { rd, rs1, rs2 } => lemma_fmt_rrr_begins("addw"@, rd, rs1, rs2),
        Inst::Subw { rd, rs1, rs2 } => lemma_fmt_rrr_begins("subw"@, rd, rs1, rs2),
        Inst::Sllw { rd, rs1, rs2 } => lemma_fmt_rrr_begins("sllw"@, rd, rs1, rs2),
        Inst::Srlw { rd, rs1, rs2 } => lemma_fmt_rrr_begins("srlw"@, rd, rs1, rs2),
        Inst::Sraw { rd, rs1, rs2 } => lemma_fmt_rrr_begins("sraw"@, rd, rs1, rs2),
        Inst::Mul { rd, rs1, rs2 } => lemma_fmt_rrr_begins("mul"@, rd, rs1, rs2),
        Inst::Mulh { rd, rs1, rs2 } => lemma_fmt_rrr_begins("mulh"@, rd, rs1, rs2),
        Inst::Mulhsu { rd, rs1, rs2 } => lemma_fmt_rrr_begins("mulhsu"@, rd, rs1, rs2),
        Inst::Mulhu { rd, rs1, rs2 } => lemma_fmt_rrr_begins("mulhu"@, rd, rs1, rs2),
        Inst::Mulw { rd, rs1, rs2 } => lemma_fmt_rrr_begins("mulw"@, rd, rs1, rs2),
        Inst::Div { rd, rs1, rs2 } => lemma_fmt_rrr_begins("div"@, rd, rs1, rs2),
        Inst::Divu { rd, rs1, rs2 } => lemma_fmt_rrr_begins("divu"@, rd, rs1, rs2),
        Inst::Rem { rd, rs1, rs2 } => lemma_fmt_rrr_begins("rem"@, rd, rs1, rs2),
        Inst::Remu { rd, rs1, rs2 } => lemma_fmt_rrr_begins("remu"@, rd, rs1, rs2),
        Inst::Divw { rd, rs1, rs2 } => lemma_fmt_rrr_begins("divw"@, rd, rs1, rs2),
        Inst::Divuw { rd, rs1, rs2 } => lemma_fmt_rrr_begins("divuw"@, rd, rs1, rs2),
        Inst::Remw { rd, rs1, rs2 } => lemma_fmt_rrr_begins("remw"@, rd, rs1, rs2),
        Inst::Remuw { rd, rs1, rs2 } => lemma_fmt_rrr_begins("remuw"@, rd, rs1, rs2),
        Inst::AmoaddW { rd, rs1, rs2 } => lemma_fmt_amo_begins("amoadd.w"@, rd, rs2, rs1),
        Inst::AmoaddD { rd, rs1, rs2 } => lemma_fmt_amo_begins("amoadd.d"@, rd, rs2, rs1),
        Inst::AmoswapW { rd, rs1, rs2 } => lemma_fmt_amo_begins("amoswap.w"@, rd, rs2, rs1),
        Inst::AmoswapD { rd, rs1, rs2 } => lemma_fmt_amo_begins("amoswap.d"@, rd, rs2, rs1),
        Inst::AmoxorW { rd, rs1, rs2 } => lemma_fmt_amo_begins("amoxor.w"@, rd, rs2, rs1),
        Inst::AmoxorD { rd, rs1, rs2 } => lemma_fmt_amo_begins("amoxor.d"@, rd, rs2, rs1),
        Inst::AmoorW { rd, rs1, rs2 } => lemma_fmt_amo_begins("amoor.w"@, rd, rs2, rs1),
        Inst::AmoorD { rd, rs1, rs2 } => lemma_fmt_amo_begins("amoor.d"@, rd, rs2, rs1),
        Inst::AmoandW { rd, rs1, rs2 } => lemma_fmt_amo_begins("amoand.w"@, rd, rs2, rs1),
        Inst::AmoandD { rd, rs1, rs2 } => lemma_fmt_amo_begins("amoand.d"@, rd, rs2, rs1),
        Inst::AmominW { rd, rs1, rs2 } => lemma_fmt_amo_begins("amomin.w"@, rd, rs2, rs1),
        Inst::AmominD { rd, rs1, rs2 } => lemma_fmt_amo_begins("amomin.d"@, rd, rs2, rs1),
        Inst::AmomaxW { rd, rs1, rs2 } => lemma_fmt_amo_begins("amomax.w"@, rd, rs2, rs1),
        Inst::AmomaxD { rd, rs1, rs2 } => lemma_fmt_amo_begins("amomax.d"@, rd, rs2, rs1),
        Inst::AmominuW { rd, rs1, rs2 } => lemma_fmt_amo_begins("amominu.w"@, rd, rs2, rs1),
        Inst::AmominuD { rd, rs1, rs2 } => lemma_fmt_amo_begins("amominu.d"@, rd, rs2, rs1),
        Inst::AmomaxuW { rd, rs1, rs2 } => lemma_fmt_amo_begins("amomaxu.w"@, rd, rs2, rs1),
        Inst::AmomaxuD { rd, rs1, rs2 } => lemma_fmt_amo_begins("amomaxu.d"@, rd, rs2, rs1),
        Inst::LrW { rd, rs1 } => lemma_fmt_lr_begins("lr.w"@, rd, rs1),
        Inst::LrD { rd, rs1 } => lemma_fmt_lr_begins("lr.d"@, rd, rs1),
        Inst::ScW { rd, rs1, rs2 } => lemma_fmt_amo_begins("sc.w"@, rd, rs2, rs1),
        Inst::ScD { rd, rs1, rs2 } => lemma_fmt_amo_begins("sc.d"@, rd, rs2, rs1),
        Inst::Beq { rs1, rs2, offset } => lemma_fmt_branch_begins("beq"@, rs1, rs2, offset),
        Inst::Bne { rs1, rs2, offset } => lemma_fmt_branch_begins("bne"@, rs1, rs2, offset),
        Inst::Blt { rs1, rs2, offset } => lemma_fmt_branch_begins("blt"@, rs1, rs2, offset),
        Inst::Bge { rs1, rs2, offset } => lemma_fmt_branch_begins("bge"@, rs1, rs2, offset),
        Inst::Bltu { rs1, rs2, offset } => lemma_fmt_branch_begins("bltu"@, rs1, rs2, offset),
        Inst::Bgeu { rs1, rs2, offset } => lemma_fmt_branch_begins("bgeu"@, rs1, rs2, offset),
        Inst::Lb { rd, rs1, offset } => lemma_fmt_mem_begins("lb"@, rd, offset, rs1),
        Inst::Lh { rd, rs1, offset } => lemma_fmt_mem_begins("lh"@, rd, offset, rs1),
        Inst::Lw { rd, rs1, offset } => lemma_fmt_mem_begins("lw"@, rd, offset, rs1),
        Inst::Lbu { rd, rs1, offset } => lemma_fmt_mem_begins("lbu"@, rd, offset, rs1),
        Inst::Lhu { rd, rs1, offset } => lemma_fmt_mem_begins("lhu"@, rd, offset, rs1),
        Inst::Lwu { rd, rs1, offset } => lemma_fmt_mem_begins("lwu"@, rd, offset, rs1),
        Inst::Ld { rd, rs1, offset } => lemma_fmt_mem_begins("ld"@, rd, offset, rs1),
        Inst::Sb { rs1, rs2, offset } => lemma_fmt_mem_begins("sb"@, rs2, offset, rs1),
        Inst::Sh { rs1, rs2, offset } => lemma_fmt_mem_begins("sh"@, rs2, offset, rs1),
        Inst::Sw { rs1, rs2, offset } => lemma_fmt_mem_begins("sw"@, rs2, offset, rs1),
        Inst::Sd { rs1, rs2, offset } => lemma_fmt_mem_begins("sd"@, rs2, offset, rs1),
        Inst::Csrrw { rd, rs1, csr } => lemma_fmt_csr_begins("csrrw"@, rd, csr, rs1),
        Inst::Csrrs { rd, rs1, csr } => lemma_fmt_csr_begins("csrrs"@, rd, csr, rs1),
        Inst::Csrrc { rd, rs1, csr } => lemma_fmt_csr_begins("csrrc"@, rd, csr, rs1),
        Inst::Csrrwi { rd, uimm, csr } => lemma_fmt_csri_begins("csrrwi"@, rd, csr, uimm),
        Inst::Csrrsi { rd, uimm, csr } => lemma_fmt_csri_begins("csrrsi"@, rd, csr, uimm),
        Inst::Csrrci { rd, uimm, csr } => lemma_fmt_csri_begins("csrrci"@, rd, csr, uimm),
        Inst::Ecall => {},
        Inst::Ebreak => {},
        Inst::Fence => {},
        Inst::FenceI => {},
        Inst::Mret => {},
    }
    if asm_text(inst).len() == mnemonic(inst).len() {
        assert(asm_text(inst).take(mnemonic(inst).len() as int) =~= mnemonic(inst));
    }
}

// --- Exceptions and outcomes ---------------------------------------------------------

/// An exception, as the run loops report it.
pub open spec fn exception_text(e: Exception) -> Seq<char> {
    match e {
        Exception::Breakpoint => "breakpoint"@,
        Exception::IllegalInstruction(raw) => "illegal instruction "@ + hex_padded8(raw as nat),
        Exception::LoadAccessFault(addr) => "load access fault at "@ + hex_prefixed(addr as nat),
        Exception::StoreAmoAccessFault(addr) => "store/AMO access fault at "@ + hex_prefixed(
            addr as nat,
        ),
        Exception::EnvironmentCallFromMMode => "environment call from M-mode"@,
    }
}

/// "exception at PC: E"
pub open spec fn escaped_text(pc: u64, e: Exception) -> Seq<char> {
    "exception at "@ + hex_prefixed(pc as nat) + ": "@ + exception_text(e)
}

/// How a riscv-tests run ended, in words.
pub open spec fn test_outcome_text(o: TestOutcome) -> Seq<char> {
    match o {
        TestOutcome::Pass => "PASS"@,
        TestOutcome::Fail { testnum } => "FAIL (test case "@ + dec(testnum as nat) + ")"@,
        TestOutcome::Exception { pc, e } => escaped_text(pc, e),
        TestOutcome::StepLimit => "step limit exhausted before tohost was written"@,
    }
}

/// How a Linux-mode run ended, in words.
pub open spec fn linux_outcome_text(o: LinuxOutcome) -> Seq<char> {
    match o {
        LinuxOutcome::Exited(code) => "exited with code "@ + dec_signed(code as int),
        LinuxOutcome::Exception { pc, e } => escaped_text(pc, e),
        LinuxOutcome::UnknownSyscall { pc, a7 } => "unknown syscall "@ + dec(a7 as nat) + " at "@
            + hex_prefixed(pc as nat),
        LinuxOutcome::StepLimit => "step limit exhausted"@,
    }
}

fn push_exception(s: &mut String, e: &Exception)
    ensures
        final(s)@ == old(s)@ + exception_text(*e),
{
    match e {
        Exception::Breakpoint => s.append("breakpoint"),
        Exception::IllegalInstruction(raw) => {
            s.append("illegal instruction ");
            push_hex_padded8(s, *raw);
        },
        Exception::LoadAccessFault(addr) => {
            s.append("load access fault at ");
            push_hex(s, *addr);
        },
        Exception::StoreAmoAccessFault(addr) => {
            s.append("store/AMO access fault at ");
            push_hex(s, *addr);
        },
        Exception::EnvironmentCallFromMMode => s.append("environment call from M-mode"),
    }
    assert(s@ =~= old(s)@ + exception_text(*e));
}

fn push_escaped(s: &mut String, pc: u64, e: &Exception)
    ensures
        final(s)@ == old(s)@ + escaped_text(pc, *e),
{
    s.append("exception at ");
    push_hex(s, pc);
    s.append(": ");
    push_exception(s, e);
    assert(s@ =~= old(s)@ + escaped_text(pc, *e));
}

impl Exception {
    /// The exception in words.
    pub fn to_text(&self) -> (r: String)
        ensures
            r@ == exception_text(*self),
    {
        let mut s = String::new();
        push_exception(&mut s, self);
        assert(s@ =~= exception_text(*self));
        s
    }
}

impl TestOutcome {
    /// The outcome in words.
    pub fn to_text(&self) -> (r: String)
        ensures
            r@ == test_outcome_text(*self),
    {
        let mut s = String::new();
        match self {
            TestOutcome::Pass => s.append("PASS"),
            TestOutcome::Fail { testnum } => {
                s.append("FAIL (test case ");
                push_dec(&mut s, *testnum);
                s.append(")");
            },
            TestOutcome::Exception { pc, e } => push_escaped(&mut s, *pc, e),
            TestOutcome::StepLimit => s.append("step limit exhausted before tohost was written"),
        }
        assert(s@ =~= test_outcome_text(*self));
        s
    }
}

impl LinuxOutcome {
    /// The outcome in words.
    pub fn to_text(&self) -> (r: String)
        ensures
            r@ == linux_outcome_text(*self),
    {
        let mut s = String::new();
        match self {
            LinuxOutcome::Exited(code) => {
                s.append("exited with code ");
                push_dec_signed(&mut s, *code);
            },
            LinuxOutcome::Exception { pc, e } => push_escaped(&mut s, *pc, e),
            LinuxOutcome::UnknownSyscall { pc, a7 } => {
                s.append("unknown syscall ");
                push_dec(&mut s, *a7);
                s.append(" at ");
                push_hex(&mut s, *pc);
            },
            LinuxOutcome::StepLimit => s.append("step limit exhausted"),
        }
        assert(s@ =~= linux_outcome_text(*self));
        s
    }
}

// --- Trace and comparison lines ---------------------------------------------------------

/// `d` with zeros in front up to `width` characters.
pub open spec fn zero_padded(d: Seq<char>, width: nat) -> Seq<char> {
    Seq::new(if d.len() < width {
        (width - d.len()) as nat
    } else {
        0
    }, |i: int| '0') + d
}

/// `t` with spaces after it up to `width` characters.
pub open spec fn space_padded(t: Seq<char>, width: nat) -> Seq<char> {
    t + Seq::new(if t.len() < width {
        (width - t.len()) as nat
    } else {
        0
    }, |i: int| ' ')
}

/// `{:0W$x}`: lowercase hex digits, zero-padded to `width`.
pub open spec fn hex_zero_padded(n: nat, width: nat) -> Seq<char> {
    zero_padded(digits(n, 16), width)
}

/// Append `{:0W$x}` of `n` (W = `width`).
pub fn push_hex_width(s: &mut String, n: u64, width: usize)
    ensures
        final(s)@ == old(s)@ + hex_zero_padded(n as nat, width as nat),
{
    let mut d = String::new();
    push_digits(&mut d, n, 16);
    assert(d@ =~= digits(n as nat, 16));
    let len = d.as_str().unicode_len();
    let ghost s1 = s@;
    let mut pad: usize = len;
    while pad < width
        invariant
            len <= pad,
            pad <= width || pad == len,
            s@ == s1 + Seq::new((pad - len) as nat, |i: int| '0'),
        decreases width - pad,
    {
        push_char(s, '0');
        assert(s1 + Seq::new((pad + 1 - len) as nat, |i: int| '0') =~= s1 + Seq::new(
            (pad - len) as nat,
            |i: int| '0',
        ).push('0'));
        pad = pad + 1;
    }
    let ghost zeros = s@;
    s.append(d.as_str());
    if len < width {
        assert(zeros == s1 + Seq::new((width - len) as nat, |i: int| '0'));
    } else {
        assert(zeros =~= s1 + Seq::new(0, |i: int| '0'));
    }
    assert(old(s)@ + hex_zero_padded(n as nat, width as nat) =~= zeros + d@);
}

/// Append `{:#0W$x}`: "0x", then the digits zero-padded to `width` - 2.
pub fn push_hex_prefixed_width(s: &mut String, n: u64, width: usize)
    requires
        width >= 2,
    ensures
        final(s)@ == old(s)@ + seq!['0', 'x'] + hex_zero_padded(n as nat, (width - 2) as nat),
{
    push_char(s, '0');
    push_char(s, 'x');
    push_hex_width(s, n, width - 2);
    assert(old(s)@.push('0').push('x') =~= old(s)@ + seq!['0', 'x']);
}

/// Append `t` and spaces after it up to `width` characters.
fn push_space_padded(s: &mut String, t: &String, width: usize)
    ensures
        final(s)@ == old(s)@ + space_padded(t@, width as nat),
{
    s.append(t.as_str());
    let len = t.as_str().unicode_len();
    let ghost s1 = s@;
    let mut pad: usize = len;
    while pad < width
        invariant
            len <= pad,
            pad <= width || pad == len,
            s@ == s1 + Seq::new((pad - len) as nat, |i: int| ' '),
        decreases width - pad,
    {
        push_char(s, ' ');
        assert(s1 + Seq::new((pad + 1 - len) as nat, |i: int| ' ') =~= s1 + Seq::new(
            (pad - len) as nat,
            |i: int| ' ',
        ).push(' '));
        pad = pad + 1;
    }
    if len < width {
        assert(s@ == s1 + Seq::new((width - len) as nat, |i: int| ' '));
    } else {
        assert(s@ =~= s1 + Seq::new(0, |i: int| ' '));
    }
    assert(old(s)@ + space_padded(t@, width as nat) =~= s@);
}

/// `{:#010x}`: "0x" and at least 8 hex digits.
pub open spec fn addr_text(n: u64) -> Seq<char> {
    seq!['0', 'x'] + hex_zero_padded(n as nat, 8)
}

/// How a raw word reads in a trace: its assembly, or a note that it does
/// not decode.
pub open spec fn disasm_text(raw: u32) -> Seq<char> {
    match decode_spec(raw) {
        Ok(inst) => asm_text(inst),
        Err(_) => "(not decodable by us)"@,
    }
}

/// One log event as a context line of a divergence report: a commit with
/// its disassembly and register write, or a trap with its cause and tval.
pub open spec fn event_text(ev: EventView) -> Seq<char> {
    match ev {
        EventView::Commit { pc, raw, write } => "  "@ + addr_text(pc) + ": "@ + hex_zero_padded(
            raw as nat,
            8,
        ) + "  "@ + space_padded(disasm_text(raw), 24) + match write {
            Some((rd, v)) => "  x"@ + dec(rd as nat) + " <- "@ + hex_prefixed(v as nat),
            None => Seq::empty(),
        },
        EventView::Trap { epc, cause, tval } => "  "@ + addr_text(epc) + ": --------  ["@ + cause
            + match tval {
            Some(t) => ", tval "@ + hex_prefixed(t as nat),
            None => Seq::empty(),
        } + "]"@,
    }
}

/// One executed instruction in a trace: its address, raw word and assembly.
pub open spec fn trace_text(pc: u64, raw: u32, inst: Inst) -> Seq<char> {
    addr_text(pc) + ": "@ + hex_zero_padded(raw as nat, 8) + "  "@ + asm_text(inst)
}

/// A trace line for the instruction `inst`, read as `raw` at `pc`.
pub fn trace_line(pc: u64, raw: u32, inst: &Inst) -> (r: String)
    ensures
        r@ == trace_text(pc, raw, *inst),
{
    let mut s = String::new();
    push_hex_prefixed_width(&mut s, pc, 10);
    s.append(": ");
    push_hex_width(&mut s, raw as u64, 8);
    s.append("  ");
    let a = inst.to_text();
    s.append(a.as_str());
    assert(s@ =~= trace_text(pc, raw, *inst));
    s
}

impl Event {
    /// The event as a context line of a divergence report.
    pub fn to_text(&self) -> (r: String)
        ensures
            r@ == event_text(self@),
    {
        let mut s = String::new();
        s.append("  ");
        match self {
            Event::Commit { pc, raw, write } => {
                push_hex_prefixed_width(&mut s, *pc, 10);
                s.append(": ");
                push_hex_width(&mut s, *raw as u64, 8);
                s.append("  ");
                let disasm = match decode(*raw) {
                    Ok(inst) => inst.to_text(),
                    Err(_) => {
                        let mut t = String::new();
                        t.append("(not decodable by us)");
                        t
                    },
                };
                push_space_padded(&mut s, &disasm, 24);
                match write {
                    Some((rd, v)) => {
                        s.append("  x");
                        push_dec(&mut s, *rd as u64);
                        s.append(" <- ");
                        push_hex(&mut s, *v);
                    },
                    None => {},
                }
            },
            Event::Trap { epc, cause, tval } => {
                push_hex_prefixed_width(&mut s, *epc, 10);
                s.append(": --------  [");
                s.append(cause.as_str());
                match tval {
                    Some(t) => {
                        s.append(", tval ");
                        push_hex(&mut s, *t);
                    },
                    None => {},
                }
                s.append("]");
            },
        }
        assert(s@ =~= event_text(self@));
        s
    }
}

/// What a divergence report says about the disagreement.
pub open spec fn divergence_text(d: Divergence) -> Seq<char> {
    match d {
        Divergence::Pc { spike, ours } => "pc mismatch: spike is at "@ + hex_prefixed(spike as nat)
            + ", we are at "@ + hex_prefixed(ours as nat),
        Divergence::Reg { rd, spike, ours } => "x"@ + dec(rd as nat) + " mismatch: spike has "@
            + seq!['0', 'x'] + hex_zero_padded(spike as nat, 16) + ", we have "@ + seq!['0', 'x']
            + hex_zero_padded(ours as nat, 16),
        Divergence::OurException(e) => "spike retired this instruction, but we raised: "@
            + exception_text(e),
    }
}

impl Divergence {
    /// The disagreement in words.
    pub fn to_text(&self) -> (r: String)
        ensures
            r@ == divergence_text(*self),
    {
        let mut s = String::new();
        match self {
            Divergence::Pc { spike, ours } => {
                s.append("pc mismatch: spike is at ");
                push_hex(&mut s, *spike);
                s.append(", we are at ");
                push_hex(&mut s, *ours);
            },
            Divergence::Reg { rd, spike, ours } => {
                s.append("x");
                push_dec(&mut s, *rd as u64);
                s.append(" mismatch: spike has ");
                push_hex_prefixed_width(&mut s, *spike, 18);
                s.append(", we have ");
                push_hex_prefixed_width(&mut s, *ours, 18);
            },
            Divergence::OurException(e) => {
                s.append("spike retired this instruction, but we raised: ");
                push_exception(&mut s, e);
            },
        }
        assert(s@ =~= divergence_text(*self));
        s
    }
}

} // verus!
