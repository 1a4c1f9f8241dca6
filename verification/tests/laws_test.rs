//! The laws the library proves, each checked on concrete values.

use riscv_emulator::bus::DRAM_BASE;
use riscv_emulator::cpu::{Cpu, MEPC, MTVEC};
use riscv_emulator::exception::Exception;
use riscv_emulator::inst::{decode, decode_compressed, Inst};

fn cpu_with_program(words: &[u32]) -> Cpu {
    let mut cpu = Cpu::new();
    for (i, w) in words.iter().enumerate() {
        cpu.bus.store32(DRAM_BASE + 4 * i as u64, *w).unwrap();
    }
    cpu.pc = DRAM_BASE;
    cpu
}

/// Run one R-type instruction on a11 = x, a12 = y; return a14.
fn run_op(raw: u32, x: u64, y: u64) -> u64 {
    let mut cpu = cpu_with_program(&[raw]);
    cpu.regs[11] = x;
    cpu.regs[12] = y;
    cpu.step().unwrap();
    cpu.regs[14]
}

const DIV: u32 = 0x02c5c733;
const DIVU: u32 = 0x02c5d733;
const REM: u32 = 0x02c5e733;
const REMU: u32 = 0x02c5f733;
const MUL: u32 = 0x02c58733;
const MULH: u32 = 0x02c59733;
const MULHSU: u32 = 0x02c5a733;
const MULHU: u32 = 0x02c5b733;

const SAMPLES: [u64; 8] = [
    0,
    1,
    7,
    u64::MAX,
    i64::MIN as u64,
    (-7i64) as u64,
    0x1234_5678_9abc_def0,
    0x8000_0000,
];

#[test]
fn quotient_times_divisor_plus_remainder_is_the_dividend() {
    for &x in SAMPLES.iter() {
        for &y in SAMPLES.iter() {
            let (q, r) = (run_op(DIV, x, y), run_op(REM, x, y));
            assert_eq!(q.wrapping_mul(y).wrapping_add(r), x, "signed {x:#x} / {y:#x}");
            let (qu, ru) = (run_op(DIVU, x, y), run_op(REMU, x, y));
            assert_eq!(qu.wrapping_mul(y).wrapping_add(ru), x, "unsigned {x:#x} / {y:#x}");
            if y != 0 {
                assert!(ru < y);
                let (sr, sx) = (r as i64, x as i64);
                assert!(sr == 0 || (sr < 0) == (sx < 0), "remainder takes the dividend's sign");
            }
        }
    }
}

#[test]
fn mul_halves_rebuild_the_128_bit_products() {
    for &x in SAMPLES.iter() {
        for &y in SAMPLES.iter() {
            let lo = run_op(MUL, x, y);
            let ss = (x as i64 as i128) * (y as i64 as i128);
            assert_eq!(((run_op(MULH, x, y) as i64 as i128) << 64) + lo as i128, ss);
            let uu = (x as u128) * (y as u128);
            assert_eq!(((run_op(MULHU, x, y) as u128) << 64) + lo as u128, uu);
            let su = (x as i64 as i128) * (y as i128);
            assert_eq!(((run_op(MULHSU, x, y) as i64 as i128) << 64) + lo as i128, su);
        }
    }
}

#[test]
fn word_results_are_sign_extended() {
    // addw, subw, mulw, divw, divuw, remw, remuw, sllw, srlw, sraw a4, a1, a2
    let word_ops = [
        0x00c5873b, 0x40c5873b, 0x02c5873b, 0x02c5c73b, 0x02c5d73b, 0x02c5e73b, 0x02c5f73b,
        0x00c5973b, 0x00c5d73b, 0x40c5d73b,
    ];
    for &raw in word_ops.iter() {
        for &x in SAMPLES.iter() {
            for &y in SAMPLES.iter() {
                let r = run_op(raw, x, y);
                assert_eq!(r, r as i32 as i64 as u64, "{raw:#x} on {x:#x}, {y:#x}");
            }
        }
    }
}

#[test]
fn x0_reads_zero_after_every_kind_of_write() {
    // lui x0, 0x12345; addi x0, x0, 1; jal x0, 4; csrrw x0, mscratch, x1
    let mut cpu = cpu_with_program(&[0x12345037, 0x00100013, 0x0040006f, 0x34009073]);
    cpu.regs[1] = 99;
    for _ in 0..4 {
        cpu.step().unwrap();
        assert_eq!(cpu.regs[0], 0);
    }
}

#[test]
fn a_store_fault_commits_nothing() {
    // sd x1, 0(x2) with x2 = 8: outside memory.
    let mut cpu = cpu_with_program(&[0x00113023]);
    cpu.regs[1] = 5;
    cpu.regs[2] = 8;
    let before = cpu.regs;
    assert_eq!(cpu.step(), Err(Exception::StoreAmoAccessFault(8)));
    assert_eq!(cpu.pc, DRAM_BASE);
    assert_eq!(cpu.regs, before);
}

#[test]
fn a_faulting_sc_still_consumes_the_reservation() {
    // sc.w a4, a5, (a0) at address 0, reserved: the store faults.
    let mut cpu = cpu_with_program(&[0x18f5272f]);
    cpu.regs[10] = 0;
    cpu.reservation = Some(0);
    assert_eq!(cpu.step(), Err(Exception::StoreAmoAccessFault(0)));
    assert_eq!(cpu.reservation, None);
    assert_eq!(cpu.pc, DRAM_BASE);
}

#[test]
fn lr_then_sc_on_the_same_address_succeeds() {
    // lr.d a4, (a0); sc.d a4, a5, (a0)
    let mut cpu = cpu_with_program(&[0x1005372f, 0x18f5372f]);
    cpu.regs[10] = DRAM_BASE + 0x200;
    cpu.regs[15] = 0xdead_beef_0000_0001;
    cpu.step().unwrap();
    assert_eq!(cpu.reservation, Some(DRAM_BASE + 0x200));
    cpu.step().unwrap();
    assert_eq!(cpu.regs[14], 0);
    assert_eq!(cpu.bus.load64(DRAM_BASE + 0x200).unwrap(), 0xdead_beef_0000_0001);
}

#[test]
fn trap_then_mret_returns_to_the_trapping_instruction() {
    // ecall at DRAM_BASE; the handler at +0x40 is a bare mret.
    let mut cpu = cpu_with_program(&[0x00000073]);
    cpu.bus.store32(DRAM_BASE + 0x40, 0x30200073).unwrap();
    cpu.csrs[MTVEC] = DRAM_BASE + 0x41; // mode bits are masked off
    cpu.step().unwrap();
    assert_eq!(cpu.pc, DRAM_BASE + 0x40);
    assert_eq!(cpu.csrs[MEPC], DRAM_BASE);
    cpu.step().unwrap();
    assert_eq!(cpu.pc, DRAM_BASE);
}

#[test]
fn jalr_never_lands_on_an_odd_address() {
    // jalr x0, 3(x1)
    let mut cpu = cpu_with_program(&[0x00308067]);
    cpu.regs[1] = DRAM_BASE + 0x10;
    cpu.step().unwrap();
    assert_eq!(cpu.pc, DRAM_BASE + 0x12);
}

#[test]
fn decoded_instructions_never_write_read_only_csrs() {
    // Every CSR form on mhartid (0xf14) with rs1/uimm = 1 writes: illegal.
    for funct3 in [1u32, 2, 3, 5, 6, 7] {
        let raw = (0xf14 << 20) | (1 << 15) | (funct3 << 12) | (10 << 7) | 0x73;
        assert_eq!(decode(raw), Err(Exception::IllegalInstruction(raw)));
    }
    // With x0 / a zero immediate the set and clear forms only read.
    assert!(decode((0xf14 << 20) | (2 << 12) | (10 << 7) | 0x73).is_ok());
}

#[test]
fn fetch_decode_reads_a_compressed_parcel() {
    // c.li a0, 5 = 0x4515, then a 32-bit addi a1, a0, 1.
    let mut cpu = Cpu::new();
    cpu.bus.store16(DRAM_BASE, 0x4515).unwrap();
    cpu.bus.store32(DRAM_BASE + 2, 0x00150593).unwrap();
    cpu.pc = DRAM_BASE;
    let (inst, len, raw) = cpu.fetch_decode().unwrap();
    assert_eq!(inst, Inst::Addi { rd: 10, rs1: 0, imm: 5 });
    assert_eq!((len, raw), (2, 0x4515));
    assert_eq!(decode_compressed(0x4515), Ok(inst));
    cpu.execute(inst, len).unwrap();
    assert_eq!(cpu.pc, DRAM_BASE + 2);
    let (inst, len, raw) = cpu.fetch_decode().unwrap();
    assert_eq!((inst, len, raw), (Inst::Addi { rd: 11, rs1: 10, imm: 1 }, 4, 0x00150593));
    cpu.execute(inst, len).unwrap();
    assert_eq!(cpu.regs[11], 6);
}

#[test]
fn jal_links_past_a_compressed_jump() {
    // c.j +4 expands to jal x0; a compressed jal-type link would be pc + 2.
    let inst = decode_compressed(0xa011).unwrap();
    assert_eq!(inst, Inst::Jal { rd: 0, offset: 4 });
    let mut cpu = Cpu::new();
    cpu.pc = DRAM_BASE;
    cpu.execute(Inst::Jal { rd: 1, offset: 8 }, 2).unwrap();
    assert_eq!(cpu.regs[1], DRAM_BASE + 2, "link is the next parcel");
    assert_eq!(cpu.pc, DRAM_BASE + 8);
}

#[test]
fn compressed_parcels_decode_as_their_expansions() {
    // (parcel, the 32-bit word of its expansion)
    let pairs: [(u16, u32); 9] = [
        (0x1028, 0x0281_0513), // c.addi4spn a0, sp, 40 / addi a0, sp, 40
        (0x414c, 0x0045_2583), // c.lw a1, 4(a0) / lw a1, 4(a0)
        (0x8c05, 0x4094_0433), // c.sub s0, s1 / sub s0, s0, s1
        (0x840d, 0x4034_5413), // c.srai s0, 3 / srai s0, s0, 3
        (0x8082, 0x0000_8067), // c.jr ra / jalr x0, 0(ra)
        (0x757d, 0xffff_f537), // c.lui a0, 0xfffff / lui a0, 0xfffff
        (0xbffd, 0xffff_f06f), // c.j -2 / jal x0, -2
        (0xdc75, 0xfe04_0ee3), // c.beqz s0, -4 / beq s0, x0, -4
        (0xe481, 0x0004_9463), // c.bnez s1, 8 / bne s1, x0, 8
    ];
    for (parcel, word) in pairs {
        let short = decode_compressed(parcel);
        assert!(short.is_ok(), "parcel {parcel:#06x} should decode");
        assert_eq!(short, decode(word), "parcel {parcel:#06x}");
    }
    assert_eq!(decode_compressed(0x8c05), Ok(Inst::Sub { rd: 8, rs1: 8, rs2: 9 }));
    assert_eq!(decode_compressed(0xbffd), Ok(Inst::Jal { rd: 0, offset: -2 }));
    assert_eq!(decode_compressed(0xdc75), Ok(Inst::Beq { rs1: 8, rs2: 0, offset: -4 }));
}

#[test]
fn a_plain_csr_read_leaves_the_csrs_alone() {
    // csrrs a0, mstatus, x0 and csrrci a1, mscratch, 0
    let mut cpu = cpu_with_program(&[0x3000_2573, 0x3400_75f3]);
    cpu.csrs[0x300] = 0x1800;
    cpu.csrs[0x340] = 0xdead_beef;
    let before = cpu.csrs;
    cpu.step().unwrap();
    cpu.step().unwrap();
    assert_eq!(cpu.csrs, before);
    assert_eq!(cpu.regs[10], 0x1800);
    assert_eq!(cpu.regs[11], 0xdead_beef);
}

#[test]
fn a_store_is_seen_by_the_next_fetch() {
    // sw x6, 8(x7) patches the illegal word at slot 2 with addi x5, x0, 42;
    // a jump straight there (no fence) then runs the new word.
    // jal x0, 4 = 0x0040006f
    let mut cpu = cpu_with_program(&[0x0063_a423, 0x0040_006f, 0x0000_0000]);
    cpu.regs[6] = 0x02a0_0293;
    cpu.regs[7] = DRAM_BASE;
    cpu.step().unwrap();
    cpu.step().unwrap();
    assert_eq!(cpu.pc, DRAM_BASE + 8);
    cpu.step().unwrap();
    assert_eq!(cpu.regs[5], 42);
}
