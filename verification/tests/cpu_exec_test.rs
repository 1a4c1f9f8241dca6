//! The interpreter, one instruction (or a short program) at a time.

use riscv_emulator::cpu::{Cpu, MCAUSE, MEPC, MTVAL, MTVEC};
use riscv_emulator::exception::Exception;

use riscv_emulator::bus::DRAM_BASE;

/// Write instruction words at DRAM_BASE and point pc there.
fn cpu_with_program(insts: &[u32]) -> Cpu {
    let mut cpu = Cpu::new();
    for (i, &raw) in insts.iter().enumerate() {
        cpu.bus.store32(DRAM_BASE + 4 * i as u64, raw).unwrap();
    }
    cpu.pc = DRAM_BASE;
    cpu
}

#[test]
fn addi_adds_and_advances_pc() {
    // addi x1, x0, 5  = 0x00500093
    let mut cpu = cpu_with_program(&[0x00500093]);
    cpu.step().unwrap();
    assert_eq!(cpu.regs[1], 5);
    assert_eq!(cpu.pc, DRAM_BASE + 4);
}

#[test]
fn addi_negative_immediate_wraps() {
    // addi x1, x0, -1 → x1 = 0xffff_ffff_ffff_ffff (two's complement on 64 bits)
    // 0xfff00093 = addi x1, x0, -1
    let mut cpu = cpu_with_program(&[0xfff00093]);
    cpu.step().unwrap();
    assert_eq!(cpu.regs[1], u64::MAX);
}

#[test]
fn writes_to_x0_do_not_stick() {
    // addi x0, x0, 5 = 0x00500013 — architecturally a no-op (this encoding with
    // rd=x0 is also what the `nop` mnemonic assembles to... with imm=0)
    let mut cpu = cpu_with_program(&[0x00500013]);
    cpu.step().unwrap();
    assert_eq!(cpu.regs[0], 0);
}

#[test]
fn auipc_is_pc_relative() {
    // auipc x5, 0x1 = 0x00001297 → x5 = pc + 0x1000
    let mut cpu = cpu_with_program(&[0x00001297]);
    cpu.step().unwrap();
    assert_eq!(cpu.regs[5], DRAM_BASE + 0x1000);
}

#[test]
fn mul_and_mulh_split_the_128_bit_product() {
    // (-1) * (-1) = 1: mul gives the low half (1), mulh the high (0).
    // mul a4, a1, a2 = 0x02c58733 / mulh a4, a1, a2 = 0x02c59733
    let mut cpu = cpu_with_program(&[0x02c58733, 0x02c59733]);
    cpu.regs[11] = (-1i64) as u64;
    cpu.regs[12] = (-1i64) as u64;
    cpu.step().unwrap();
    assert_eq!(cpu.regs[14], 1, "low half");
    cpu.step().unwrap();
    assert_eq!(cpu.regs[14], 0, "high half of +1 is 0");
}

#[test]
fn mulh_variants_disagree_on_the_same_bits() {
    // Same operands (all-ones, all-ones), three readings:
    //   signed x signed:     (-1) * (-1)      -> high 64 = 0
    //   unsigned x unsigned: (2^64-1)^2       -> high 64 = 2^64 - 2
    //   signed x unsigned:   (-1) * (2^64-1)  -> high 64 = 2^64 - 1
    // mulh = 0x02c59733 / mulhu = 0x02c5b733 / mulhsu = 0x02c5a733
    let mut cpu = cpu_with_program(&[0x02c59733, 0x02c5b733, 0x02c5a733]);
    cpu.regs[11] = u64::MAX;
    cpu.regs[12] = u64::MAX;
    cpu.step().unwrap();
    assert_eq!(cpu.regs[14], 0, "mulh: signed");
    cpu.step().unwrap();
    assert_eq!(cpu.regs[14], u64::MAX - 1, "mulhu: unsigned");
    cpu.step().unwrap();
    assert_eq!(cpu.regs[14], u64::MAX, "mulhsu: mixed");
}

#[test]
fn mulw_wraps_at_32_bits_and_sign_extends() {
    // 0x7fffffff * 2 = 0xfffffffe: the product carries into bit 31, so
    // the 32-bit result is negative and sign-extends.
    // mulw a4, a1, a2 = 0x02c5873b
    let mut cpu = cpu_with_program(&[0x02c5873b]);
    cpu.regs[11] = 0x7fff_ffff;
    cpu.regs[12] = 2;
    cpu.step().unwrap();
    assert_eq!(cpu.regs[14], 0xffff_ffff_ffff_fffe);
}

#[test]
fn division_by_zero_has_defined_results_and_no_trap() {
    // div, divu, rem, remu a4, a1, a2 with a2 = 0: the quotients read
    // all ones, the remainders return the dividend. Four instructions,
    // zero traps.
    let mut cpu =
        cpu_with_program(&[0x02c5c733, 0x02c5d733, 0x02c5e733, 0x02c5f733]);
    cpu.regs[11] = 42;
    cpu.regs[12] = 0;
    cpu.step().unwrap();
    assert_eq!(cpu.regs[14], u64::MAX, "div by zero: all ones");
    cpu.step().unwrap();
    assert_eq!(cpu.regs[14], u64::MAX, "divu by zero: all ones");
    cpu.step().unwrap();
    assert_eq!(cpu.regs[14], 42, "rem by zero: the dividend");
    cpu.step().unwrap();
    assert_eq!(cpu.regs[14], 42, "remu by zero: the dividend");
}

#[test]
fn signed_overflow_min_divided_by_minus_one() {
    // The one quotient two's complement cannot represent: -MIN = 2^63.
    // The ISA defines div -> MIN and rem -> 0 instead of trapping.
    let mut cpu = cpu_with_program(&[0x02c5c733, 0x02c5e733]);
    cpu.regs[11] = i64::MIN as u64;
    cpu.regs[12] = (-1i64) as u64;
    cpu.step().unwrap();
    assert_eq!(cpu.regs[14], i64::MIN as u64, "quotient wraps to MIN");
    cpu.step().unwrap();
    assert_eq!(cpu.regs[14], 0, "remainder is 0");
}

#[test]
fn rem_sign_follows_the_dividend() {
    // -7 / 2: rounding toward zero gives -3 remainder -1 (not +1),
    // so div * divisor + rem == dividend holds.
    let mut cpu = cpu_with_program(&[0x02c5c733, 0x02c5e733]);
    cpu.regs[11] = (-7i64) as u64;
    cpu.regs[12] = 2;
    cpu.step().unwrap();
    assert_eq!(cpu.regs[14], (-3i64) as u64);
    cpu.step().unwrap();
    assert_eq!(cpu.regs[14], (-1i64) as u64);
}

#[test]
fn divuw_sign_extends_its_unsigned_result() {
    // 0x80000000 / 1: an unsigned 32-bit quotient whose bit 31 is set
    // still sign-extends, like every W instruction (the invariant that
    // upper halves always mirror bit 31 beats "unsigned" here).
    let mut cpu = cpu_with_program(&[0x02c5d73b]);
    cpu.regs[11] = 0x8000_0000;
    cpu.regs[12] = 1;
    cpu.step().unwrap();
    assert_eq!(cpu.regs[14], 0xffff_ffff_8000_0000);
}

#[test]
fn amoadd_returns_the_old_value_and_updates_memory() {
    // amoadd.w a4, a1, (a3) = 0x00b6a72f: one instruction does
    // rd = mem, mem += rs2.
    let mut cpu = cpu_with_program(&[0x00b6a72f]);
    cpu.regs[13] = DRAM_BASE + 0x100;
    cpu.regs[11] = 3;
    cpu.bus.store32(DRAM_BASE + 0x100, 5).unwrap();
    cpu.step().unwrap();
    assert_eq!(cpu.regs[14], 5, "rd holds the value before the add");
    assert_eq!(cpu.bus.load32(DRAM_BASE + 0x100).unwrap(), 8);
}

#[test]
fn amo_w_sign_extends_the_old_value() {
    // amoswap.w a4, a1, (a3) = 0x08b6a72f with old = 0x8000_0000:
    // like LW, the 32-bit old value sign-extends into rd.
    let mut cpu = cpu_with_program(&[0x08b6a72f]);
    cpu.regs[13] = DRAM_BASE + 0x100;
    cpu.regs[11] = 7;
    cpu.bus.store32(DRAM_BASE + 0x100, 0x8000_0000).unwrap();
    cpu.step().unwrap();
    assert_eq!(cpu.regs[14], 0xffff_ffff_8000_0000);
    assert_eq!(cpu.bus.load32(DRAM_BASE + 0x100).unwrap(), 7, "swapped in");
}

#[test]
fn amomax_signed_vs_unsigned_on_the_same_bits() {
    // Memory holds 0xffffffff: -1 to amomax.w (loses to 1), the
    // largest u32 to amomaxu.w (beats 1).
    // amomax.w = 0xa0b6a72f / amomaxu.w = 0xe0b6a72f
    for (raw, expected) in [(0xa0b6a72fu32, 1u32), (0xe0b6a72f, 0xffff_ffff)] {
        let mut cpu = cpu_with_program(&[raw]);
        cpu.regs[13] = DRAM_BASE + 0x100;
        cpu.regs[11] = 1;
        cpu.bus.store32(DRAM_BASE + 0x100, 0xffff_ffff).unwrap();
        cpu.step().unwrap();
        assert_eq!(cpu.bus.load32(DRAM_BASE + 0x100).unwrap(), expected);
    }
}

#[test]
fn lr_sc_pair_succeeds_and_stores() {
    // lr.w a4, (a0) = 0x1005272f then sc.w a4, a5, (a0) = 0x18f5272f:
    // the reservation from lr lets sc through, rd reads 0 (success).
    let mut cpu = cpu_with_program(&[0x1005272f, 0x18f5272f]);
    cpu.regs[10] = DRAM_BASE + 0x100;
    cpu.regs[15] = 99;
    cpu.bus.store32(DRAM_BASE + 0x100, 5).unwrap();
    cpu.step().unwrap();
    assert_eq!(cpu.regs[14], 5, "lr loaded the old value");
    cpu.step().unwrap();
    assert_eq!(cpu.regs[14], 0, "sc reports success");
    assert_eq!(cpu.bus.load32(DRAM_BASE + 0x100).unwrap(), 99);
}

#[test]
fn sc_without_reservation_fails_and_does_not_store() {
    let mut cpu = cpu_with_program(&[0x18f5272f]);
    cpu.regs[10] = DRAM_BASE + 0x100;
    cpu.regs[15] = 99;
    cpu.bus.store32(DRAM_BASE + 0x100, 5).unwrap();
    cpu.step().unwrap();
    assert_eq!(cpu.regs[14], 1, "sc reports failure");
    assert_eq!(cpu.bus.load32(DRAM_BASE + 0x100).unwrap(), 5, "untouched");
}

#[test]
fn sc_to_a_different_address_fails_and_consumes_the_reservation() {
    // lr on one address, sc on another: the sc fails, and because any
    // sc drops the reservation, a second sc back on the reserved
    // address fails too.
    let mut cpu = cpu_with_program(&[0x1005272f, 0x18f5272f, 0x18f5272f]);
    cpu.regs[10] = DRAM_BASE + 0x100;
    cpu.regs[15] = 99;
    cpu.step().unwrap(); // lr.w at +0x100
    cpu.regs[10] = DRAM_BASE + 0x200;
    cpu.step().unwrap(); // sc.w at +0x200: wrong address
    assert_eq!(cpu.regs[14], 1, "address mismatch fails");
    cpu.regs[10] = DRAM_BASE + 0x100;
    cpu.step().unwrap(); // sc.w back at +0x100: reservation is gone
    assert_eq!(cpu.regs[14], 1, "the failed sc consumed the reservation");
    assert_eq!(cpu.bus.load32(DRAM_BASE + 0x100).unwrap(), 0, "never stored");
}

#[test]
fn jal_links_and_jumps() {
    // jal x1, +8 = 0x008000ef
    let mut cpu = cpu_with_program(&[0x008000ef]);
    cpu.step().unwrap();
    assert_eq!(cpu.regs[1], DRAM_BASE + 4, "link register holds pc+4");
    assert_eq!(cpu.pc, DRAM_BASE + 8, "pc jumped by the offset");
}

#[test]
fn jalr_jumps_to_rs1_and_links() {
    // jalr t0, 0(t1) = 0x000302e7 — an absolute jump: the target comes
    // from a register, not from pc like jal/branches.
    let mut cpu = cpu_with_program(&[0x000302e7]);
    cpu.regs[6] = DRAM_BASE + 0x100;
    cpu.step().unwrap();
    assert_eq!(cpu.pc, DRAM_BASE + 0x100, "jumped to rs1 + offset");
    assert_eq!(cpu.regs[5], DRAM_BASE + 4, "link register holds pc+4");
}

#[test]
fn jalr_with_rd_equal_rs1_reads_before_writing() {
    // jalr t0, 0(t0) = 0x000282e7 (the rv64ui-p-jalr trap): the target
    // must come from the old t0, not from the freshly written link.
    let mut cpu = cpu_with_program(&[0x000282e7]);
    cpu.regs[5] = DRAM_BASE + 0x80;
    cpu.step().unwrap();
    assert_eq!(cpu.pc, DRAM_BASE + 0x80, "target read before the link write");
    assert_eq!(cpu.regs[5], DRAM_BASE + 4);
}

#[test]
fn jalr_clears_bit_0_of_the_target() {
    // ret = jalr x0, 0(x1) = 0x00008067, here with an odd address in ra.
    let mut cpu = cpu_with_program(&[0x00008067]);
    cpu.regs[1] = DRAM_BASE + 0x101;
    cpu.step().unwrap();
    assert_eq!(cpu.pc, DRAM_BASE + 0x100, "bit 0 masked off by spec");
    assert_eq!(cpu.regs[0], 0, "ret discards the link into x0");
}

#[test]
fn branch_taken_and_not_taken() {
    // beq x1, x2, +8 = 0x00208463
    let mut cpu = cpu_with_program(&[0x00208463]);
    cpu.regs[1] = 7;
    cpu.regs[2] = 7;
    cpu.step().unwrap();
    assert_eq!(cpu.pc, DRAM_BASE + 8, "equal → taken");

    let mut cpu = cpu_with_program(&[0x00208463]);
    cpu.regs[1] = 7;
    cpu.regs[2] = 8;
    cpu.step().unwrap();
    assert_eq!(cpu.pc, DRAM_BASE + 4, "not equal → fall through");
}

#[test]
fn blt_is_signed_bltu_is_unsigned() {
    // Same register contents, opposite outcomes:
    // x1 = -1 as u64 (0xffff...ffff), x2 = 1.
    // blt x1, x2, +8 = 0x0020c463 — signed: -1 < 1 → taken
    let mut cpu = cpu_with_program(&[0x0020c463]);
    cpu.regs[1] = (-1i64) as u64;
    cpu.regs[2] = 1;
    cpu.step().unwrap();
    assert_eq!(cpu.pc, DRAM_BASE + 8, "signed: -1 < 1");

    // bltu x1, x2, +8 = 0x0020e463 — unsigned: u64::MAX < 1 is false
    let mut cpu = cpu_with_program(&[0x0020e463]);
    cpu.regs[1] = (-1i64) as u64;
    cpu.regs[2] = 1;
    cpu.step().unwrap();
    assert_eq!(cpu.pc, DRAM_BASE + 4, "unsigned: max < 1 is false");
}

#[test]
fn srli_is_logical_srai_is_arithmetic() {
    // x2 = -16: srli sees a huge unsigned number, srai divides by 4.
    // srli x1, x2, 2 = 0x00215093 / srai x1, x2, 2 = 0x40215093
    let mut cpu = cpu_with_program(&[0x00215093]);
    cpu.regs[2] = (-16i64) as u64;
    cpu.step().unwrap();
    assert_eq!(cpu.regs[1], (u64::MAX - 15) >> 2, "zeros shifted in");

    let mut cpu = cpu_with_program(&[0x40215093]);
    cpu.regs[2] = (-16i64) as u64;
    cpu.step().unwrap();
    assert_eq!(cpu.regs[1], (-4i64) as u64, "sign bits shifted in: -16/4");
}

#[test]
fn li_idiom_builds_a_wide_constant() {
    // The exact pair from rv64ui-p-add's constant setup:
    //   addiw t0, zero, 1   (0x0010029b)
    //   slli  t0, t0, 0x35  (0x03529293)  → t0 = 1 << 53
    let mut cpu = cpu_with_program(&[0x0010029b, 0x03529293]);
    cpu.step().unwrap();
    cpu.step().unwrap();
    assert_eq!(cpu.regs[5], 1u64 << 53);
}

#[test]
fn addiw_wraps_at_32_bits_and_sign_extends() {
    // x1 = 0x7fff_ffff (i32::MAX); addiw x1, x1, 1 (0x0010809b) overflows the
    // 32-bit world to i32::MIN, whose sign extension fills the upper half.
    // A 64-bit addi would have produced 0x0000_0000_8000_0000 instead.
    let mut cpu = cpu_with_program(&[0x0010809b]);
    cpu.regs[1] = 0x7fff_ffff;
    cpu.step().unwrap();
    assert_eq!(cpu.regs[1], 0xffff_ffff_8000_0000);
}

#[test]
fn sraiw_uses_bit_31_as_sign() {
    // x2 = 0x0000_0000_8000_0000: positive as a 64-bit value, but its low
    // 32 bits are i32::MIN. sraiw x1, x2, 4 (0x4041509b) must see the latter.
    let mut cpu = cpu_with_program(&[0x4041509b]);
    cpu.regs[2] = 0x8000_0000;
    cpu.step().unwrap();
    assert_eq!(cpu.regs[1], 0xffff_ffff_f800_0000);
}

#[test]
fn slt_materializes_comparisons() {
    // x2 = -1, x3 = 1: signed says less, unsigned says greater.
    // slt x1, x2, x3 = 0x003120b3 / sltu x1, x2, x3 = 0x003130b3
    let mut cpu = cpu_with_program(&[0x003120b3, 0x003130b3]);
    cpu.regs[2] = (-1i64) as u64;
    cpu.regs[3] = 1;
    cpu.step().unwrap();
    assert_eq!(cpu.regs[1], 1, "signed: -1 < 1");
    cpu.step().unwrap();
    assert_eq!(cpu.regs[1], 0, "unsigned: u64::MAX < 1 is false");
}

#[test]
fn slti_vs_sltiu_on_negative_operand() {
    // x13 = -1: signed says "below zero", unsigned says "the maximum".
    // slti a4, a3, 0 = 0x0006a713 / sltiu a4, a3, 0 = 0x0006b713
    let mut cpu = cpu_with_program(&[0x0006a713, 0x0006b713]);
    cpu.regs[13] = (-1i64) as u64;
    cpu.step().unwrap();
    assert_eq!(cpu.regs[14], 1, "signed: -1 < 0");
    cpu.step().unwrap();
    assert_eq!(cpu.regs[14], 0, "unsigned: u64::MAX < 0 is false");
}

#[test]
fn sltiu_with_imm_1_is_seqz() {
    // sltiu a4, a3, 1 = 0x0016b713: rd = (rs1 == 0), the seqz pseudo
    // (0 is the only value unsigned-below 1).
    let mut cpu = cpu_with_program(&[0x0016b713, 0x0016b713]);
    cpu.regs[13] = 0;
    cpu.step().unwrap();
    assert_eq!(cpu.regs[14], 1, "zero → 1");
    cpu.regs[13] = 7;
    cpu.step().unwrap();
    assert_eq!(cpu.regs[14], 0, "non-zero → 0");
}

#[test]
fn xori_with_all_ones_is_not() {
    // xori a4, a3, -1 = 0xfff6c713: rd = !rs1, the `not` pseudo. Works
    // on all 64 bits because the 12-bit immediate sign-extends to all ones.
    let mut cpu = cpu_with_program(&[0xfff6c713]);
    cpu.regs[13] = 0x0f0f_1234_abcd_5678;
    cpu.step().unwrap();
    assert_eq!(cpu.regs[14], !0x0f0f_1234_abcd_5678u64);
}

#[test]
fn andi_immediate_sign_extends_across_64_bits() {
    // andi a4, a3, -241 = 0xf0f6f713 (the rv64ui-p-andi encoding): the
    // "12-bit" mask really is the 64-bit 0xffff_ffff_ffff_ff0f, so the
    // upper half of rs1 survives the AND.
    let mut cpu = cpu_with_program(&[0xf0f6f713]);
    cpu.regs[13] = 0xdead_beef_0000_00ff;
    cpu.step().unwrap();
    assert_eq!(cpu.regs[14], 0xdead_beef_0000_000f);
}

#[test]
fn register_shift_amount_uses_low_6_bits() {
    // sll x1, x2, x3 = 0x003110b3 with x3 = 65: only 65 & 0x3f = 1 counts.
    let mut cpu = cpu_with_program(&[0x003110b3]);
    cpu.regs[2] = 0x10;
    cpu.regs[3] = 65;
    cpu.step().unwrap();
    assert_eq!(cpu.regs[1], 0x20, "shifted by 1, not by 65");
}

#[test]
fn subw_wraps_and_sign_extends() {
    // subw x1, x2, x3 = 0x403100bb with 0 - 1: the 32-bit result 0xffffffff
    // sign-extends to a full 64-bit -1.
    let mut cpu = cpu_with_program(&[0x403100bb]);
    cpu.regs[2] = 0;
    cpu.regs[3] = 1;
    cpu.step().unwrap();
    assert_eq!(cpu.regs[1], u64::MAX);
}

#[test]
fn load_sign_vs_zero_extension() {
    // Memory byte 0x80: lb reads it as -128, lbu as +128.
    // lb x1, 0(x2) = 0x00010083 / lbu x1, 0(x2) = 0x00014083
    let mut cpu = cpu_with_program(&[0x00010083, 0x00014083]);
    cpu.bus.store8(DRAM_BASE + 0x100, 0x80).unwrap();
    cpu.regs[2] = DRAM_BASE + 0x100;
    cpu.step().unwrap();
    assert_eq!(cpu.regs[1], (-128i64) as u64, "lb sign-extends");
    cpu.step().unwrap();
    assert_eq!(cpu.regs[1], 128, "lbu zero-extends");
}

#[test]
fn narrow_store_truncates() {
    // sb x3, 0(x2) = 0x00310023, then ld x1, 0(x2) = 0x00013083:
    // only the low byte of x3 must reach memory.
    let mut cpu = cpu_with_program(&[0x00310023, 0x00013083]);
    cpu.regs[2] = DRAM_BASE + 0x200;
    cpu.regs[3] = 0xaabb_ccdd_1122_3344;
    cpu.step().unwrap();
    cpu.step().unwrap();
    assert_eq!(cpu.regs[1], 0x44);
}

#[test]
fn load_fault_leaves_pc_uncommitted() {
    // ld x1, 0(x2) with x2 = 0: LoadAccessFault, and pc must still point
    // at the faulting instruction (trap handling depends on this).
    let mut cpu = cpu_with_program(&[0x00013083]);
    cpu.regs[2] = 0;
    assert_eq!(cpu.step(), Err(Exception::LoadAccessFault(0)));
    assert_eq!(cpu.pc, DRAM_BASE);
}

#[test]
fn fence_i_orders_self_modifying_code() {
    // The rv64ui-p-fence_i pattern in miniature: patch the word two slots
    // ahead, fence.i, then run it. Slot 2 starts as an illegal word and
    // becomes addi x5, x0, 42 (0x02a00293) — fetch must see the store.
    // sw x6, 8(x7) = 0x0063a423 / fence.i = 0x0000100f
    let mut cpu = cpu_with_program(&[0x0063a423, 0x0000100f, 0x00000000]);
    cpu.regs[6] = 0x02a00293;
    cpu.regs[7] = DRAM_BASE;
    cpu.step().unwrap(); // sw: patch slot 2
    cpu.step().unwrap(); // fence.i: nothing to flush here, by design
    cpu.step().unwrap(); // the patched addi runs, not the illegal word
    assert_eq!(cpu.regs[5], 42);
}

#[test]
fn ecall_traps_to_mtvec() {
    let mut cpu = cpu_with_program(&[0x00000073]);
    cpu.csrs[MTVEC] = DRAM_BASE + 0x40;
    cpu.step().unwrap();
    assert_eq!(cpu.pc, DRAM_BASE + 0x40, "entered the handler");
    assert_eq!(cpu.csrs[MEPC], DRAM_BASE, "mepc points at the ecall itself");
    assert_eq!(cpu.csrs[MCAUSE], 11, "environment call from M-mode");
}

#[test]
fn ebreak_records_its_pc_in_mtval() {
    let mut cpu = cpu_with_program(&[0x00100073]);
    cpu.csrs[MTVEC] = DRAM_BASE + 0x40;
    cpu.step().unwrap();
    assert_eq!(cpu.csrs[MCAUSE], 3, "breakpoint");
    assert_eq!(cpu.csrs[MTVAL], DRAM_BASE, "mtval holds the ebreak's address");
}

#[test]
fn mret_jumps_to_mepc() {
    // The riscv-tests startup idiom: write the test body's address into
    // mepc, then mret into it. csrw mepc, t0 = 0x34129073.
    let mut cpu = cpu_with_program(&[0x34129073, 0x30200073]);
    cpu.regs[5] = DRAM_BASE + 0x100;
    cpu.step().unwrap();
    cpu.step().unwrap();
    assert_eq!(cpu.pc, DRAM_BASE + 0x100);
}

/// Hand-assemble a SYSTEM/CSR instruction (funct3 picks the variant).
fn csr_inst(funct3: u32, csr: u32, rs1_or_uimm: u32, rd: u32) -> u32 {
    (csr << 20) | (rs1_or_uimm << 15) | (funct3 << 12) | (rd << 7) | 0x73
}

const MSCRATCH: u32 = 0x340; // a read-write CSR with no special semantics
const MHARTID: u32 = 0xf14; // read-only: hart (hardware thread) id

#[test]
fn csrrw_swaps_register_and_csr() {
    // csrrw x1, mscratch, x2
    let mut cpu = cpu_with_program(&[csr_inst(0x1, MSCRATCH, 2, 1)]);
    cpu.regs[2] = 0xdead;
    cpu.csrs[MSCRATCH as usize] = 0xbeef;
    cpu.step().unwrap();
    assert_eq!(cpu.regs[1], 0xbeef, "rd got the old CSR value");
    assert_eq!(cpu.csrs[MSCRATCH as usize], 0xdead, "CSR got rs1");
}

#[test]
fn csrr_reads_mhartid_as_zero() {
    // csrrs x10, mhartid, x0 — the `csrr a0, mhartid` from the riscv-tests
    // startup. rs1=x0 means no write, so the read-only CSR must not trap.
    let mut cpu = cpu_with_program(&[csr_inst(0x2, MHARTID, 0, 10)]);
    cpu.regs[10] = 0x1234; // stale value, must be overwritten by the read
    cpu.step().unwrap();
    assert_eq!(cpu.regs[10], 0, "single-hart machine: hart id 0");
}

#[test]
fn csr_set_and_clear_bits() {
    let mut cpu = cpu_with_program(&[
        csr_inst(0x6, MSCRATCH, 0b101, 0), // csrrsi x0, mscratch, 0b101
        csr_inst(0x7, MSCRATCH, 0b001, 1), // csrrci x1, mscratch, 0b001
    ]);
    cpu.step().unwrap();
    assert_eq!(cpu.csrs[MSCRATCH as usize], 0b101, "set bits 0 and 2");
    cpu.step().unwrap();
    assert_eq!(cpu.regs[1], 0b101, "rd sees the value before clearing");
    assert_eq!(cpu.csrs[MSCRATCH as usize], 0b100, "bit 0 cleared");
}

#[test]
fn step_reports_illegal_instruction() {
    let mut cpu = cpu_with_program(&[0xffff_ffff]);
    assert_eq!(
        cpu.step(),
        Err(Exception::IllegalInstruction(0xffff_ffff))
    );
}
