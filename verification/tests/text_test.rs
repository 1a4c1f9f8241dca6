//! The text forms: assembly, exceptions, run outcomes, and Spike log lines.

use riscv_emulator::difftest::{parse_log, Divergence, Event};
use riscv_emulator::display::trace_line;
use riscv_emulator::exception::Exception;
use riscv_emulator::harness;
use riscv_emulator::inst::{decode, Inst};
use riscv_emulator::linux;

#[test]
fn assembly_for_every_operand_shape() {
    let cases: [(Inst, &str); 14] = [
        (Inst::Slti { rd: 14, rs1: 13, imm: -241 }, "slti x14, x13, -241"),
        (Inst::Lui { rd: 5, imm: 0x12345000 }, "lui x5, 0x12345"),
        (Inst::Auipc { rd: 2, imm: -4096 }, "auipc x2, 0xfffff"),
        (Inst::Jalr { rd: 1, rs1: 6, offset: -16 }, "jalr x1, -16(x6)"),
        (Inst::Srai { rd: 1, rs1: 2, shamt: 63 }, "srai x1, x2, 0x3f"),
        (Inst::Slliw { rd: 1, rs1: 2, shamt: 0 }, "slliw x1, x2, 0x0"),
        (Inst::Mulhsu { rd: 31, rs1: 30, rs2: 29 }, "mulhsu x31, x30, x29"),
        (Inst::AmomaxuD { rd: 14, rs1: 13, rs2: 11 }, "amomaxu.d x14, x11, (x13)"),
        (Inst::LrW { rd: 14, rs1: 10 }, "lr.w x14, (x10)"),
        (Inst::Bgeu { rs1: 1, rs2: 2, offset: -8 }, "bgeu x1, x2, -8"),
        (Inst::Sd { rs1: 2, rs2: 1, offset: 8 }, "sd x1, 8(x2)"),
        (Inst::Csrrs { rd: 10, rs1: 0, csr: 0xf14 }, "csrrs x10, 0xf14, x0"),
        (Inst::Csrrci { rd: 1, uimm: 17, csr: 0x340 }, "csrrci x1, 0x340, 17"),
        (Inst::FenceI, "fence.i"),
    ];
    for (inst, text) in cases.iter() {
        assert_eq!(inst.to_text(), *text);
    }
    assert_eq!(decode(0x00000073).unwrap().to_text(), "ecall");
    assert_eq!(Inst::Addi { rd: 0, rs1: 0, imm: i64::MIN }.to_text(), "addi x0, x0, -9223372036854775808");
}

#[test]
fn exceptions_in_words() {
    assert_eq!(Exception::Breakpoint.to_text(), "breakpoint");
    assert_eq!(Exception::IllegalInstruction(0x73).to_text(), "illegal instruction 0x00000073");
    assert_eq!(
        Exception::IllegalInstruction(0xffff_ffff).to_text(),
        "illegal instruction 0xffffffff"
    );
    assert_eq!(Exception::LoadAccessFault(0).to_text(), "load access fault at 0x0");
    assert_eq!(
        Exception::StoreAmoAccessFault(0x8000_0000).to_text(),
        "store/AMO access fault at 0x80000000"
    );
    assert_eq!(Exception::EnvironmentCallFromMMode.to_text(), "environment call from M-mode");
}

#[test]
fn exception_payloads_for_mcause_and_mtval() {
    assert_eq!(Exception::IllegalInstruction(0x1234).cause(), 2);
    assert_eq!(Exception::IllegalInstruction(0x1234).tval(), 0x1234);
    assert_eq!(Exception::Breakpoint.cause(), 3);
    assert_eq!(Exception::Breakpoint.tval(), 0);
    assert_eq!(Exception::LoadAccessFault(8).cause(), 5);
    assert_eq!(Exception::StoreAmoAccessFault(8).cause(), 7);
    assert_eq!(Exception::StoreAmoAccessFault(8).tval(), 8);
    assert_eq!(Exception::EnvironmentCallFromMMode.cause(), 11);
}

#[test]
fn outcomes_in_words() {
    assert_eq!(harness::Outcome::Pass.to_text(), "PASS");
    assert_eq!(harness::Outcome::Fail { testnum: 12 }.to_text(), "FAIL (test case 12)");
    assert_eq!(
        harness::Outcome::Exception { pc: 0x8000_0004, e: Exception::Breakpoint }.to_text(),
        "exception at 0x80000004: breakpoint"
    );
    assert_eq!(
        harness::Outcome::StepLimit.to_text(),
        "step limit exhausted before tohost was written"
    );
    assert_eq!(linux::Outcome::Exited(-14).to_text(), "exited with code -14");
    assert_eq!(
        linux::Outcome::UnknownSyscall { pc: 0x1000, a7: 222 }.to_text(),
        "unknown syscall 222 at 0x1000"
    );
    assert_eq!(linux::Outcome::StepLimit.to_text(), "step limit exhausted");
}

#[test]
fn log_numbers_read_like_from_str_radix() {
    let log = "\
core   0: 3 0x+10 (0x00000013)
core   0: 3 0xABCDEF (0x00000013) x1 0x1
core   0: 3 0x10000000000000000 (0x00000013)
core   0: 3 10 (0x00000013)
core   0: 3 0x (0x00000013)
core   0: 3 0x20 (((0x00000013)))
";
    assert_eq!(
        parse_log(log),
        vec![
            Event::Commit { pc: 0x10, raw: 0x13, write: None },
            Event::Commit { pc: 0xabcdef, raw: 0x13, write: Some((1, 1)) },
            Event::Commit { pc: 0x20, raw: 0x13, write: None },
        ]
    );
}

#[test]
fn log_effects_last_register_write_wins() {
    let log = "core   0: 3 0x1000 (0x00000297) x5 0x1 mem 0x2 x7 0x3 c773_mtvec 0x4\r\n\
               core   0: 3 0x1004 (0x00000297) x5 zz\n\
               core   0: 3 0x1008 (0x00000297) x+6 0x9 x99999999999999999999 0x1\n";
    assert_eq!(
        parse_log(log),
        vec![
            Event::Commit { pc: 0x1000, raw: 0x297, write: Some((7, 3)) },
            Event::Commit { pc: 0x1004, raw: 0x297, write: None },
            Event::Commit { pc: 0x1008, raw: 0x297, write: Some((6, 9)) },
        ]
    );
}

#[test]
fn log_tval_without_a_trap_and_odd_lines_are_ignored() {
    let log = "core   0:           tval 0x5\n\
               core   0: 3 0x1000 (0x00000297)\n\
               core   0:           tval 0x5\n\
               core   0: 33 0x1000 (0x00000297)\n\
               core   0: exception trap_breakpoint,,, epc 0x1004\n\
               core   0: exception trap_x epc 0xzz\n\
               \n\
               core   0:           tval 0x7";
    assert_eq!(
        parse_log(log),
        vec![
            Event::Commit { pc: 0x1000, raw: 0x297, write: None },
            Event::Trap { epc: 0x1004, cause: "trap_breakpoint".to_string(), tval: Some(7) },
        ]
    );
    assert_eq!(parse_log(""), Vec::<Event>::new());
}

#[test]
fn trace_and_report_lines() {
    let addi = decode(0x00500093).unwrap();
    assert_eq!(trace_line(0x8000_0000, 0x00500093, &addi), "0x80000000: 00500093  addi x1, x0, 5");
    let commit = Event::Commit { pc: 0x8000_0000, raw: 0x00500093, write: Some((1, 5)) };
    assert_eq!(
        commit.to_text(),
        format!("  0x80000000: 00500093  addi x1, x0, 5{}  x1 <- 0x5", " ".repeat(10))
    );
    let unknown = Event::Commit { pc: 0x1000, raw: 0, write: None };
    assert_eq!(unknown.to_text(), "  0x00001000: 00000000  (not decodable by us)   ");
    let trap = Event::Trap {
        epc: 0x8000_00e0,
        cause: "trap_illegal_instruction".to_string(),
        tval: Some(0),
    };
    assert_eq!(trap.to_text(), "  0x800000e0: --------  [trap_illegal_instruction, tval 0x0]");
    assert_eq!(
        Divergence::Reg { rd: 1, spike: 6, ours: 5 }.to_text(),
        "x1 mismatch: spike has 0x0000000000000006, we have 0x0000000000000005"
    );
    assert_eq!(
        Divergence::Pc { spike: 0x8000_0004, ours: 0x8000_0008 }.to_text(),
        "pc mismatch: spike is at 0x80000004, we are at 0x80000008"
    );
    assert_eq!(
        Divergence::OurException(Exception::LoadAccessFault(0)).to_text(),
        "spike retired this instruction, but we raised: load access fault at 0x0"
    );
}
