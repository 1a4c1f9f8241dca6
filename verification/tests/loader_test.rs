//! The ELF loader, on byte images built by hand.

use riscv_emulator::cpu::Cpu;
use riscv_emulator::loader::{self, LoadError};

fn put(bytes: &mut [u8], at: usize, value: u64, width: usize) {
    for i in 0..width {
        bytes[at + i] = (value >> (8 * i)) as u8;
    }
}

/// A minimal 64-bit RISC-V executable: one LOAD segment at 0x8000_0000
/// holding `addi x1, x0, 5; jal x0, 0` (8 file bytes, 0x20 in memory), and a
/// symbol table defining `tohost` = 0x8000_1000.
fn tiny_riscv_elf() -> Vec<u8> {
    let mut b = vec![0u8; 0x280];
    b[0..4].copy_from_slice(&[0x7f, b'E', b'L', b'F']);
    b[4] = 2; // ELFCLASS64
    b[5] = 1; // little endian
    b[6] = 1; // EV_CURRENT
    put(&mut b, 16, 2, 2); // ET_EXEC
    put(&mut b, 18, 243, 2); // EM_RISCV
    put(&mut b, 20, 1, 4); // e_version
    put(&mut b, 24, 0x8000_0000, 8); // e_entry
    put(&mut b, 32, 64, 8); // e_phoff
    put(&mut b, 40, 0x180, 8); // e_shoff
    put(&mut b, 52, 64, 2); // e_ehsize
    put(&mut b, 54, 56, 2); // e_phentsize
    put(&mut b, 56, 1, 2); // e_phnum
    put(&mut b, 58, 64, 2); // e_shentsize
    put(&mut b, 60, 4, 2); // e_shnum
    put(&mut b, 62, 3, 2); // e_shstrndx
    // Program header: PT_LOAD, R+X, file bytes at 0x100.
    put(&mut b, 64, 1, 4);
    put(&mut b, 68, 5, 4);
    put(&mut b, 72, 0x100, 8);
    put(&mut b, 80, 0x8000_0000, 8);
    put(&mut b, 88, 0x8000_0000, 8);
    put(&mut b, 96, 8, 8);
    put(&mut b, 104, 0x20, 8);
    put(&mut b, 112, 0x1000, 8);
    // The code.
    put(&mut b, 0x100, 0x00500093, 4);
    put(&mut b, 0x104, 0x0000006f, 4);
    // .symtab at 0x140: the null symbol, then tohost (global, absolute).
    put(&mut b, 0x158, 1, 4); // st_name
    b[0x15c] = 0x10; // st_info: GLOBAL, NOTYPE
    put(&mut b, 0x15e, 0xfff1, 2); // SHN_ABS
    put(&mut b, 0x160, 0x8000_1000, 8); // st_value
    put(&mut b, 0x168, 8, 8); // st_size
    // .strtab at 0x170.
    b[0x171..0x177].copy_from_slice(b"tohost");
    // Section headers at 0x180: null, .symtab, .strtab, and the section
    // name table (a lone NUL at 0x178: every section is unnamed).
    let sh = 0x180 + 64;
    put(&mut b, sh + 4, 2, 4); // SHT_SYMTAB
    put(&mut b, sh + 24, 0x140, 8);
    put(&mut b, sh + 32, 48, 8);
    put(&mut b, sh + 40, 2, 4); // sh_link: .strtab
    put(&mut b, sh + 44, 1, 4); // sh_info: first global
    put(&mut b, sh + 48, 8, 8);
    put(&mut b, sh + 56, 24, 8); // sh_entsize
    let sh = 0x180 + 128;
    put(&mut b, sh + 4, 3, 4); // SHT_STRTAB
    put(&mut b, sh + 24, 0x170, 8);
    put(&mut b, sh + 32, 8, 8);
    put(&mut b, sh + 48, 1, 8);
    let sh = 0x180 + 192;
    put(&mut b, sh + 4, 3, 4); // SHT_STRTAB
    put(&mut b, sh + 24, 0x178, 8);
    put(&mut b, sh + 32, 1, 8);
    put(&mut b, sh + 48, 1, 8);
    b
}

#[test]
fn rejects_non_elf_bytes() {
    assert!(matches!(
        loader::load(b"not an elf"),
        Err(loader::LoadError::Parse(_))
    ));
}

#[test]
fn rejects_non_riscv_elf() {
    // Forge a minimal ELF64 header (machine = x86-64) and confirm it is rejected.
    let mut bytes = vec![0u8; 64];
    bytes[0..4].copy_from_slice(&[0x7f, b'E', b'L', b'F']);
    bytes[4] = 2; // ELFCLASS64
    bytes[5] = 1; // little endian
    bytes[6] = 1; // EV_CURRENT
    bytes[16] = 2; // ET_EXEC
    bytes[18] = 62; // EM_X86_64
    bytes[20] = 1; // e_version
    bytes[52] = 64; // e_ehsize
    match loader::load(&bytes) {
        Err(loader::LoadError::UnsupportedArch(_)) | Err(loader::LoadError::Parse(_)) => {}
        other => panic!("non-RISC-V ELF was not rejected: {other:?}"),
    }
}

#[test]
fn x86_64_elf_is_reported_by_architecture_name() {
    let mut bytes = vec![0u8; 64];
    bytes[0..4].copy_from_slice(&[0x7f, b'E', b'L', b'F']);
    bytes[4] = 2;
    bytes[5] = 1;
    bytes[6] = 1;
    bytes[16] = 2;
    bytes[18] = 62;
    bytes[20] = 1;
    bytes[52] = 64;
    match loader::load(&bytes) {
        Err(e @ LoadError::UnsupportedArch(_)) => assert_eq!(
            e.to_text(),
            "not a 64-bit RISC-V ELF (architecture: X86_64)"
        ),
        other => panic!("expected UnsupportedArch, got {other:?}"),
    }
}

#[test]
fn parse_error_text_names_the_problem() {
    match loader::load(b"not an elf") {
        Err(e) => assert!(e.to_text().starts_with("cannot parse as ELF: ")),
        Ok(_) => panic!("text accepted as an ELF"),
    }
}

#[test]
fn loads_a_hand_built_riscv_elf() {
    let elf = loader::load(&tiny_riscv_elf()).unwrap();
    assert_eq!(elf.entry, 0x8000_0000);
    assert_eq!(elf.entry(), 0x8000_0000);
    assert_eq!(elf.segments.len(), 1);
    let text = &elf.segments[0];
    assert_eq!(text.addr, 0x8000_0000);
    assert_eq!(text.data, vec![0x93, 0x00, 0x50, 0x00, 0x6f, 0x00, 0x00, 0x00]);
    assert_eq!(text.mem_size, 0x20);
    assert_eq!(elf.symbol("tohost"), Some(0x8000_1000));
    assert_eq!(elf.symbol("no_such_symbol"), None);
}

#[test]
fn power_on_runs_the_loaded_image() {
    let elf = loader::load(&tiny_riscv_elf()).unwrap();
    let mut cpu = Cpu::new();
    cpu.load_elf(&elf).unwrap();
    assert_eq!(cpu.pc, 0x8000_0000);
    assert_eq!(cpu.fetch().unwrap(), 0x00500093);
    cpu.step().unwrap();
    assert_eq!(cpu.regs[1], 5);
    // The .bss-like tail past the file bytes reads as zero.
    assert_eq!(cpu.bus.load64(0x8000_0010).unwrap(), 0);
}
