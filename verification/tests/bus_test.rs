//! The bus: DRAM round trips, byte order, the CLINT window, access faults.

use riscv_emulator::bus::{Bus, CLINT_BASE, DRAM_BASE, DRAM_SIZE};
use riscv_emulator::exception::Exception;

#[test]
fn roundtrip_load_store() {
    let mut bus = Bus::new();
    bus.store64(DRAM_BASE, 0x0123_4567_89ab_cdef).unwrap();
    assert_eq!(bus.load64(DRAM_BASE).unwrap(), 0x0123_4567_89ab_cdef);
}

#[test]
fn little_endian_layout() {
    let mut bus = Bus::new();
    bus.store32(DRAM_BASE, 0x1234_5678).unwrap();
    // Little-endian: the least significant byte lives at the lowest address.
    assert_eq!(bus.load8(DRAM_BASE).unwrap(), 0x78);
    assert_eq!(bus.load8(DRAM_BASE + 3).unwrap(), 0x12);
}

#[test]
fn clint_registers_are_memory_mapped() {
    let mut bus = Bus::new();
    // mtimecmp: plain 64-bit read/write through load/store
    bus.store64(CLINT_BASE + 0x4000, 0xdead).unwrap();
    assert_eq!(bus.load64(CLINT_BASE + 0x4000).unwrap(), 0xdead);
    // mtime: reads see the device's live state, not RAM
    bus.clint.mtime = 42;
    assert_eq!(bus.load64(CLINT_BASE + 0xbff8).unwrap(), 42);
    // msip is a 1-bit doorbell: writes are masked down
    bus.store32(CLINT_BASE, 0xffff_ffff).unwrap();
    assert_eq!(bus.load32(CLINT_BASE).unwrap(), 1);
    // unmapped offsets inside the CLINT window still fault
    assert!(bus.load32(CLINT_BASE + 0x8000).is_err());
}

#[test]
fn out_of_range_access_fault() {
    let mut bus = Bus::new();
    // Below DRAM
    assert_eq!(
        bus.load32(0x1000),
        Err(Exception::LoadAccessFault(0x1000))
    );
    // Exactly at the end is OK; one byte past it faults (boundary condition).
    let last = DRAM_BASE + DRAM_SIZE - 8;
    assert!(bus.store64(last, 1).is_ok());
    assert_eq!(
        bus.store64(last + 1, 1),
        Err(Exception::StoreAmoAccessFault(last + 1))
    );
}
