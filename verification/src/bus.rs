//! Bus: owner of the address space as seen from the CPU.
//!
//! DRAM is one flat byte array; the CLINT (Core-Local INTerruptor) is memory
//! mapped below it, its 64-bit registers read and written through their
//! little-endian bytes. Any other address faults.
//!
//! The bus is modelled by its DRAM contents (`mem()`, one byte per address
//! from `DRAM_BASE`) and its CLINT registers; `read_at` says what an access
//! of `len` bytes reads, `mem_after_write`/`clint_after_write` what a write
//! leaves behind.

use vstd::prelude::*;

use crate::bytes::{
    bit0, bit0_exec, low64, widen32, widen32_exec, bytes_of, lemma_le_value_concat,
    lemma_le_bytes_prefix, compose, le_bytes, le_value, lemma_le_bytes_index, lemma_le_bytes_len,
    lemma_le_value_bound, lemma_le_value_of_bytes, lemma_pow256_facts, lemma_pow256_mono, pow256,
    splice,
};
use crate::exception::Exception;

verus! {

/// Start address of DRAM. RISC-V convention (same as Spike / QEMU virt).
/// Addresses below this are reserved territory for ROM and MMIO.
pub const DRAM_BASE: u64 = 0x8000_0000;

/// DRAM size (128 MiB).
pub const DRAM_SIZE: u64 = 128 * 1024 * 1024;

/// CLINT (Core-Local INTerruptor) base address, per the QEMU virt layout.
pub const CLINT_BASE: u64 = 0x200_0000;

/// Size of the CLINT window.
pub const CLINT_SIZE: u64 = 0x10000;

// Register offsets within the CLINT (hart 0).
/// Offset of msip, the software-interrupt doorbell.
pub const CLINT_MSIP: u64 = 0x0;

/// Offset of mtimecmp, the timer compare register.
pub const CLINT_MTIMECMP: u64 = 0x4000;

/// Offset of mtime, the clock.
pub const CLINT_MTIME: u64 = 0xbff8;

/// The machine's clock and software-interrupt doorbell. mtime counts time
/// (one tick per executed instruction, this machine's definition of time);
/// MTIP is asserted while mtime >= mtimecmp — so "interrupt me at time T"
/// is written as `mtimecmp = T`, and writing mtimecmp is also how the
/// handler acknowledges the interrupt. msip is a 1-bit doorbell wired
/// straight to the MSIP pending bit (harts ring each other with it).
#[derive(Debug, Clone, Copy, PartialEq, Eq, Structural)]
pub struct Clint {
    pub mtime: u64,
    pub mtimecmp: u64,
    pub msip: u32,
}

impl Clint {
    /// The 64-bit register containing byte `off` of the CLINT window, as
    /// (register offset, register value).
    pub open spec fn reg_at_spec(self, off: u64) -> Option<(u64, u64)> {
        if off <= 0x3 {
            Some((CLINT_MSIP, widen32(self.msip)))
        } else if CLINT_MTIMECMP <= off <= 0x4007 {
            Some((CLINT_MTIMECMP, self.mtimecmp))
        } else if CLINT_MTIME <= off <= 0xbfff {
            Some((CLINT_MTIME, self.mtime))
        } else {
            None
        }
    }

    /// All registers zero (the reset state).
    pub open spec fn reset() -> Clint {
        Clint { mtime: 0, mtimecmp: 0, msip: 0 }
    }

    /// The CLINT with register `base` set to `v` (msip keeps only bit 0).
    pub open spec fn with_reg(self, base: u64, v: u64) -> Clint {
        if base == CLINT_MSIP {
            Clint { mtime: self.mtime, mtimecmp: self.mtimecmp, msip: bit0(v) }
        } else if base == CLINT_MTIMECMP {
            Clint { mtime: self.mtime, mtimecmp: v, msip: self.msip }
        } else {
            Clint { mtime: v, mtimecmp: self.mtimecmp, msip: self.msip }
        }
    }

    fn new_reset() -> (c: Clint)
        ensures
            c == Clint::reset(),
    {
        Clint { mtime: 0, mtimecmp: 0, msip: 0 }
    }

    /// Set register `base` to `v` (msip keeps only bit 0).
    fn set_reg(&mut self, base: u64, v: u64)
        ensures
            *final(self) == old(self).with_reg(base, v),
    {
        if base == CLINT_MSIP {
            self.msip = bit0_exec(v);
        } else if base == CLINT_MTIMECMP {
            self.mtimecmp = v;
        } else {
            self.mtime = v;
        }
    }

    /// The 64-bit register containing byte `off`, as (register base, value).
    fn reg_at(&self, off: u64) -> (r: Option<(u64, u64)>)
        ensures
            r == self.reg_at_spec(off),
    {
        if off <= 0x3 {
            Some((CLINT_MSIP, widen32_exec(self.msip)))
        } else if CLINT_MTIMECMP <= off && off <= 0x4007 {
            Some((CLINT_MTIMECMP, self.mtimecmp))
        } else if CLINT_MTIME <= off && off <= 0xbfff {
            Some((CLINT_MTIME, self.mtime))
        } else {
            None
        }
    }
}

/// `addr` falls inside the CLINT window.
pub open spec fn in_clint(addr: u64) -> bool {
    CLINT_BASE <= addr < CLINT_BASE + CLINT_SIZE
}

/// `[addr, addr + len)` lies inside DRAM.
pub open spec fn in_dram(addr: u64, len: nat) -> bool {
    DRAM_BASE <= addr && addr + len <= DRAM_BASE + DRAM_SIZE
}

/// The CLINT register that an access of `len` bytes at `addr` (inside the
/// CLINT window) touches, provided the access stays inside that register.
pub open spec fn clint_target(clint: Clint, addr: u64, len: nat) -> Option<(u64, u64)> {
    match clint.reg_at_spec((addr - CLINT_BASE) as u64) {
        Some((base, value)) => if addr - CLINT_BASE - base + len <= 8 {
            Some((base, value))
        } else {
            None
        },
        None => None,
    }
}

/// What a read of `len` bytes at `addr` returns (little-endian), or `None`
/// when the access faults.
pub open spec fn read_at(mem: Seq<u8>, clint: Clint, addr: u64, len: nat) -> Option<nat> {
    if in_clint(addr) {
        match clint_target(clint, addr, len) {
            Some((base, value)) => {
                let lo = addr - CLINT_BASE - base;
                Some(le_value(le_bytes(value as nat, 8).subrange(lo, lo + len)))
            },
            None => None,
        }
    } else if in_dram(addr, len) {
        let off = addr - DRAM_BASE;
        Some(le_value(mem.subrange(off, off + len)))
    } else {
        None
    }
}

/// A write of `len` bytes at `addr` succeeds.
pub open spec fn write_ok(clint: Clint, addr: u64, len: nat) -> bool {
    if in_clint(addr) {
        clint_target(clint, addr, len) is Some
    } else {
        in_dram(addr, len)
    }
}

/// DRAM after writing `bytes` at `addr` (unchanged when the write does not
/// land in DRAM).
pub open spec fn mem_after_write(mem: Seq<u8>, addr: u64, bytes: Seq<u8>) -> Seq<u8> {
    if !in_clint(addr) && in_dram(addr, bytes.len()) {
        splice(mem, addr - DRAM_BASE, bytes)
    } else {
        mem
    }
}

/// The CLINT after writing `bytes` at `addr`: the bytes replace their part of
/// the containing register; msip keeps only bit 0. Unchanged when the write
/// does not land in one CLINT register.
pub open spec fn clint_after_write(clint: Clint, addr: u64, bytes: Seq<u8>) -> Clint {
    if in_clint(addr) {
        match clint_target(clint, addr, bytes.len()) {
            Some((base, value)) => clint.with_reg(
                base,
                low64(reg_after_write(value, addr - CLINT_BASE - base, bytes)),
            ),
            None => clint,
        }
    } else {
        clint
    }
}

/// The value of a 64-bit register after `bytes` replace its bytes from `lo` on.
pub open spec fn reg_after_write(value: u64, lo: int, bytes: Seq<u8>) -> nat {
    le_value(splice(le_bytes(value as nat, 8), lo, bytes))
}

/// A read returns a value of its width.
pub proof fn lemma_read_bound(mem: Seq<u8>, clint: Clint, addr: u64, len: nat)
    requires
        mem.len() == DRAM_SIZE,
        len <= 8,
    ensures
        read_at(mem, clint, addr, len) matches Some(v) ==> v < pow256(len),
{
    if in_clint(addr) {
        if let Some((base, value)) = clint_target(clint, addr, len) {
            let lo = addr - CLINT_BASE - base;
            lemma_le_bytes_len(value as nat, 8);
            lemma_le_value_bound(le_bytes(value as nat, 8).subrange(lo, lo + len));
        }
    } else if in_dram(addr, len) {
        let off = addr - DRAM_BASE;
        lemma_le_value_bound(mem.subrange(off, off + len));
    }
}

/// Read after write: reading exactly the bytes just written into DRAM
/// returns their little-endian value.
pub proof fn law_dram_read_after_write(mem: Seq<u8>, clint: Clint, addr: u64, bytes: Seq<u8>)
    requires
        mem.len() == DRAM_SIZE,
        in_dram(addr, bytes.len()),
    ensures
        read_at(
            mem_after_write(mem, addr, bytes),
            clint_after_write(clint, addr, bytes),
            addr,
            bytes.len(),
        ) == Some(le_value(bytes)),
{
    let off = addr - DRAM_BASE;
    let after = mem_after_write(mem, addr, bytes);
    assert(after.subrange(off, off + bytes.len()) =~= bytes);
}

/// Store then load: a value stored `n` bytes wide into DRAM loads back
/// modulo 256^n (the whole value for a full-width access).
pub proof fn law_dram_store_load_roundtrip(mem: Seq<u8>, clint: Clint, addr: u64, x: nat, n: nat)
    requires
        mem.len() == DRAM_SIZE,
        in_dram(addr, n),
    ensures
        read_at(
            mem_after_write(mem, addr, le_bytes(x, n)),
            clint_after_write(clint, addr, le_bytes(x, n)),
            addr,
            n,
        ) == Some(x % pow256(n)),
{
    lemma_le_bytes_len(x, n);
    law_dram_read_after_write(mem, clint, addr, le_bytes(x, n));
    lemma_le_value_of_bytes(x, n);
}

/// Little-endian layout: after a value is stored `n` bytes wide at `addr`,
/// the byte at `addr + k` is byte `k` of the value (the least significant
/// byte at the lowest address).
pub proof fn law_little_endian_layout(
    mem: Seq<u8>,
    clint: Clint,
    addr: u64,
    x: nat,
    n: nat,
    k: nat,
)
    requires
        mem.len() == DRAM_SIZE,
        in_dram(addr, n),
        k < n,
    ensures
        read_at(
            mem_after_write(mem, addr, le_bytes(x, n)),
            clint_after_write(clint, addr, le_bytes(x, n)),
            (addr + k) as u64,
            1,
        ) == Some((x / pow256(k)) % 256),
{
    lemma_le_bytes_len(x, n);
    lemma_le_bytes_index(x, n, k);
    let after = mem_after_write(mem, addr, le_bytes(x, n));
    let off = addr + k - DRAM_BASE;
    let w = after.subrange(off, off + 1);
    assert(w.drop_first() =~= Seq::<u8>::empty());
    assert(le_value(w.drop_first()) == 0);
    assert(after[off] == le_bytes(x, n)[k as int]);
    assert(w[0] == le_bytes(x, n)[k as int]);
    assert(le_value(w) == w[0] as nat);
}

/// The value of `n` single-byte reads from `a` on, joined little-endian
/// (the byte at `a` least significant).
pub open spec fn bytes_joined(mem: Seq<u8>, clint: Clint, a: u64, n: nat) -> nat
    decreases n,
{
    if n == 0 {
        0
    } else {
        read_at(mem, clint, a, 1).unwrap() + 256 * bytes_joined(mem, clint, (a + 1) as u64, (n - 1) as nat)
    }
}

/// A DRAM load of any width and alignment is the little-endian join of the
/// byte loads it covers.
pub proof fn law_load_joins_bytes(mem: Seq<u8>, clint: Clint, a: u64, n: nat)
    requires
        mem.len() == DRAM_SIZE,
        in_dram(a, n),
    ensures
        read_at(mem, clint, a, n) == Some(bytes_joined(mem, clint, a, n)),
    decreases n,
{
    let off = a - DRAM_BASE;
    if n == 0 {
        assert(mem.subrange(off, off) =~= Seq::<u8>::empty());
    } else {
        law_load_joins_bytes(mem, clint, (a + 1) as u64, (n - 1) as nat);
        let w = mem.subrange(off, off + n);
        assert(w.drop_first() =~= mem.subrange(off + 1, off + n));
        let b = mem.subrange(off, off + 1);
        assert(b.drop_first() =~= Seq::<u8>::empty());
        assert(le_value(b.drop_first()) == 0);
        assert(le_value(b) == mem[off] as nat);
    }
}

/// Each byte written to DRAM reads back on its own, and every byte outside
/// the write reads as it did before.
pub proof fn law_written_bytes_read_back(mem: Seq<u8>, clint: Clint, a: u64, bytes: Seq<u8>, b: u64)
    requires
        mem.len() == DRAM_SIZE,
        in_dram(a, bytes.len()),
    ensures
        a <= b < a + bytes.len() ==> read_at(
            mem_after_write(mem, a, bytes),
            clint_after_write(clint, a, bytes),
            b,
            1,
        ) == Some(bytes[b - a] as nat),
        !(a <= b < a + bytes.len()) ==> read_at(
            mem_after_write(mem, a, bytes),
            clint_after_write(clint, a, bytes),
            b,
            1,
        ) == read_at(mem, clint, b, 1),
{
    if a <= b < a + bytes.len() {
        let after = mem_after_write(mem, a, bytes);
        let off = b - DRAM_BASE;
        let w = after.subrange(off, off + 1);
        assert(w.drop_first() =~= Seq::<u8>::empty());
        assert(le_value(w.drop_first()) == 0);
        assert(after[off] == bytes[b - a]);
        assert(le_value(w) == w[0] as nat);
    } else {
        law_dram_write_frame(mem, clint, a, bytes, b, 1);
    }
}

/// Writing DRAM leaves every access to other addresses reading what it read
/// before (CLINT accesses included).
pub proof fn law_dram_write_frame(
    mem: Seq<u8>,
    clint: Clint,
    a: u64,
    bytes: Seq<u8>,
    b: u64,
    len: nat,
)
    requires
        mem.len() == DRAM_SIZE,
        in_dram(a, bytes.len()),
        b + len <= a || a + bytes.len() <= b,
    ensures
        read_at(mem_after_write(mem, a, bytes), clint_after_write(clint, a, bytes), b, len)
            == read_at(mem, clint, b, len),
{
    let after = mem_after_write(mem, a, bytes);
    if !in_clint(b) && in_dram(b, len) {
        let off = b - DRAM_BASE;
        assert(after.subrange(off, off + len) =~= mem.subrange(off, off + len));
    }
}

/// The CLINT timer registers behave as memory: a full 8-byte write of mtimecmp
/// or mtime reads back unchanged.
pub proof fn law_clint_timer_roundtrip(mem: Seq<u8>, clint: Clint, base: u64, x: u64)
    requires
        base == CLINT_MTIMECMP || base == CLINT_MTIME,
    ensures
        read_at(
            mem_after_write(mem, (CLINT_BASE + base) as u64, le_bytes(x as nat, 8)),
            clint_after_write(clint, (CLINT_BASE + base) as u64, le_bytes(x as nat, 8)),
            (CLINT_BASE + base) as u64,
            8,
        ) == Some(x as nat),
{
    let a = (CLINT_BASE + base) as u64;
    let bytes = le_bytes(x as nat, 8);
    lemma_le_bytes_len(x as nat, 8);
    let (_, v) = clint_target(clint, a, 8)->Some_0;
    lemma_le_bytes_len(v as nat, 8);
    assert(splice(le_bytes(v as nat, 8), 0, bytes) =~= bytes);
    lemma_le_value_of_bytes(x as nat, 8);
    lemma_pow256_facts();
    assert(le_bytes(x as nat, 8).subrange(0, 8) =~= le_bytes(x as nat, 8));
}

/// msip is a one-bit doorbell: a 32-bit write keeps only bit 0, and reads
/// back as that bit.
pub proof fn law_msip_is_one_bit(mem: Seq<u8>, clint: Clint, x: u32)
    ensures
        read_at(
            mem_after_write(mem, CLINT_BASE, le_bytes(x as nat, 4)),
            clint_after_write(clint, CLINT_BASE, le_bytes(x as nat, 4)),
            CLINT_BASE,
            4,
        ) == Some((x % 2) as nat),
{
    let bytes = le_bytes(x as nat, 4);
    lemma_le_bytes_len(x as nat, 4);
    let old_bytes = le_bytes(widen32(clint.msip) as nat, 8);
    lemma_le_bytes_len(widen32(clint.msip) as nat, 8);
    let sp = splice(old_bytes, 0, bytes);
    assert(sp =~= bytes + old_bytes.subrange(4, 8));
    lemma_le_value_concat(bytes, old_bytes.subrange(4, 8));
    lemma_le_value_of_bytes(x as nat, 4);
    lemma_pow256_facts();
    let hi = le_value(old_bytes.subrange(4, 8));
    lemma_le_value_bound(sp);
    let v = le_value(sp);
    assert(v % 2 == x % 2) by (nonlinear_arith)
        requires
            v == (x as int) % 0x1_0000_0000int + 0x1_0000_0000int * hi,
    ;
    let after = clint_after_write(clint, CLINT_BASE, bytes);
    assert(after.msip == (x % 2) as u32);
    let nb = le_bytes(widen32(after.msip) as nat, 8);
    lemma_le_bytes_prefix(widen32(after.msip) as nat, 8, 4);
    lemma_le_value_of_bytes(widen32(after.msip) as nat, 4);
}

pub struct Bus {
    dram: Vec<u8>,
    pub clint: Clint,
}

impl Bus {
    /// The DRAM contents: byte `i` lives at address `DRAM_BASE + i`.
    pub closed spec fn mem(&self) -> Seq<u8> {
        self.dram@
    }

    /// The CLINT registers.
    pub closed spec fn clint_state(&self) -> Clint {
        self.clint
    }

    /// DRAM has its full size.
    pub open spec fn wf(&self) -> bool {
        self.mem().len() == DRAM_SIZE
    }

    /// What a read of `len` bytes at `addr` returns, or `None` on a fault.
    pub open spec fn read(&self, addr: u64, len: nat) -> Option<nat> {
        read_at(self.mem(), self.clint_state(), addr, len)
    }

    /// `after` is this bus after a write of `bytes` at `addr` that returned `r`:
    /// the write happened exactly when it fits, and faults otherwise.
    pub open spec fn store_post(
        &self,
        after: &Bus,
        addr: u64,
        bytes: Seq<u8>,
        r: Result<(), Exception>,
    ) -> bool {
        &&& after.wf()
        &&& (r is Ok <==> write_ok(self.clint_state(), addr, bytes.len()))
        &&& (r is Err ==> r == Err::<(), Exception>(Exception::StoreAmoAccessFault(addr)))
        &&& after.mem() == mem_after_write(self.mem(), addr, bytes)
        &&& after.clint_state() == clint_after_write(self.clint_state(), addr, bytes)
    }

    /// The result of a load of `len` bytes: the value read, or a load access fault.
    pub open spec fn load_result(&self, addr: u64, len: nat) -> Result<nat, Exception> {
        match self.read(addr, len) {
            Some(v) => Ok(v),
            None => Err(Exception::LoadAccessFault(addr)),
        }
    }

    pub fn new() -> (bus: Self)
        ensures
            bus.wf(),
            bus.mem() == Seq::new(DRAM_SIZE as nat, |i: int| 0u8),
            bus.clint_state() == Clint::reset(),
    {
        // Allocate the whole DRAM zero-filled. load_elf relies on this to satisfy
        // the zeroing of ELF .bss (zero-initialized regions) for free.
        let dram: Vec<u8> = vec![0u8; DRAM_SIZE as usize];
        let bus = Bus { dram, clint: Clint::new_reset() };
        assert(bus.mem() =~= Seq::new(DRAM_SIZE as nat, |i: int| 0u8));
        bus
    }

    /// If [addr, addr+len) fits in DRAM, return the offset into `dram`.
    fn dram_offset(&self, addr: u64, len: u64) -> (r: Option<usize>)
        ensures
            r == (if in_dram(addr, len as nat) {
                Some((addr - DRAM_BASE) as usize)
            } else {
                None::<usize>
            }),
    {
        let end = match addr.checked_add(len) {
            Some(e) => e,
            None => return None,
        };
        if addr >= DRAM_BASE && end <= DRAM_BASE + DRAM_SIZE {
            Some((addr - DRAM_BASE) as usize)
        } else {
            None
        }
    }

    /// Read `len` bytes at `addr` as a little-endian value.
    fn load_bytes(&self, addr: u64, len: u64) -> (r: Result<u64, Exception>)
        requires
            self.wf(),
            1 <= len <= 8,
        ensures
            r == (match self.load_result(addr, len as nat) {
                Ok(v) => Ok(v as u64),
                Err(e) => Err::<u64, Exception>(e),
            }),
            r matches Ok(v) ==> v < pow256(len as nat),
    {
        proof {
            lemma_read_bound(self.mem(), self.clint, addr, len as nat);
            lemma_pow256_facts();
            lemma_pow256_mono(len as nat, 8);
        }
        // MMIO: the CLINT pretends to be memory. Reads are served from the
        // containing 64-bit register's little-endian bytes.
        if CLINT_BASE <= addr && addr < CLINT_BASE + CLINT_SIZE {
            let off = addr - CLINT_BASE;
            match self.clint.reg_at(off) {
                None => return Err(Exception::LoadAccessFault(addr)),
                Some((base, value)) => {
                    let lo = off - base;
                    if len > 8 - lo {
                        return Err(Exception::LoadAccessFault(addr));
                    }
                    let b = bytes_of(value, 8);
                    proof {
                        lemma_le_bytes_len(value as nat, 8);
                    }
                    return Ok(compose(&b, lo as usize, len as usize));
                },
            }
        }
        match self.dram_offset(addr, len) {
            None => Err(Exception::LoadAccessFault(addr)),
            Some(off) => Ok(compose(&self.dram, off, len as usize)),
        }
    }

    /// Write `bytes` at `addr`: into the containing CLINT register
    /// (read-modify-write of its 8 little-endian bytes) or into DRAM.
    fn store_bytes(&mut self, addr: u64, bytes: &[u8]) -> (r: Result<(), Exception>)
        requires
            old(self).wf(),
        ensures
            old(self).store_post(final(self), addr, bytes@, r),
    {
        if CLINT_BASE <= addr && addr < CLINT_BASE + CLINT_SIZE {
            let off = addr - CLINT_BASE;
            match self.clint.reg_at(off) {
                None => return Err(Exception::StoreAmoAccessFault(addr)),
                Some((base, value)) => {
                    let lo = off - base;
                    if bytes.len() as u64 > 8 - lo {
                        return Err(Exception::StoreAmoAccessFault(addr));
                    }
                    let mut b = bytes_of(value, 8);
                    proof {
                        lemma_le_bytes_len(value as nat, 8);
                    }
                    let ghost b0 = b@;
                    let mut i: usize = 0;
                    while i < bytes.len()
                        invariant
                            i <= bytes@.len(),
                            lo + bytes@.len() <= 8,
                            b@.len() == 8,
                            b0.len() == 8,
                            forall|j: int|
                                0 <= j < 8 ==> b@[j] == (if lo <= j < lo + i {
                                    bytes@[j - lo]
                                } else {
                                    b0[j]
                                }),
                        decreases bytes@.len() - i,
                    {
                        b.set(lo as usize + i, bytes[i]);
                        i = i + 1;
                    }
                    assert(b@ =~= splice(b0, lo as int, bytes@));
                    let v = compose(&b, 0, 8);
                    assert(b@.subrange(0, 8) =~= b@);
                    self.clint.set_reg(base, v);
                    return Ok(());
                },
            }
        }
        match self.dram_offset(addr, bytes.len() as u64) {
            None => Err(Exception::StoreAmoAccessFault(addr)),
            Some(off) => {
                let ghost m0 = self.dram@;
                let mut i: usize = 0;
                while i < bytes.len()
                    invariant
                        i <= bytes@.len(),
                        off + bytes@.len() <= m0.len(),
                        self.dram@.len() == m0.len(),
                        off + bytes.len() <= self.dram.len(),
                        self.clint == old(self).clint,
                        forall|j: int|
                            0 <= j < m0.len() ==> self.dram@[j] == (if off <= j < off + i {
                                bytes@[j - off]
                            } else {
                                m0[j]
                            }),
                    decreases bytes@.len() - i,
                {
                    self.dram.set(off + i, bytes[i]);
                    i = i + 1;
                }
                assert(self.dram@ =~= splice(m0, off as int, bytes@));
                Ok(())
            },
        }
    }

    // RISC-V is little-endian: every access goes through the little-endian
    // reading of its bytes.
    pub fn load8(&self, addr: u64) -> (r: Result<u8, Exception>)
        requires
            self.wf(),
        ensures
            r == (match self.load_result(addr, 1) {
                Ok(v) => Ok(v as u8),
                Err(e) => Err::<u8, Exception>(e),
            }),
    {
        proof {
            lemma_pow256_facts();
            lemma_read_bound(self.mem(), self.clint_state(), addr, 1);
        }
        match self.load_bytes(addr, 1) {
            Ok(v) => Ok(v as u8),
            Err(e) => Err(e),
        }
    }

    pub fn load16(&self, addr: u64) -> (r: Result<u16, Exception>)
        requires
            self.wf(),
        ensures
            r == (match self.load_result(addr, 2) {
                Ok(v) => Ok(v as u16),
                Err(e) => Err::<u16, Exception>(e),
            }),
    {
        proof {
            lemma_pow256_facts();
            lemma_read_bound(self.mem(), self.clint_state(), addr, 2);
        }
        match self.load_bytes(addr, 2) {
            Ok(v) => Ok(v as u16),
            Err(e) => Err(e),
        }
    }

    pub fn load32(&self, addr: u64) -> (r: Result<u32, Exception>)
        requires
            self.wf(),
        ensures
            r == (match self.load_result(addr, 4) {
                Ok(v) => Ok(v as u32),
                Err(e) => Err::<u32, Exception>(e),
            }),
    {
        proof {
            lemma_pow256_facts();
            lemma_read_bound(self.mem(), self.clint_state(), addr, 4);
        }
        match self.load_bytes(addr, 4) {
            Ok(v) => Ok(v as u32),
            Err(e) => Err(e),
        }
    }

    pub fn load64(&self, addr: u64) -> (r: Result<u64, Exception>)
        requires
            self.wf(),
        ensures
            r == (match self.load_result(addr, 8) {
                Ok(v) => Ok(v as u64),
                Err(e) => Err::<u64, Exception>(e),
            }),
    {
        self.load_bytes(addr, 8)
    }

    pub fn store8(&mut self, addr: u64, value: u8) -> (r: Result<(), Exception>)
        requires
            old(self).wf(),
        ensures
            old(self).store_post(final(self), addr, le_bytes(value as nat, 1), r),
            r is Ok <==> write_ok(old(self).clint_state(), addr, 1),
    {
        proof {
            lemma_le_bytes_len(value as nat, 1);
        }
        let b = bytes_of(value as u64, 1);
        self.store_bytes(addr, b.as_slice())
    }

    pub fn store16(&mut self, addr: u64, value: u16) -> (r: Result<(), Exception>)
        requires
            old(self).wf(),
        ensures
            old(self).store_post(final(self), addr, le_bytes(value as nat, 2), r),
            r is Ok <==> write_ok(old(self).clint_state(), addr, 2),
    {
        proof {
            lemma_le_bytes_len(value as nat, 2);
        }
        let b = bytes_of(value as u64, 2);
        self.store_bytes(addr, b.as_slice())
    }

    pub fn store32(&mut self, addr: u64, value: u32) -> (r: Result<(), Exception>)
        requires
            old(self).wf(),
        ensures
            old(self).store_post(final(self), addr, le_bytes(value as nat, 4), r),
            r is Ok <==> write_ok(old(self).clint_state(), addr, 4),
    {
        proof {
            lemma_le_bytes_len(value as nat, 4);
        }
        let b = bytes_of(value as u64, 4);
        self.store_bytes(addr, b.as_slice())
    }

    pub fn store64(&mut self, addr: u64, value: u64) -> (r: Result<(), Exception>)
        requires
            old(self).wf(),
        ensures
            old(self).store_post(final(self), addr, le_bytes(value as nat, 8), r),
            r is Ok <==> write_ok(old(self).clint_state(), addr, 8),
    {
        proof {
            lemma_le_bytes_len(value as nat, 8);
        }
        let b = bytes_of(value, 8);
        self.store_bytes(addr, b.as_slice())
    }

    /// Bulk write, e.g. for loading ELF segments.
    pub fn write_bytes(&mut self, addr: u64, data: &[u8]) -> (r: Result<(), Exception>)
        requires
            old(self).wf(),
        ensures
            old(self).store_post(final(self), addr, data@, r),
    {
        self.store_bytes(addr, data)
    }
}

impl Default for Bus {
    fn default() -> (bus: Self)
        ensures
            bus.wf(),
            bus.mem() == Seq::new(DRAM_SIZE as nat, |i: int| 0u8),
            bus.clint_state() == Clint::reset(),
    {
        Self::new()
    }
}

} // verus!
