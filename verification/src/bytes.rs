//! Little-endian byte sequences: the mathematical reading of a run of bytes
//! as an unsigned number, and its inverse.

use vstd::prelude::*;

use crate::alu::lemma_bit_facts;

verus! {

/// 256 to the power `n`: the number of distinct values `n` bytes can hold.
pub open spec fn pow256(n: nat) -> nat
    decreases n,
{
    if n == 0 {
        1
    } else {
        256 * pow256((n - 1) as nat)
    }
}

/// The unsigned value of a little-endian byte sequence: the byte at index 0
/// is the least significant.
pub open spec fn le_value(s: Seq<u8>) -> nat
    decreases s.len(),
{
    if s.len() == 0 {
        0
    } else {
        s[0] as nat + 256 * le_value(s.drop_first())
    }
}

/// The `n` least significant bytes of `x`, least significant first.
pub open spec fn le_bytes(x: nat, n: nat) -> Seq<u8>
    decreases n,
{
    if n == 0 {
        Seq::empty()
    } else {
        seq![(x % 256) as u8] + le_bytes(x / 256, (n - 1) as nat)
    }
}

/// A 32-bit register value widened to 64 bits.
pub open spec fn widen32(x: u32) -> u64 {
    x as u64
}

/// The 64 low bits of a number.
pub open spec fn low64(v: nat) -> u64 {
    v as u64
}

/// Bit 0 of a 64-bit value, as a 32-bit register value.
pub open spec fn bit0(v: u64) -> u32 {
    (v % 2) as u32
}

/// `s` with the bytes of `b` written over it starting at index `at`.
pub open spec fn splice(s: Seq<u8>, at: int, b: Seq<u8>) -> Seq<u8> {
    s.subrange(0, at) + b + s.subrange(at + b.len(), s.len() as int)
}

pub proof fn lemma_pow256_facts()
    ensures
        pow256(1) == 256,
        pow256(2) == 0x10000,
        pow256(4) == 0x1_0000_0000,
        pow256(8) == 0x1_0000_0000_0000_0000,
{
    reveal_with_fuel(pow256, 9);
}

pub proof fn lemma_pow256_pos(n: nat)
    ensures
        pow256(n) >= 1,
    decreases n,
{
    if n > 0 {
        lemma_pow256_pos((n - 1) as nat);
    }
}

pub proof fn lemma_pow256_mono(m: nat, n: nat)
    requires
        m <= n,
    ensures
        pow256(m) <= pow256(n),
    decreases n,
{
    if m < n {
        lemma_pow256_mono(m, (n - 1) as nat);
    }
}

/// The bytes of a number have the requested length.
pub proof fn lemma_le_bytes_len(x: nat, n: nat)
    ensures
        le_bytes(x, n).len() == n,
    decreases n,
{
    if n > 0 {
        lemma_le_bytes_len(x / 256, (n - 1) as nat);
    }
}

/// A little-endian value of `k` bytes is below 256^k.
pub proof fn lemma_le_value_bound(s: Seq<u8>)
    ensures
        le_value(s) < pow256(s.len()),
    decreases s.len(),
{
    if s.len() > 0 {
        lemma_le_value_bound(s.drop_first());
    }
}

/// Reading back the bytes of `x` gives `x` modulo the width.
pub proof fn lemma_le_value_of_bytes(x: nat, n: nat)
    ensures
        le_value(le_bytes(x, n)) == x % pow256(n),
    decreases n,
{
    if n > 0 {
        let rest = le_bytes(x / 256, (n - 1) as nat);
        lemma_le_value_of_bytes(x / 256, (n - 1) as nat);
        assert(le_bytes(x, n).drop_first() =~= rest);
        lemma_pow256_pos((n - 1) as nat);
        let p = pow256((n - 1) as nat);
        assert(x % 256 + 256 * ((x / 256) % p) == x % (256 * p)) by (nonlinear_arith)
            requires
                p >= 1,
        {
            vstd::arithmetic::div_mod::lemma_breakdown(x as int, 256, p as int);
        }
    }
}

/// Byte `k` of the little-endian bytes of `x`.
pub proof fn lemma_le_bytes_index(x: nat, n: nat, k: nat)
    requires
        k < n,
    ensures
        le_bytes(x, n)[k as int] == ((x / pow256(k)) % 256) as u8,
    decreases k,
{
    lemma_le_bytes_len(x, n);
    lemma_le_bytes_len(x / 256, (n - 1) as nat);
    let rest = le_bytes(x / 256, (n - 1) as nat);
    assert(le_bytes(x, n) == seq![(x % 256) as u8] + rest);
    if k > 0 {
        lemma_le_bytes_index(x / 256, (n - 1) as nat, (k - 1) as nat);
        assert(le_bytes(x, n)[k as int] == rest[k - 1]);
        lemma_pow256_pos((k - 1) as nat);
        assert(pow256(k) == 256 * pow256((k - 1) as nat));
        vstd::arithmetic::div_mod::lemma_div_denominator(
            x as int,
            256,
            pow256((k - 1) as nat) as int,
        );
    } else {
        assert(pow256(0) == 1);
    }
}

/// The value of a concatenation: the second part sits above the first.
pub proof fn lemma_le_value_concat(a: Seq<u8>, b: Seq<u8>)
    ensures
        le_value(a + b) == le_value(a) + pow256(a.len()) * le_value(b),
    decreases a.len(),
{
    if a.len() == 0 {
        assert(a + b =~= b);
    } else {
        lemma_le_value_concat(a.drop_first(), b);
        assert((a + b).drop_first() =~= a.drop_first() + b);
        assert((a + b)[0] == a[0]);
        let p = pow256((a.len() - 1) as nat);
        assert(pow256(a.len()) == 256 * p);
        let lb = le_value(b);
        assert(256 * (le_value(a.drop_first()) + p * lb) == 256 * le_value(a.drop_first()) + (256
            * p) * lb) by (nonlinear_arith);
    }
}

/// The first `k` of the `n` bytes of `y` are the `k` bytes of `y`.
pub proof fn lemma_le_bytes_prefix(y: nat, n: nat, k: nat)
    requires
        k <= n,
    ensures
        le_bytes(y, n).subrange(0, k as int) == le_bytes(y, k),
    decreases k,
{
    lemma_le_bytes_len(y, n);
    lemma_le_bytes_len(y, k);
    if k > 0 {
        lemma_le_bytes_prefix(y / 256, (n - 1) as nat, (k - 1) as nat);
        assert(le_bytes(y, n).subrange(0, k as int) =~= le_bytes(y, k));
    } else {
        assert(le_bytes(y, n).subrange(0, 0) =~= Seq::<u8>::empty());
    }
}

/// Only the low `n` bytes of a value reach its `n`-byte encoding.
pub proof fn lemma_le_bytes_mod(x: nat, n: nat)
    ensures
        le_bytes(x % pow256(n), n) == le_bytes(x, n),
    decreases n,
{
    if n > 0 {
        let p = pow256((n - 1) as nat);
        lemma_pow256_pos((n - 1) as nat);
        assert(pow256(n) == 256 * p);
        let y = x % (256 * p);
        vstd::arithmetic::div_mod::lemma_mod_mod(x as int, 256, p as int);
        assert(y % 256 == x % 256);
        vstd::arithmetic::div_mod::lemma_mod_breakdown(x as int, 256, p as int);
        assert(y / 256 == (x / 256) % p);
        lemma_le_bytes_mod(x / 256, (n - 1) as nat);
        assert(le_bytes(y, n) =~= le_bytes(x, n));
    }
}

/// Peeling off the first byte of a window of `s`.
pub proof fn lemma_le_value_window(s: Seq<u8>, i: int, j: int)
    requires
        0 <= i < j <= s.len(),
    ensures
        le_value(s.subrange(i, j)) == s[i] as nat + 256 * le_value(s.subrange(i + 1, j)),
{
    assert(s.subrange(i, j).drop_first() =~= s.subrange(i + 1, j));
}

/// Widen a 32-bit value.
pub fn widen32_exec(x: u32) -> (r: u64)
    ensures
        r == widen32(x),
{
    x as u64
}

/// Bit 0 of a 64-bit value, as a 32-bit value.
pub fn bit0_exec(v: u64) -> (r: u32)
    ensures
        r == bit0(v),
{
    let m: u32 = (v as u32) & 1;
    proof {
        lemma_bit_facts(v, 0, 0, 0);
    }
    m
}

/// The `n` low bytes of `x`, least significant first.
pub fn bytes_of(x: u64, n: usize) -> (v: Vec<u8>)
    requires
        n <= 8,
    ensures
        v@ == le_bytes(x as nat, n as nat),
{
    let mut v: Vec<u8> = Vec::new();
    let mut cur: u64 = x;
    let mut i: usize = 0;
    proof {
        assert(le_bytes(x as nat, n as nat) =~= v@ + le_bytes(cur as nat, (n - i) as nat));
    }
    while i < n
        invariant
            i <= n,
            v@ + le_bytes(cur as nat, (n - i) as nat) == le_bytes(x as nat, n as nat),
        decreases n - i,
    {
        let b: u8 = cur as u8;
        let next: u64 = cur >> 8;
        proof {
            lemma_bit_facts(cur, 0, 0, 0);
        }
        let ghost old_v = v@;
        let ghost rest = le_bytes(cur as nat, (n - i) as nat);
        assert(rest =~= seq![b] + le_bytes(next as nat, (n - i - 1) as nat));
        v.push(b);
        assert(v@ + le_bytes(next as nat, (n - i - 1) as nat) =~= old_v + rest);
        cur = next;
        i = i + 1;
    }
    assert(v@ =~= v@ + le_bytes(cur as nat, 0));
    v
}

/// The little-endian value of `len` bytes of `bytes` starting at `start`.
pub fn compose(bytes: &Vec<u8>, start: usize, len: usize) -> (r: u64)
    requires
        len <= 8,
        start + len <= bytes@.len(),
    ensures
        r == le_value(bytes@.subrange(start as int, start + len)),
{
    let mut acc: u64 = 0;
    let mut i: usize = len;
    proof {
        assert(bytes@.subrange(start + len, start + len) =~= Seq::<u8>::empty());
        reveal_with_fuel(pow256, 1);
    }
    while i > 0
        invariant
            i <= len <= 8,
            start + len <= bytes.len(),
            acc == le_value(bytes@.subrange(start + i, start + len)),
            acc < pow256((len - i) as nat),
        decreases i,
    {
        i = i - 1;
        let b = bytes[start + i];
        proof {
            lemma_le_value_window(bytes@, start + i, start + len);
            lemma_pow256_facts();
            lemma_pow256_mono((len - i) as nat, 8);
            assert(pow256((len - i) as nat) == 256 * pow256((len - i - 1) as nat));
        }
        acc = acc * 256 + b as u64;
    }
    acc
}

} // verus!
