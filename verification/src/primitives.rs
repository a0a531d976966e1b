//! Offset validation, 8-byte alignment and little/big-endian field decoding
//! over an immutable byte buffer.

use vstd::prelude::*;

verus! {

/// An offset is valid when it is a multiple of 8.
pub open spec fn spec_is_aligned8(u: int) -> bool {
    u % 8 == 0
}

/// Round up to the next multiple of 8.
pub open spec fn spec_align8(u: int) -> int {
    ((u + 7) / 8) * 8
}

pub proof fn lemma_align8_bounds(u: int)
    requires
        0 <= u,
    ensures
        u <= spec_align8(u) <= u + 7,
        spec_is_aligned8(spec_align8(u)),
{
    vstd::arithmetic::div_mod::lemma_fundamental_div_mod(u + 7, 8);
    let q = (u + 7) / 8;
    assert((q * 8) % 8 == 0) by (nonlinear_arith);
}

/// True when `u` is 8-byte aligned.
pub fn is_valid64(u: u64) -> (r: bool)
    ensures
        r == spec_is_aligned8(u as int),
{
    proof {
        assert((u & 7) == u % 8) by (bit_vector);
    }
    u & 7 == 0
}

/// Round `u` up to the next multiple of 8.
pub fn align64(u: u64) -> (r: u64)
    requires
        u + 7 <= u64::MAX,
    ensures
        r == spec_align8(u as int),
{
    proof {
        let v = (u + 7) as u64;
        assert((v & !7u64) == ((v / 8) * 8)) by (bit_vector);
    }
    (u + 7u64) & !7u64
}

/// The value of two little-endian bytes starting at `i`.
pub open spec fn le16_at(s: Seq<u8>, i: int) -> int {
    s[i] + 0x100 * s[i + 1]
}

/// The value of four little-endian bytes starting at `i`.
pub open spec fn le32_at(s: Seq<u8>, i: int) -> int {
    s[i] + 0x100 * s[i + 1] + 0x1_0000 * s[i + 2] + 0x100_0000 * s[i + 3]
}

/// The value of eight little-endian bytes starting at `i`.
pub open spec fn le64_at(s: Seq<u8>, i: int) -> int {
    le32_at(s, i) + 0x1_0000_0000 * le32_at(s, i + 4)
}

/// The value of sixteen little-endian bytes starting at `i`.
pub open spec fn le128_at(s: Seq<u8>, i: int) -> int {
    le64_at(s, i) + 0x1_0000_0000_0000_0000 * le64_at(s, i + 8)
}

/// The value of sixteen big-endian bytes starting at `i`.
pub open spec fn be128_at(s: Seq<u8>, i: int) -> int {
    be64_at(s, i + 8) + 0x1_0000_0000_0000_0000 * be64_at(s, i)
}

/// The value of eight big-endian bytes starting at `i`.
pub open spec fn be64_at(s: Seq<u8>, i: int) -> int {
    be32_at(s, i + 4) + 0x1_0000_0000 * be32_at(s, i)
}

/// The value of four big-endian bytes starting at `i`.
pub open spec fn be32_at(s: Seq<u8>, i: int) -> int {
    s[i + 3] + 0x100 * s[i + 2] + 0x1_0000 * s[i + 1] + 0x100_0000 * s[i]
}

/// Read a `u32` stored in little-endian order at `off`.
pub fn read_u32_le(buf: &[u8], off: usize) -> (r: u32)
    requires
        off + 4 <= buf.len(),
    ensures
        r == le32_at(buf@, off as int),
{
    let b0 = buf[off] as u32;
    let b1 = buf[off + 1] as u32;
    let b2 = buf[off + 2] as u32;
    let b3 = buf[off + 3] as u32;
    b0 + 0x100 * b1 + 0x1_0000 * b2 + 0x100_0000 * b3
}

/// Read a `u64` stored in little-endian order at `off`.
pub fn read_u64_le(buf: &[u8], off: usize) -> (r: u64)
    requires
        off + 8 <= buf.len(),
    ensures
        r == le64_at(buf@, off as int),
{
    let lo = read_u32_le(buf, off) as u64;
    let hi = read_u32_le(buf, off + 4) as u64;
    lo + 0x1_0000_0000 * hi
}

/// Read a `u128` stored in little-endian order at `off`.
pub fn read_u128_le(buf: &[u8], off: usize) -> (r: u128)
    requires
        off + 16 <= buf.len(),
    ensures
        r == le128_at(buf@, off as int),
{
    let lo = read_u64_le(buf, off) as u128;
    let hi = read_u64_le(buf, off + 8) as u128;
    lo + 0x1_0000_0000_0000_0000 * hi
}

/// Read a `u128` stored in big-endian order at `off`.
pub fn read_u128_be(buf: &[u8], off: usize) -> (r: u128)
    requires
        off + 16 <= buf.len(),
    ensures
        r == be128_at(buf@, off as int),
{
    let b0 = buf[off + 7] as u64;
    let b1 = buf[off + 6] as u64;
    let b2 = buf[off + 5] as u64;
    let b3 = buf[off + 4] as u64;
    let b4 = buf[off + 3] as u64;
    let b5 = buf[off + 2] as u64;
    let b6 = buf[off + 1] as u64;
    let b7 = buf[off] as u64;
    let hi: u64 = b0 + 0x100 * b1 + 0x1_0000 * b2 + 0x100_0000 * b3 + 0x1_0000_0000 * b4
        + 0x100_0000_0000 * b5 + 0x1_0000_0000_0000 * b6 + 0x100_0000_0000_0000 * b7;
    let c0 = buf[off + 15] as u64;
    let c1 = buf[off + 14] as u64;
    let c2 = buf[off + 13] as u64;
    let c3 = buf[off + 12] as u64;
    let c4 = buf[off + 11] as u64;
    let c5 = buf[off + 10] as u64;
    let c6 = buf[off + 9] as u64;
    let c7 = buf[off + 8] as u64;
    let lo: u64 = c0 + 0x100 * c1 + 0x1_0000 * c2 + 0x100_0000 * c3 + 0x1_0000_0000 * c4
        + 0x100_0000_0000 * c5 + 0x1_0000_0000_0000 * c6 + 0x100_0000_0000_0000 * c7;
    (lo as u128) + 0x1_0000_0000_0000_0000 * (hi as u128)
}

/// Copy `n` bytes starting at `off` into an owned vector.
pub fn read_bytes(buf: &[u8], off: usize, n: usize) -> (r: Vec<u8>)
    requires
        off + n <= buf.len(),
    ensures
        r@ == buf@.subrange(off as int, off + n),
{
    let mut out: Vec<u8> = Vec::new();
    let mut i: usize = 0;
    while i < n
        invariant
            i <= n,
            off + n <= buf.len(),
            out@ == buf@.subrange(off as int, off + i),
        decreases n - i,
    {
        out.push(buf[off + i]);
        assert(out@ =~= buf@.subrange(off as int, off + i + 1));
        i = i + 1;
    }
    out
}

} // verus!
