//! Little-endian integers read from byte slices.
use vstd::prelude::*;

verus! {

/// Value of two bytes, least significant first.
pub open spec fn le_u16(s: Seq<u8>) -> int {
    s[0] + s[1] * 0x100
}

/// Value of three bytes, least significant first.
pub open spec fn le_u24(s: Seq<u8>) -> int {
    le_u16(s) + s[2] * 0x10000
}

/// Value of four bytes, least significant first.
pub open spec fn le_u32(s: Seq<u8>) -> int {
    le_u24(s) + s[3] * 0x1000000
}

/// Value of eight bytes, least significant first.
pub open spec fn le_u64(s: Seq<u8>) -> int {
    le_u32(s) + le_u32(s.subrange(4, 8)) * 0x1_0000_0000
}

/// Reads a `u16` from the first two bytes.
pub fn read_u16_le(b: &[u8]) -> (r: u16)
    requires
        b@.len() >= 2,
    ensures
        r == le_u16(b@),
{
    b[0] as u16 + b[1] as u16 * 0x100
}

/// Reads the low 24 bits of a frame header from the first three bytes.
pub fn read_u24_le(b: &[u8]) -> (r: u32)
    requires
        b@.len() >= 3,
    ensures
        r == le_u24(b@),
{
    read_u16_le(b) as u32 + b[2] as u32 * 0x10000
}

/// Reads a `u32` from the first four bytes.
pub fn read_u32_le(b: &[u8]) -> (r: u32)
    requires
        b@.len() >= 4,
    ensures
        r == le_u32(b@),
{
    read_u24_le(b) + b[3] as u32 * 0x1000000
}

/// Reads a `u64` from the first eight bytes.
pub fn read_u64_le(b: &[u8]) -> (r: u64)
    requires
        b@.len() >= 8,
    ensures
        r == le_u64(b@),
{
    let high = &b[4..8];
    assert(high@ == b@.subrange(4, 8));
    let lo = read_u32_le(b) as u64;
    let hi = read_u32_le(high) as u64;
    assert(hi * 0x1_0000_0000 <= 0xffff_ffff * 0x1_0000_0000) by (nonlinear_arith)
        requires hi <= 0xffff_ffff;
    lo + hi * 0x1_0000_0000
}

} // verus!
