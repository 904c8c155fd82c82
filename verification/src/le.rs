//! Little-endian decoding of unsigned integers from byte slices.

use vstd::prelude::*;

verus! {

/// The number that the first two bytes of `s` spell, least significant first.
pub open spec fn le_u16(s: Seq<u8>) -> int {
    s[0] + 0x100 * s[1]
}

/// The number that the first four bytes of `s` spell, least significant first.
pub open spec fn le_u32(s: Seq<u8>) -> int {
    s[0] + 0x100 * s[1] + 0x1_0000 * s[2] + 0x100_0000 * s[3]
}

/// The number that the first eight bytes of `s` spell, least significant first.
pub open spec fn le_u64(s: Seq<u8>) -> int {
    le_u32(s) + 0x1_0000_0000 * le_u32(s.skip(4))
}

/// Reads a `u16` from the first two bytes of `slice`.
#[inline]
pub fn read_u16(slice: &[u8]) -> (value: u16)
    requires
        slice@.len() >= 2,
    ensures
        value == le_u16(slice@),
{
    let low: u16 = slice[0] as u16;
    let high: u16 = slice[1] as u16;
    low + 0x100 * high
}

/// Reads a `u32` from the first four bytes of `slice`.
#[inline]
pub fn read_u32(slice: &[u8]) -> (value: u32)
    requires
        slice@.len() >= 4,
    ensures
        value == le_u32(slice@),
{
    let b0: u32 = slice[0] as u32;
    let b1: u32 = slice[1] as u32;
    let b2: u32 = slice[2] as u32;
    let b3: u32 = slice[3] as u32;
    b0 + 0x100 * b1 + 0x1_0000 * b2 + 0x100_0000 * b3
}

/// Reads a `u64` from the first eight bytes of `slice`.
#[inline]
pub fn read_u64(slice: &[u8]) -> (value: u64)
    requires
        slice@.len() >= 8,
    ensures
        value == le_u64(slice@),
{
    let low: u64 = read_u32(slice) as u64;
    let high: u64 = read_u32(vstd::slice::slice_subrange(slice, 4, 8)) as u64;
    low + 0x1_0000_0000 * high
}

/// Four bytes spell one number, and one number is spelt by four bytes only.
pub proof fn lemma_le_u32_is_injective(a: Seq<u8>, b: Seq<u8>)
    requires
        a.len() >= 4,
        b.len() >= 4,
        le_u32(a) == le_u32(b),
    ensures
        a[0] == b[0],
        a[1] == b[1],
        a[2] == b[2],
        a[3] == b[3],
{
    lemma_le_u32_digits(a[0], a[1], a[2], a[3]);
    lemma_le_u32_digits(b[0], b[1], b[2], b[3]);
}

/// The bytes of a number are its digits to the base 256.
proof fn lemma_le_u32_digits(b0: u8, b1: u8, b2: u8, b3: u8)
    ensures
        ({
            let n = b0 + 0x100 * b1 + 0x1_0000 * b2 + 0x100_0000 * b3;
            &&& b0 == n % 0x100
            &&& b1 == (n / 0x100) % 0x100
            &&& b2 == (n / 0x1_0000) % 0x100
            &&& b3 == n / 0x100_0000
        }),
{
    let high = b1 + 0x100 * b2 + 0x1_0000 * b3;
    let higher = b2 + 0x100 * b3;
    let n = b0 + 0x100 * high;
    assert(n / 0x100 == high && n % 0x100 == b0);
    assert(high / 0x100 == higher && high % 0x100 == b1);
    assert(higher / 0x100 == b3 && higher % 0x100 == b2);
    assert(n / 0x1_0000 == higher);
    assert(n / 0x100_0000 == b3);
}

} // verus!
