//! Rows of bytes, and little-endian integers in them.

use vstd::prelude::*;

verus! {

/// The 32-bit number whose lowest byte stands at `k`.
pub open spec fn le_u32(s: Seq<u8>, k: int) -> int {
    s[k] + 0x100 * s[k + 1] + 0x1_0000 * s[k + 2] + 0x100_0000 * s[k + 3]
}

/// The 64-bit number whose lowest byte stands at `k`.
pub open spec fn le_u64(s: Seq<u8>, k: int) -> int {
    le_u32(s, k) + 0x1_0000_0000 * le_u32(s, k + 4)
}

/// Reads the 32-bit number at `offset`.
pub fn read_u32(data: &[u8], offset: usize) -> (r: u32)
    requires
        offset + 4 <= data@.len(),
    ensures
        r == le_u32(data@, offset as int),
{
    assert(data.len() == data@.len());
    let a: u32 = data[offset] as u32;
    let b: u32 = data[offset + 1] as u32;
    let c: u32 = data[offset + 2] as u32;
    let d: u32 = data[offset + 3] as u32;
    a + 0x100 * b + 0x1_0000 * c + 0x100_0000 * d
}

/// Reads the 64-bit number at `offset`.
pub fn read_u64(data: &[u8], offset: usize) -> (r: u64)
    requires
        offset + 8 <= data@.len(),
    ensures
        r == le_u64(data@, offset as int),
{
    assert(data.len() == data@.len());
    let low: u64 = read_u32(data, offset) as u64;
    let high: u64 = read_u32(data, offset + 4) as u64;
    low + 0x1_0000_0000 * high
}

/// The bytes of a slice.
pub fn copy_bytes(s: &[u8]) -> (r: Vec<u8>)
    ensures
        r@ == s@,
{
    let mut r: Vec<u8> = Vec::new();
    r.extend_from_slice(s);
    assert(r@ =~= s@);
    r
}

/// The bytes of a number determine it, and the number determines its bytes.
pub proof fn bytes_and_number_determine_each_other(s: Seq<u8>, t: Seq<u8>, k: int)
    ensures
        le_u32(s, k) == le_u32(t, k) <==> (s[k] == t[k] && s[k + 1] == t[k + 1] && s[k + 2] == t[k
            + 2] && s[k + 3] == t[k + 3]),
{
}

/// The bytes of a 32-bit number are its digits to the base 256, the lowest first.
pub proof fn bytes_are_digits(s: Seq<u8>, k: int)
    ensures
        0 <= le_u32(s, k) <= 0xffff_ffff,
        s[k] == le_u32(s, k) % 256,
        s[k + 1] == le_u32(s, k) / 256 % 256,
        s[k + 2] == le_u32(s, k) / 0x1_0000 % 256,
        s[k + 3] == le_u32(s, k) / 0x100_0000,
{
    let v = le_u32(s, k);
    let d = s[k + 3] as int;
    let cd = s[k + 2] + 256 * d;
    let bcd = s[k + 1] + 256 * cd;
    low_digit(s[k] as int, bcd);
    low_digit(s[k + 1] as int, cd);
    low_digit(s[k + 2] as int, d);
    assert(v == s[k] + 256 * bcd);
    assert(v == (s[k] + 256 * s[k + 1]) + 0x1_0000 * cd);
    assert(v / 0x1_0000 == cd);
    assert(v == (s[k] + 256 * s[k + 1] + 0x1_0000 * s[k + 2]) + 0x100_0000 * d);
    assert(v / 0x100_0000 == d);
}

proof fn low_digit(digit: int, rest: int)
    requires
        0 <= digit < 256,
    ensures
        (digit + 256 * rest) % 256 == digit,
        (digit + 256 * rest) / 256 == rest,
{
}

/// A 64-bit number is its lower half and, behind it, its upper half.
pub proof fn halves_of_a_long_number(s: Seq<u8>, k: int)
    ensures
        0 <= le_u64(s, k) <= 0xffff_ffff_ffff_ffff,
        le_u64(s, k) % 0x1_0000_0000 == le_u32(s, k),
        le_u64(s, k) / 0x1_0000_0000 == le_u32(s, k + 4),
{
}

} // verus!
