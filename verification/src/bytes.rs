//! Little-endian access to byte buffers, the common ground of every on-disk
//! and in-memory structure the kernel reads.
use vstd::prelude::*;

verus! {

/// The 16-bit little-endian value stored at `off`.
pub open spec fn le_u16(s: Seq<u8>, off: int) -> int {
    s[off] as int + 256 * s[off + 1] as int
}

/// The 32-bit little-endian value stored at `off`.
pub open spec fn le_u32(s: Seq<u8>, off: int) -> int {
    le_u16(s, off) + 65536 * le_u16(s, off + 2)
}

/// The 64-bit little-endian value stored at `off`.
pub open spec fn le_u64(s: Seq<u8>, off: int) -> int {
    le_u32(s, off) + 4294967296 * le_u32(s, off + 4)
}

/// Reads the 16-bit little-endian value at `off`.
pub fn read_u16_le(bytes: &[u8], off: usize) -> (r: u16)
    requires
        off + 2 <= bytes@.len(),
    ensures
        r == le_u16(bytes@, off as int),
{
    let _n = bytes.len();
    let b0 = bytes[off] as u16;
    let b1 = bytes[off + 1] as u16;
    b0 + 256 * b1
}

/// Reads the 32-bit little-endian value at `off`.
pub fn read_u32_le(bytes: &[u8], off: usize) -> (r: u32)
    requires
        off + 4 <= bytes@.len(),
    ensures
        r == le_u32(bytes@, off as int),
{
    let _n = bytes.len();
    let lo = read_u16_le(bytes, off) as u32;
    let hi = read_u16_le(bytes, off + 2) as u32;
    lo + 65536 * hi
}

/// Reads the 64-bit little-endian value at `off`.
pub fn read_u64_le(bytes: &[u8], off: usize) -> (r: u64)
    requires
        off + 8 <= bytes@.len(),
    ensures
        r == le_u64(bytes@, off as int),
{
    let _n = bytes.len();
    let lo = read_u32_le(bytes, off) as u64;
    let hi = read_u32_le(bytes, off + 4) as u64;
    lo + 4294967296 * hi
}

/// Sum of the first `n` bytes of `s`, modulo 256: the ACPI checksum.
pub open spec fn checksum(s: Seq<u8>, n: nat) -> int
    decreases n,
{
    if n == 0 {
        0
    } else {
        (checksum(s, (n - 1) as nat) + s[n - 1] as int) % 256
    }
}

/// Adds up the first `size` bytes of `bytes` with wrapping arithmetic.
pub fn sum(bytes: &[u8], size: usize) -> (r: u8)
    requires
        size <= bytes@.len(),
    ensures
        r == checksum(bytes@, size as nat),
{
    let mut count: u8 = 0;
    let mut idx: usize = 0;
    while idx < size
        invariant
            idx <= size,
            size <= bytes@.len(),
            count == checksum(bytes@, idx as nat),
        decreases size - idx,
    {
        count = count.wrapping_add(bytes[idx]);
        idx = idx + 1;
    }
    count
}

} // verus!
