//! Bounds-checked reads of big-endian integers from a byte buffer.

use vstd::prelude::*;
use vstd::slice::slice_index_get;

verus! {

/// The big-endian 16-bit value formed by the two bytes of `s` starting at `i`.
pub open spec fn be16(s: Seq<u8>, i: int) -> u16
    recommends
        0 <= i,
        i + 2 <= s.len(),
{
    (s[i] as int * 0x100 + s[i + 1] as int) as u16
}

/// The big-endian 32-bit value formed by the four bytes of `s` starting at `i`.
pub open spec fn be32(s: Seq<u8>, i: int) -> u32
    recommends
        0 <= i,
        i + 4 <= s.len(),
{
    (s[i] as int * 0x1000000 + s[i + 1] as int * 0x10000 + s[i + 2] as int * 0x100 + s[i
        + 3] as int) as u32
}

/// Reads one byte, after a bounds check by the caller.
pub fn byte_at(buf: &[u8], i: usize) -> (r: u8)
    requires
        i < buf@.len(),
    ensures
        r == buf@[i as int],
{
    *slice_index_get(buf, i)
}

/// Reads a big-endian 16-bit value, after a bounds check by the caller.
pub fn be16_at(buf: &[u8], i: usize) -> (r: u16)
    requires
        i + 2 <= buf@.len(),
    ensures
        r == be16(buf@, i as int),
{
    let n = buf.len();
    assert(i + 2 <= n);
    let hi = *slice_index_get(buf, i);
    let lo = *slice_index_get(buf, i + 1);
    hi as u16 * 0x100 + lo as u16
}

/// Reads a big-endian 32-bit value, after a bounds check by the caller.
pub fn be32_at(buf: &[u8], i: usize) -> (r: u32)
    requires
        i + 4 <= buf@.len(),
    ensures
        r == be32(buf@, i as int),
{
    let n = buf.len();
    assert(i + 4 <= n);
    let b0 = *slice_index_get(buf, i);
    let b1 = *slice_index_get(buf, i + 1);
    let b2 = *slice_index_get(buf, i + 2);
    let b3 = *slice_index_get(buf, i + 3);
    b0 as u32 * 0x1000000 + b1 as u32 * 0x10000 + b2 as u32 * 0x100 + b3 as u32
}

} // verus!
