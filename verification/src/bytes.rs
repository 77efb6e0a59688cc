//! Little-endian numbers in byte sequences.

use vstd::bytes::{
    spec_u32_from_le_bytes,
    spec_u32_to_le_bytes,
    spec_u64_from_le_bytes,
    spec_u64_to_le_bytes,
    u32_from_le_bytes,
    u32_to_le_bytes,
    u64_from_le_bytes,
    u64_to_le_bytes,
};
use vstd::prelude::*;
use vstd::slice::slice_subrange;

verus! {

/// The `u64` in the eight bytes from `off` on.
pub open spec fn u64_at(bytes: Seq<u8>, off: int) -> u64 {
    spec_u64_from_le_bytes(bytes.subrange(off, off + 8))
}

/// The `u32` in the four bytes from `off` on.
pub open spec fn u32_at(bytes: Seq<u8>, off: int) -> u32 {
    spec_u32_from_le_bytes(bytes.subrange(off, off + 4))
}

/// The `i32` in the four bytes from `off` on, in two's complement.
pub open spec fn i32_at(bytes: Seq<u8>, off: int) -> i32 {
    u32_at(bytes, off) as i32
}

/// The four bytes of an `i32` in two's complement.
pub open spec fn i32_bytes(x: i32) -> Seq<u8> {
    spec_u32_to_le_bytes(x as u32)
}

/// Appends the eight bytes of a number.
pub fn push_u64(out: &mut Vec<u8>, x: u64)
    ensures
        final(out)@ == old(out)@ + spec_u64_to_le_bytes(x),
        final(out)@.len() == old(out)@.len() + 8,
{
    let mut b = u64_to_le_bytes(x);
    out.append(&mut b);
}

/// Appends the four bytes of a number.
pub fn push_u32(out: &mut Vec<u8>, x: u32)
    ensures
        final(out)@ == old(out)@ + spec_u32_to_le_bytes(x),
        final(out)@.len() == old(out)@.len() + 4,
{
    let mut b = u32_to_le_bytes(x);
    out.append(&mut b);
}

/// Appends the four bytes of a signed number.
pub fn push_i32(out: &mut Vec<u8>, x: i32)
    ensures
        final(out)@ == old(out)@ + i32_bytes(x),
        final(out)@.len() == old(out)@.len() + 4,
{
    push_u32(out, x as u32);
}

/// Reads the number in the eight bytes from `off` on.
pub fn read_u64(bytes: &[u8], off: usize) -> (x: u64)
    requires
        off + 8 <= bytes@.len(),
    ensures
        x == u64_at(bytes@, off as int),
{
    let n = bytes.len();
    u64_from_le_bytes(slice_subrange(bytes, off, off + 8))
}

/// Reads the number in the four bytes from `off` on.
pub fn read_u32(bytes: &[u8], off: usize) -> (x: u32)
    requires
        off + 4 <= bytes@.len(),
    ensures
        x == u32_at(bytes@, off as int),
{
    let n = bytes.len();
    u32_from_le_bytes(slice_subrange(bytes, off, off + 4))
}

/// Reads the signed number in the four bytes from `off` on.
pub fn read_i32(bytes: &[u8], off: usize) -> (x: i32)
    requires
        off + 4 <= bytes@.len(),
    ensures
        x == i32_at(bytes@, off as int),
{
    read_u32(bytes, off) as i32
}

} // verus!
