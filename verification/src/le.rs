//! Little-endian numbers inside byte strings.
use vstd::bytes;
use vstd::prelude::*;

use crate::text;

verus! {

/// The 32-bit number at an offset.
pub open spec fn u32_at(data: Seq<u8>, at: int) -> u32 {
    bytes::spec_u32_from_le_bytes(data.subrange(at, at + 4))
}

/// The 64-bit number at an offset.
pub open spec fn u64_at(data: Seq<u8>, at: int) -> u64 {
    bytes::spec_u64_from_le_bytes(data.subrange(at, at + 8))
}

/// The 32-bit number at an offset.
pub fn read_u32(data: &[u8], at: usize) -> (r: u32)
    requires
        at + 4 <= data@.len(),
    ensures
        r == u32_at(data@, at as int),
{
    let _n: usize = data.len();
    bytes::u32_from_le_bytes(vstd::slice::slice_subrange(data, at, at + 4))
}

/// The 64-bit number at an offset.
pub fn read_u64(data: &[u8], at: usize) -> (r: u64)
    requires
        at + 8 <= data@.len(),
    ensures
        r == u64_at(data@, at as int),
{
    let _n: usize = data.len();
    bytes::u64_from_le_bytes(vstd::slice::slice_subrange(data, at, at + 8))
}

/// Append a 32-bit number.
pub fn push_u32(out: &mut Vec<u8>, n: u32)
    ensures
        final(out)@ == old(out)@ + bytes::spec_u32_to_le_bytes(n),
        final(out)@.len() == old(out)@.len() + 4,
{
    let mut part: Vec<u8> = bytes::u32_to_le_bytes(n);
    out.append(&mut part);
}

/// Append a 64-bit number.
pub fn push_u64(out: &mut Vec<u8>, n: u64)
    ensures
        final(out)@ == old(out)@ + bytes::spec_u64_to_le_bytes(n),
        final(out)@.len() == old(out)@.len() + 8,
{
    let mut part: Vec<u8> = bytes::u64_to_le_bytes(n);
    out.append(&mut part);
}

/// Append a byte string.
pub fn push_bytes(out: &mut Vec<u8>, data: &[u8])
    ensures
        final(out)@ == old(out)@ + data@,
{
    let mut part: Vec<u8> = text::copy_bytes(data);
    out.append(&mut part);
}

} // verus!
