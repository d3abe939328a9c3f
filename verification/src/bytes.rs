//! Little-endian integer encodings and byte-buffer helpers shared by the
//! compiler and the virtual machine.

use vstd::bytes::*;
use vstd::prelude::*;

verus! {

/// A copy of a byte vector.
pub(crate) fn copy_bytes(v: &Vec<u8>) -> (r: Vec<u8>)
    ensures
        r@ == v@,
{
    let r = v.clone();
    assert(r@ =~= v@);
    r
}

/// Appends `data` to the end of `out`.
pub(crate) fn append_bytes(out: &mut Vec<u8>, data: &[u8])
    ensures
        final(out)@ == old(out)@ + data@,
{
    out.extend_from_slice(data);
    assert(final(out)@ =~= old(out)@ + data@);
}

/// Appends the two little-endian bytes of `x` to `out`.
pub(crate) fn append_u16_le(out: &mut Vec<u8>, x: u16)
    ensures
        final(out)@ == old(out)@ + spec_u16_to_le_bytes(x),
{
    let b = u16_to_le_bytes(x);
    append_bytes(out, b.as_slice());
}

/// Appends the four little-endian bytes of `x` to `out`.
pub(crate) fn append_u32_le(out: &mut Vec<u8>, x: u32)
    ensures
        final(out)@ == old(out)@ + spec_u32_to_le_bytes(x),
{
    let b = u32_to_le_bytes(x);
    append_bytes(out, b.as_slice());
}

/// Appends the eight little-endian bytes of `x` to `out`.
pub(crate) fn append_u64_le(out: &mut Vec<u8>, x: u64)
    ensures
        final(out)@ == old(out)@ + spec_u64_to_le_bytes(x),
{
    let b = u64_to_le_bytes(x);
    append_bytes(out, b.as_slice());
}

} // verus!
