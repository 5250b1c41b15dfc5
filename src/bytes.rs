//! Reading 4-byte length fields at arbitrary offsets.

use vstd::prelude::*;
use crate::PatchError;

verus! {

/// The unsigned value of four bytes, most significant first.
pub open spec fn be_u32(b0: u8, b1: u8, b2: u8, b3: u8) -> int {
    b0 as int * 0x1000000 + b1 as int * 0x10000 + b2 as int * 0x100 + b3 as int
}

/// The big-endian value of the four bytes of `s` at `off`.
pub open spec fn be_at(s: Seq<u8>, off: int) -> int {
    be_u32(s[off], s[off + 1], s[off + 2], s[off + 3])
}

/// The little-endian value of the four bytes of `s` at `off`.
pub open spec fn le_at(s: Seq<u8>, off: int) -> int {
    be_u32(s[off + 3], s[off + 2], s[off + 1], s[off])
}

fn compose(b0: u8, b1: u8, b2: u8, b3: u8) -> (r: u32)
    ensures
        r as int == be_u32(b0, b1, b2, b3),
{
    let r: u64 = (b0 as u64) * 0x1000000 + (b1 as u64) * 0x10000 + (b2 as u64) * 0x100 + (b3 as u64);
    assert(r < 0x100000000) by (nonlinear_arith)
        requires
            r == b0 as int * 0x1000000 + b1 as int * 0x10000 + b2 as int * 0x100 + b3 as int,
            b0 < 256, b1 < 256, b2 < 256, b3 < 256,
    ;
    r as u32
}

/// Reads the big-endian `u32` at `off`; fails when the four bytes are not all inside.
pub fn read_u32_be(bytes: &[u8], off: usize) -> (r: Result<u32, PatchError>)
    ensures
        off + 4 <= bytes@.len() <==> r is Ok,
        r is Ok ==> r->Ok_0 as int == be_at(bytes@, off as int),
        r is Err ==> r == Err::<u32, PatchError>(PatchError::OutOfRange),
{
    if off > bytes.len() || bytes.len() - off < 4 {
        return Err(PatchError::OutOfRange);
    }
    Ok(compose(bytes[off], bytes[off + 1], bytes[off + 2], bytes[off + 3]))
}

/// Reads the little-endian `u32` at `off`; fails when the four bytes are not all inside.
pub fn read_u32_le(bytes: &[u8], off: usize) -> (r: Result<u32, PatchError>)
    ensures
        off + 4 <= bytes@.len() <==> r is Ok,
        r is Ok ==> r->Ok_0 as int == le_at(bytes@, off as int),
        r is Err ==> r == Err::<u32, PatchError>(PatchError::OutOfRange),
{
    if off > bytes.len() || bytes.len() - off < 4 {
        return Err(PatchError::OutOfRange);
    }
    Ok(compose(bytes[off + 3], bytes[off + 2], bytes[off + 1], bytes[off]))
}

} // verus!
