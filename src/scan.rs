//! Locating length-prefixed zstd regions in the host artifact and loading one.

use vstd::prelude::*;
use crate::PatchError;
use crate::bytes::{be_at, le_at, read_u32_be, read_u32_le};
use crate::frame::{magic_at, zstd_decode, zstd_decoded, zstd_magic};

verus! {

/// The smallest and largest capacity that a layout document's region may plausibly have.
pub const MIN_CAP: u32 = 80;
pub const MAX_CAP: u32 = 20000;

/// Whether `cap` lies in the plausible size window.
pub open spec fn size_ok(cap: int) -> bool {
    MIN_CAP <= cap <= MAX_CAP
}

/// A region found by the scan: a zstd frame magic at `hdr + 4`, a capacity field at `hdr`
/// that reads as `cap` in one of the two byte orders, a plausible size, and a payload
/// window inside the buffer.
pub open spec fn region_ok(bytes: Seq<u8>, hdr: int, cap: int) -> bool {
    &&& 0 <= hdr
    &&& magic_at(bytes, hdr + 4)
    &&& (cap == be_at(bytes, hdr) || cap == le_at(bytes, hdr))
    &&& size_ok(cap)
    &&& hdr + 4 + cap <= bytes.len()
}

/// Relies on memchr::memmem::find_iter: the positions of all non-overlapping occurrences of
/// the needle, in increasing order. The zstd frame magic cannot overlap itself, so these are
/// all of its occurrences.
#[verifier::external_body]
fn find_all(hay: &[u8], needle: &[u8]) -> (r: Vec<usize>)
    requires
        needle@ == zstd_magic(),
    ensures
        forall|k: int| 0 <= k < r@.len() ==> magic_at(hay@, #[trigger] r@[k] as int),
        forall|k: int, l: int| 0 <= k < l < r@.len() ==> r@[k] < r@[l],
        forall|p: int| #[trigger] magic_at(hay@, p) ==> exists|k: int| 0 <= k < r@.len() && r@[k] == p,
{
    memchr::memmem::find_iter(hay, needle).collect()
}

pub fn magic_bytes() -> (r: Vec<u8>)
    ensures
        r@ == zstd_magic(),
{
    let r = vec![0x28u8, 0xb5u8, 0x2fu8, 0xfdu8];
    assert(r@ =~= zstd_magic());
    r
}

/// Whether the frame magic stands at `off`.
pub fn has_magic_at(bytes: &[u8], off: usize) -> (r: bool)
    ensures
        r == magic_at(bytes@, off as int),
{
    if off > bytes.len() || bytes.len() - off < 4 {
        return false;
    }
    let r = bytes[off] == 0x28 && bytes[off + 1] == 0xb5 && bytes[off + 2] == 0x2f && bytes[off + 3] == 0xfd;
    assert(r == (bytes@.subrange(off as int, off as int + 4) =~= zstd_magic()));
    r
}

/// A copy of `bytes[start..end]`.
pub fn copy_range(bytes: &[u8], start: usize, end: usize) -> (r: Vec<u8>)
    requires
        start <= end <= bytes@.len(),
    ensures
        r@ == bytes@.subrange(start as int, end as int),
{
    let mut r: Vec<u8> = Vec::with_capacity(end - start);
    let mut i: usize = start;
    while i < end
        invariant
            start <= i <= end <= bytes@.len(),
            r@ == bytes@.subrange(start as int, i as int),
        decreases end - i,
    {
        r.push(bytes[i]);
        assert(r@ =~= bytes@.subrange(start as int, i as int + 1));
        i += 1;
    }
    r
}

/// Every region of the buffer that `region_ok` admits, each once.
pub fn scan_regions(bytes: &[u8]) -> (r: Vec<(usize, u32)>)
    ensures
        forall|k: int| 0 <= k < r@.len() ==> region_ok(bytes@, (#[trigger] r@[k]).0 as int, r@[k].1 as int),
        forall|hdr: int, cap: int| #[trigger] region_ok(bytes@, hdr, cap)
            ==> exists|k: int| 0 <= k < r@.len() && r@[k].0 == hdr && r@[k].1 == cap,
        forall|k: int, l: int| 0 <= k < l < r@.len() ==> r@[k] != r@[l],
{
    let magic = magic_bytes();
    let hits = find_all(bytes, magic.as_slice());
    let mut out: Vec<(usize, u32)> = Vec::new();
    let ghost mut last: int = -1;
    let mut i: usize = 0;
    while i < hits.len()
        invariant
            i <= hits@.len(),
            forall|k: int| 0 <= k < hits@.len() ==> magic_at(bytes@, #[trigger] hits@[k] as int),
            forall|k: int, l: int| 0 <= k < l < hits@.len() ==> hits@[k] < hits@[l],
            forall|p: int| #[trigger] magic_at(bytes@, p) ==> exists|k: int| 0 <= k < hits@.len() && hits@[k] == p,
            i == 0 ==> last == -1,
            i > 0 ==> last == hits@[i - 1],
            forall|k: int| 0 <= k < out@.len() ==> region_ok(bytes@, (#[trigger] out@[k]).0 as int, out@[k].1 as int),
            forall|k: int| 0 <= k < out@.len() ==> (#[trigger] out@[k]).0 + 4 <= last,
            forall|hdr: int, cap: int| #[trigger] region_ok(bytes@, hdr, cap) && hdr + 4 <= last
                ==> exists|k: int| 0 <= k < out@.len() && out@[k].0 == hdr && out@[k].1 == cap,
            forall|k: int, l: int| 0 <= k < l < out@.len() ==> out@[k] != out@[l],
        decreases hits@.len() - i,
    {
        let hit = hits[i];
        let ghost out0 = out@;
        assert(magic_at(bytes@, hit as int));
        if hit >= 4 {
            let hdr = hit - 4;
            let cap_be = match read_u32_be(bytes, hdr) {
                Ok(v) => v,
                Err(_) => 0,
            };
            let cap_le = match read_u32_le(bytes, hdr) {
                Ok(v) => v,
                Err(_) => 0,
            };
            if MIN_CAP <= cap_be && cap_be <= MAX_CAP && (cap_be as usize) <= bytes.len() - hit {
                out.push((hdr, cap_be));
            }
            if cap_le != cap_be && MIN_CAP <= cap_le && cap_le <= MAX_CAP && (cap_le as usize) <= bytes.len() - hit {
                out.push((hdr, cap_le));
            }
        }
        proof {
            let h = hit as int;
            assert forall|hdr: int, cap: int| #[trigger] region_ok(bytes@, hdr, cap) && hdr + 4 <= h
                implies exists|k: int| 0 <= k < out@.len() && out@[k].0 == hdr && out@[k].1 == cap by {
                if hdr + 4 <= last {
                    let k = choose|k: int| 0 <= k < out0.len() && out0[k].0 == hdr && out0[k].1 == cap;
                    assert(out@[k] == out0[k]);
                } else if hdr + 4 < h {
                    let m = choose|m: int| 0 <= m < hits@.len() && hits@[m] == hdr + 4;
                    if m < i {
                        if i > 0 {
                            assert(hits@[m] <= hits@[i - 1]);
                        }
                    } else if m > i {
                        assert(hits@[i as int] < hits@[m]);
                    }
                } else {
                    let k = if cap == be_at(bytes@, hdr) { out0.len() as int } else { out@.len() - 1 };
                    assert(0 <= k < out@.len() && out@[k].0 == hdr && out@[k].1 == cap);
                }
            }
            last = h;
        }
        i += 1;
    }
    proof {
        assert forall|hdr: int, cap: int| #[trigger] region_ok(bytes@, hdr, cap)
            implies exists|k: int| 0 <= k < out@.len() && out@[k].0 == hdr && out@[k].1 == cap by {
            let m = choose|m: int| 0 <= m < hits@.len() && hits@[m] == hdr + 4;
            if m < hits@.len() - 1 {
                assert(hits@[m] < hits@[hits@.len() - 1]);
            }
        }
    }
    out
}

/// Whether `cap` is what the capacity field at `hdr` reads in either byte order
/// (a reading that does not fit counts as 0).
pub open spec fn cap_matches(bytes: Seq<u8>, hdr: int, cap: int) -> bool {
    cap == (if hdr + 4 <= bytes.len() { be_at(bytes, hdr) } else { 0 })
    || cap == (if hdr + 4 <= bytes.len() { le_at(bytes, hdr) } else { 0 })
}

/// Checks the region at `hdr_off` against the capacity `cap` and decompresses its payload.
pub fn load_candidate_at(bytes: &[u8], hdr_off: usize, cap: u32) -> (r: Result<Vec<u8>, PatchError>)
    ensures
        hdr_off + 8 > bytes@.len() ==> r == Err::<Vec<u8>, PatchError>(PatchError::OutOfRange),
        hdr_off + 8 <= bytes@.len() && !cap_matches(bytes@, hdr_off as int, cap as int)
            ==> r == Err::<Vec<u8>, PatchError>(PatchError::CapMismatch),
        hdr_off + 8 <= bytes@.len() && cap_matches(bytes@, hdr_off as int, cap as int) ==> {
            let win = hdr_off + 4;
            let payload = bytes@.subrange(win as int, win + cap);
            &&& win + cap > bytes@.len() ==> r == Err::<Vec<u8>, PatchError>(PatchError::OutOfRange)
            &&& win + cap <= bytes@.len() && !magic_at(payload, 0) ==> r == Err::<Vec<u8>, PatchError>(PatchError::MissingMagic)
            &&& win + cap <= bytes@.len() && magic_at(payload, 0) ==> match zstd_decoded(payload) {
                Some(d) => r matches Ok(v) && v@ == d,
                None => r == Err::<Vec<u8>, PatchError>(PatchError::DecodeFailed),
            }
        },
{
    if hdr_off > bytes.len() || bytes.len() - hdr_off < 8 {
        return Err(PatchError::OutOfRange);
    }
    let cap_be = match read_u32_be(bytes, hdr_off) {
        Ok(v) => v,
        Err(_) => 0,
    };
    let cap_le = match read_u32_le(bytes, hdr_off) {
        Ok(v) => v,
        Err(_) => 0,
    };
    if cap != cap_be && cap != cap_le {
        return Err(PatchError::CapMismatch);
    }
    let win = hdr_off + 4;
    if cap as usize > bytes.len() - win {
        return Err(PatchError::OutOfRange);
    }
    let payload = copy_range(bytes, win, win + cap as usize);
    if !has_magic_at(payload.as_slice(), 0) {
        return Err(PatchError::MissingMagic);
    }
    match zstd_decode(payload.as_slice()) {
        Some(d) => Ok(d),
        None => Err(PatchError::DecodeFailed),
    }
}

} // verus!
