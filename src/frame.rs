//! Compressed-stream framing: the zstd frame magic, skippable padding frames,
//! and recompression of a document into an exact byte capacity.

use vstd::prelude::*;
use crate::PatchError;

verus! {

/// Magic number that opens a skippable (filler) frame.
pub const SKIPPABLE_MAGIC: u32 = 0x184D2A50;

/// Size of a skippable frame's header: its magic and its body length.
pub const SKIPPABLE_HEADER_LEN: usize = 8;

/// The four bytes that open every zstd frame.
pub open spec fn zstd_magic() -> Seq<u8> {
    seq![0x28u8, 0xb5u8, 0x2fu8, 0xfdu8]
}

/// Whether `s` holds the zstd frame magic at `off`.
pub open spec fn magic_at(s: Seq<u8>, off: int) -> bool {
    0 <= off && off + 4 <= s.len() && s.subrange(off, off + 4) == zstd_magic()
}

/// The four little-endian bytes of `x`.
pub open spec fn le_bytes(x: int) -> Seq<u8> {
    seq![(x % 256) as u8, (x / 0x100 % 256) as u8, (x / 0x10000 % 256) as u8, (x / 0x1000000 % 256) as u8]
}

/// A skippable frame that is `total` bytes long in all: magic, body length, zero body.
pub open spec fn skippable_frame(total: int) -> Seq<u8> {
    le_bytes(SKIPPABLE_MAGIC as int) + le_bytes(total - 8) + Seq::new((total - 8) as nat, |i: int| 0u8)
}

/// Whether a skippable frame of `total` bytes can be written.
pub open spec fn padding_ok(total: int) -> bool {
    8 <= total && total - 8 <= u32::MAX
}

/// A compressed frame followed by `pad` bytes of skippable padding (none when `pad` is 0).
pub open spec fn padded_stream(frame: Seq<u8>, pad: int) -> Seq<u8> {
    if pad == 0 { frame } else { frame + skippable_frame(pad) }
}

/// The compression effort levels, tried in this order.
pub open spec fn effort_levels() -> Seq<i32> {
    seq![3i32, 5, 8, 10, 12, 15, 18, 22]
}

/// Whether a frame of `len` bytes fills `cap` exactly, or leaves room for a padding frame.
pub open spec fn fits(len: int, cap: int) -> bool {
    len == cap || (len < cap && padding_ok(cap - len))
}

/// `out` is the result of fitting `raw` into `cap` bytes: the frame of the first effort level
/// that fits, padded to exactly `cap` bytes.
pub open spec fn exact_fit(raw: Seq<u8>, cap: int, out: Seq<u8>, level: i32, pad: int) -> bool {
    exists|k: int|
        0 <= k < 8 && level == effort_levels()[k]
        && fits(zstd_frame(raw, level).len() as int, cap)
        && magic_at(zstd_frame(raw, level), 0)
        && pad == cap - zstd_frame(raw, level).len()
        && out == padded_stream(zstd_frame(raw, level), pad)
        && out.len() == cap
        && forall|j: int| 0 <= j < k ==> !fits(#[trigger] zstd_frame(raw, effort_levels()[j]).len() as int, cap)
}

/// The zstd frame that compressing `raw` at `level` yields.
pub uninterp spec fn zstd_frame(raw: Seq<u8>, level: i32) -> Seq<u8>;

/// What decompressing the stream `b` yields, if it decodes.
pub uninterp spec fn zstd_decoded(b: Seq<u8>) -> Option<Seq<u8>>;

/// The view of an optional byte vector.
pub open spec fn opt_bytes(o: Option<Vec<u8>>) -> Option<Seq<u8>> {
    match o {
        Some(v) => Some(v@),
        None => None,
    }
}

/// Relies on zstd::bulk::compress: a single zstd frame of `data` at `level`, which like
/// every zstd frame opens with the frame magic. It writes into a buffer of the compression
/// bound and the level is clamped to the supported range, so the call succeeds.
#[verifier::external_body]
fn zstd_compress(data: &[u8], level: i32) -> (r: Option<Vec<u8>>)
    ensures
        r is Some,
        r matches Some(c) ==> c@ == zstd_frame(data@, level) && magic_at(c@, 0),
{
    zstd::bulk::compress(data, level).ok()
}

/// Relies on zstd::stream::decode_all: decodes every frame of the stream in turn,
/// skipping skippable frames, so a frame followed by padding gives back what was compressed.
#[verifier::external_body]
pub(crate) fn zstd_decode(payload: &[u8]) -> (r: Option<Vec<u8>>)
    ensures
        opt_bytes(r) == zstd_decoded(payload@),
        forall|raw: Seq<u8>, level: i32, pad: int|
            (pad == 0 || padding_ok(pad)) && payload@ == #[trigger] padded_stream(zstd_frame(raw, level), pad)
                ==> opt_bytes(r) == Some(raw),
{
    zstd::stream::decode_all(std::io::Cursor::new(payload)).ok()
}

fn push_le(v: &mut Vec<u8>, x: u32)
    ensures
        final(v)@ == old(v)@ + le_bytes(x as int),
{
    v.push((x % 256) as u8);
    v.push((x / 0x100 % 256) as u8);
    v.push((x / 0x10000 % 256) as u8);
    v.push((x / 0x1000000 % 256) as u8);
    assert(final(v)@ =~= old(v)@ + le_bytes(x as int));
}

/// Builds a skippable frame of exactly `total_bytes` bytes.
pub fn make_skippable_frame(total_bytes: usize) -> (r: Result<Vec<u8>, PatchError>)
    ensures
        r is Ok <==> padding_ok(total_bytes as int),
        r matches Ok(v) ==> v@ == skippable_frame(total_bytes as int) && v@.len() == total_bytes,
        r is Err ==> r == Err::<Vec<u8>, PatchError>(PatchError::BadPaddingSize),
{
    if total_bytes < SKIPPABLE_HEADER_LEN || total_bytes - SKIPPABLE_HEADER_LEN > u32::MAX as usize {
        return Err(PatchError::BadPaddingSize);
    }
    let body_len: u32 = (total_bytes - SKIPPABLE_HEADER_LEN) as u32;
    let mut v: Vec<u8> = Vec::with_capacity(total_bytes);
    push_le(&mut v, SKIPPABLE_MAGIC);
    push_le(&mut v, body_len);
    let mut zeros: Vec<u8> = vec![0u8; body_len as usize];
    v.append(&mut zeros);
    assert(v@ =~= skippable_frame(total_bytes as int));
    Ok(v)
}

/// Compresses `raw` at the effort levels in turn and returns the first result that
/// fits into `cap` bytes, padded to exactly `cap` bytes, with the level and padding used.
pub fn compress_to_exact_cap(raw: &[u8], cap: usize) -> (r: Result<(Vec<u8>, i32, usize), PatchError>)
    requires
        cap <= u32::MAX,
    ensures
        match r {
            Ok((out, level, pad)) => exact_fit(raw@, cap as int, out@, level, pad as int),
            Err(e) => e == PatchError::CapacityExceeded
                && forall|j: int| 0 <= j < 8 ==> !fits(#[trigger] zstd_frame(raw@, effort_levels()[j]).len() as int, cap as int),
        },
        (exists|k: int| 0 <= k < 8 && fits(#[trigger] zstd_frame(raw@, effort_levels()[k]).len() as int, cap as int))
            ==> r is Ok,
        cap < 4 ==> r is Err,
{
    let levels: Vec<i32> = vec![3i32, 5, 8, 10, 12, 15, 18, 22];
    assert(levels@ =~= effort_levels());
    let mut i: usize = 0;
    while i < levels.len()
        invariant
            levels@ == effort_levels(),
            i <= 8,
            forall|j: int| 0 <= j < i ==> !fits(#[trigger] zstd_frame(raw@, effort_levels()[j]).len() as int, cap as int),
        decreases 8 - i,
    {
        let level = levels[i];
        let comp = zstd_compress(raw, level).unwrap();
        if comp.len() <= cap {
            let pad = cap - comp.len();
            if pad == 0 {
                return Ok((comp, level, 0));
            }
            if let Ok(mut filler) = make_skippable_frame(pad) {
                let mut out = comp;
                out.append(&mut filler);
                return Ok((out, level, pad));
            }
        }
        i += 1;
    }
    Err(PatchError::CapacityExceeded)
}

} // verus!
