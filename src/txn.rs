//! The patch transaction: a plan that replaces one payload window with a payload of the
//! same length, and the write, verify and roll-back steps that carry it out.

use vstd::prelude::*;
use crate::PatchError;
use crate::frame::{compress_to_exact_cap, effort_levels, exact_fit, fits, magic_at, padded_stream, zstd_decode, zstd_decoded, zstd_frame};
use crate::scan::{cap_matches, copy_range, has_magic_at};
use crate::bytes::{read_u32_be, read_u32_le};

verus! {

/// One in-place change of the artifact.
pub struct Plan {
    /// Offset of the capacity field; the payload window follows it.
    pub hdr_off: usize,
    pub cap: u32,
    /// The window's bytes before the change.
    pub old_payload: Vec<u8>,
    /// The compressed, padded document that replaces them.
    pub new_payload: Vec<u8>,
    /// The compact serialized document that `new_payload` holds.
    pub after_bytes: Vec<u8>,
    pub sig: Vec<char>,
}

/// `file` with `data` written over it at `off`.
pub open spec fn write_at(file: Seq<u8>, off: int, data: Seq<u8>) -> Seq<u8> {
    file.subrange(0, off) + data + file.subrange(off + data.len(), file.len() as int)
}

/// A plan made against `file`: its window lies inside the file, holds the old payload, and
/// the new payload is the serialized document fitted into exactly the window.
pub open spec fn plan_for(file: Seq<u8>, p: Plan) -> bool {
    let win = p.hdr_off + 4;
    &&& win + p.cap <= file.len()
    &&& p.old_payload@ == file.subrange(win, win + p.cap)
    &&& p.new_payload@.len() == p.cap
    &&& exists|level: i32, pad: int| exact_fit(p.after_bytes@, p.cap as int, p.new_payload@, level, pad)
}

/// Fits the serialized document `after_bytes` into the region at `hdr_off` of capacity `cap`.
/// Returns the plan with the effort level and padding used.
pub fn make_plan(bytes: &[u8], hdr_off: usize, cap: u32, after_bytes: Vec<u8>, sig: Vec<char>)
    -> (r: Result<(Plan, i32, usize), PatchError>)
    ensures
        r matches Ok((p, level, pad)) ==> {
            &&& plan_for(bytes@, p)
            &&& exact_fit(after_bytes@, cap as int, p.new_payload@, level, pad as int)
            &&& p.hdr_off == hdr_off && p.cap == cap && p.after_bytes == after_bytes && p.sig == sig
        },
        cap < 4 ==> r is Err,
        r matches Err(e) ==> (e == PatchError::CapacityExceeded && forall|j: int| 0 <= j < 8
                ==> !fits(#[trigger] zstd_frame(after_bytes@, effort_levels()[j]).len() as int, cap as int))
            || (e == PatchError::OutOfRange && hdr_off + 4 + cap > bytes@.len()),
        hdr_off + 4 + cap <= bytes@.len()
            && (exists|k: int| 0 <= k < 8 && fits(#[trigger] zstd_frame(after_bytes@, effort_levels()[k]).len() as int, cap as int))
            ==> r is Ok,
{
    let (new_payload, level, pad) = compress_to_exact_cap(after_bytes.as_slice(), cap as usize)?;
    if hdr_off > bytes.len() || bytes.len() - hdr_off < 4 || cap as usize > bytes.len() - hdr_off - 4 {
        return Err(PatchError::OutOfRange);
    }
    let win = hdr_off + 4;
    let old_payload = copy_range(bytes, win, win + cap as usize);
    let p = Plan { hdr_off, cap, old_payload, new_payload, after_bytes, sig };
    assert(exact_fit(p.after_bytes@, p.cap as int, p.new_payload@, level, pad as int));
    Ok((p, level, pad))
}

proof fn lemma_stream_magic(frame: Seq<u8>, pad: int)
    requires
        magic_at(frame, 0),
    ensures
        magic_at(padded_stream(frame, pad), 0),
{
    if pad != 0 {
        let s = padded_stream(frame, pad);
        assert(s.subrange(0, 4) =~= frame.subrange(0, 4));
    }
}

/// The written artifact `file` carries the plan: the capacity field still reads the plan's
/// capacity, and the window decodes to exactly the plan's serialized document.
pub open spec fn verifies(file: Seq<u8>, plan: Plan) -> bool {
    let win = plan.hdr_off + 4;
    let window = file.subrange(win, win + plan.cap);
    &&& cap_matches(file, plan.hdr_off as int, plan.cap as int)
    &&& win + plan.cap <= file.len()
    &&& magic_at(window, 0)
    &&& zstd_decoded(window) == Some(plan.after_bytes@)
}

/// Re-reads the plan's window in the written artifact `file` and checks that it decodes to
/// exactly the serialized document of the plan.
pub fn verify_one(file: &[u8], plan: &Plan) -> (r: Result<(), PatchError>)
    ensures
        r is Ok <==> verifies(file@, *plan),
        ({
            let win = plan.hdr_off + 4;
            let window = file@.subrange(win, win + plan.cap);
            &&& !cap_matches(file@, plan.hdr_off as int, plan.cap as int)
                ==> r == Err::<(), PatchError>(PatchError::CapMismatch)
            &&& cap_matches(file@, plan.hdr_off as int, plan.cap as int) && win + plan.cap > file@.len()
                ==> r == Err::<(), PatchError>(PatchError::OutOfRange)
            &&& cap_matches(file@, plan.hdr_off as int, plan.cap as int) && win + plan.cap <= file@.len() ==> {
                &&& !magic_at(window, 0) ==> r == Err::<(), PatchError>(PatchError::MissingMagic)
                &&& magic_at(window, 0) ==> match zstd_decoded(window) {
                    None => r == Err::<(), PatchError>(PatchError::DecodeFailed),
                    Some(d) => if d == plan.after_bytes@ {
                        r is Ok
                    } else {
                        r == Err::<(), PatchError>(PatchError::VerifyMismatch)
                    },
                }
            }
        }),
        // A window that holds exactly the plan's payload always verifies.
        ({
            let win = plan.hdr_off + 4;
            &&& (exists|level: i32, pad: int| exact_fit(plan.after_bytes@, plan.cap as int, plan.new_payload@, level, pad))
            &&& cap_matches(file@, plan.hdr_off as int, plan.cap as int)
            &&& win + plan.cap <= file@.len()
            &&& file@.subrange(win, win + plan.cap) == plan.new_payload@
        }) ==> r is Ok,
{
    let cap_be = match read_u32_be(file, plan.hdr_off) {
        Ok(v) => v,
        Err(_) => 0,
    };
    let cap_le = match read_u32_le(file, plan.hdr_off) {
        Ok(v) => v,
        Err(_) => 0,
    };
    let cap = if cap_be == plan.cap { cap_be } else { cap_le };
    if cap != plan.cap {
        return Err(PatchError::CapMismatch);
    }
    if plan.hdr_off > file.len() || file.len() - plan.hdr_off < 4 || cap as usize > file.len() - plan.hdr_off - 4 {
        return Err(PatchError::OutOfRange);
    }
    let win = plan.hdr_off + 4;
    let window = copy_range(file, win, win + cap as usize);
    proof {
        if exists|level: i32, pad: int| exact_fit(plan.after_bytes@, plan.cap as int, plan.new_payload@, level, pad) {
            let (level, pad) = choose|level: i32, pad: int| exact_fit(plan.after_bytes@, plan.cap as int, plan.new_payload@, level, pad);
            lemma_stream_magic(zstd_frame(plan.after_bytes@, level), pad);
        }
    }
    if !has_magic_at(window.as_slice(), 0) {
        return Err(PatchError::MissingMagic);
    }
    let decoded = match zstd_decode(window.as_slice()) {
        Some(d) => d,
        None => return Err(PatchError::DecodeFailed),
    };
    if !bytes_eq(decoded.as_slice(), plan.after_bytes.as_slice()) {
        return Err(PatchError::VerifyMismatch);
    }
    Ok(())
}

/// Whether two byte sequences are equal.
pub fn bytes_eq(a: &[u8], b: &[u8]) -> (r: bool)
    ensures
        r == (a@ == b@),
{
    if a.len() != b.len() {
        return false;
    }
    let mut i: usize = 0;
    while i < a.len()
        invariant
            a@.len() == b@.len(),
            i <= a@.len(),
            forall|j: int| 0 <= j < i ==> a@[j] == b@[j],
        decreases a@.len() - i,
    {
        if a[i] != b[i] {
            return false;
        }
        i += 1;
    }
    assert(a@ =~= b@);
    true
}

/// Where a transaction stands.
#[derive(Debug, Clone, Copy, PartialEq, Eq, Structural)]
pub enum TxnPhase {
    Planned,
    Written,
    RollingBack,
    Verified,
    RolledBack,
}

/// What the caller must do next.
#[derive(Debug, Clone, Copy, PartialEq, Eq, Structural)]
pub enum TxnAction {
    /// Write the plan's new payload at its window, then read the artifact back and report it.
    WriteNew,
    /// Write the plan's old payload back at its window.
    WriteOld,
    /// The patch is in place and verified.
    Succeed,
    /// The artifact was restored; the run fails with this error.
    Fail(PatchError),
}

/// The state of one patch transaction.
pub struct Transaction {
    pub plan: Plan,
    pub phase: TxnPhase,
    pub error: Option<PatchError>,
}

impl Transaction {
    pub fn new(plan: Plan) -> (t: Transaction)
        ensures
            t.plan == plan,
            t.phase == TxnPhase::Planned,
            t.error is None,
    {
        Transaction { plan, phase: TxnPhase::Planned, error: None }
    }

    /// The offset at which the payload window starts.
    pub fn payload_offset(&self) -> (r: usize)
        requires
            self.plan.hdr_off + 4 <= usize::MAX,
        ensures
            r == self.plan.hdr_off + 4,
    {
        self.plan.hdr_off + 4
    }

    /// Starts the transaction: the new payload is to be written.
    pub fn start(&mut self) -> (a: TxnAction)
        requires
            old(self).phase == TxnPhase::Planned,
        ensures
            a == TxnAction::WriteNew,
            final(self).phase == TxnPhase::Written,
            final(self).plan == old(self).plan,
            final(self).error == old(self).error,
    {
        self.phase = TxnPhase::Written;
        TxnAction::WriteNew
    }

    /// Takes the artifact as read back after the write: verified, or to be rolled back.
    pub fn on_reread(&mut self, file: &[u8]) -> (a: TxnAction)
        requires
            old(self).phase == TxnPhase::Written,
        ensures
            final(self).plan == old(self).plan,
            verifies(file@, old(self).plan) <==> a == TxnAction::Succeed,
            ({
                let p = old(self).plan;
                let win = p.hdr_off + 4;
                &&& (exists|level: i32, pad: int| exact_fit(p.after_bytes@, p.cap as int, p.new_payload@, level, pad))
                &&& cap_matches(file@, p.hdr_off as int, p.cap as int)
                &&& win + p.cap <= file@.len()
                &&& file@.subrange(win, win + p.cap) == p.new_payload@
            }) ==> a == TxnAction::Succeed && final(self).phase == TxnPhase::Verified,
            a == TxnAction::Succeed || (a == TxnAction::WriteOld && final(self).phase == TxnPhase::RollingBack
                && final(self).error is Some),
            a == TxnAction::Succeed <==> final(self).phase == TxnPhase::Verified,
    {
        match verify_one(file, &self.plan) {
            Ok(()) => {
                self.phase = TxnPhase::Verified;
                TxnAction::Succeed
            },
            Err(e) => {
                self.phase = TxnPhase::RollingBack;
                self.error = Some(e);
                TxnAction::WriteOld
            },
        }
    }

    /// The old payload is back in place: the transaction ends in failure with the
    /// verification error.
    pub fn on_rolled_back(&mut self) -> (a: TxnAction)
        requires
            old(self).phase == TxnPhase::RollingBack,
            old(self).error is Some,
        ensures
            a == TxnAction::Fail(old(self).error->Some_0),
            final(self).phase == TxnPhase::RolledBack,
            final(self).plan == old(self).plan,
    {
        self.phase = TxnPhase::RolledBack;
        match self.error {
            Some(e) => TxnAction::Fail(e),
            None => TxnAction::Fail(PatchError::VerifyMismatch),
        }
    }
}

/// Whatever landed in a plan's window (the new payload, or bytes corrupted on the way), as
/// long as it is window-sized, writing the old payload back gives the artifact as it was
/// before the write, byte for byte.
pub proof fn lemma_rollback_restores(file: Seq<u8>, p: Plan, written: Seq<u8>)
    requires
        plan_for(file, p),
        written.len() == p.cap,
    ensures
        write_at(write_at(file, p.hdr_off + 4, written), p.hdr_off + 4, p.old_payload@) == file,
{
    let win = p.hdr_off + 4;
    let w = write_at(file, win, written);
    let back = write_at(w, win, p.old_payload@);
    assert(back =~= file);
}

/// Writing a plan's new payload changes no byte outside the window, and leaves the window
/// holding exactly the new payload.
pub proof fn lemma_write_confined(file: Seq<u8>, p: Plan)
    requires
        plan_for(file, p),
    ensures
        ({
            let win = p.hdr_off + 4;
            let w = write_at(file, win, p.new_payload@);
            &&& w.len() == file.len()
            &&& w.subrange(win, win + p.cap) == p.new_payload@
            &&& forall|i: int| 0 <= i < file.len() && !(win <= i < win + p.cap) ==> w[i] == file[i]
        }),
{
    let win = p.hdr_off + 4;
    let w = write_at(file, win, p.new_payload@);
    assert(w.subrange(win, win + p.cap) =~= p.new_payload@);
}

} // verus!
