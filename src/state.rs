//! The idempotency store: content hashes, the record of the last patch, and the
//! decisions taken from it before any scan.

use vstd::prelude::*;
use crate::json::chars_eq;

verus! {

/// The SHA-256 digest of `b`.
pub uninterp spec fn sha256_of(b: Seq<u8>) -> Seq<u8>;

/// Relies on sha2::Sha256::digest: the 32-byte SHA-256 digest of the input.
#[verifier::external_body]
fn sha256(data: &[u8]) -> (r: Vec<u8>)
    ensures
        r@ == sha256_of(data@),
        r@.len() == 32,
{
    <sha2::Sha256 as sha2::Digest>::digest(data).to_vec()
}

/// The lower-case hex digit of a value below 16.
pub open spec fn hex_digit(n: int) -> char {
    if n < 10 { ((n + 48) as u32) as char } else { ((n + 87) as u32) as char }
}

/// Two lower-case hex digits per byte, most significant first.
pub open spec fn hex_of(b: Seq<u8>) -> Seq<char>
    decreases b.len(),
{
    if b.len() == 0 {
        Seq::empty()
    } else {
        hex_of(b.drop_last()) + seq![hex_digit(b.last() as int / 16), hex_digit(b.last() as int % 16)]
    }
}

fn digit(n: u8) -> (c: char)
    requires
        n < 16,
    ensures
        c == hex_digit(n as int),
{
    if n < 10 { (n + 48) as char } else { (n + 87) as char }
}

/// Lower-case hex text of a byte sequence.
pub fn hex_encode(b: &[u8]) -> (r: Vec<char>)
    ensures
        r@ == hex_of(b@),
{
    let mut r: Vec<char> = Vec::new();
    let mut i: usize = 0;
    while i < b.len()
        invariant
            i <= b@.len(),
            r@ == hex_of(b@.subrange(0, i as int)),
        decreases b@.len() - i,
    {
        let hi = digit(b[i] / 16);
        let lo = digit(b[i] % 16);
        r.push(hi);
        r.push(lo);
        proof {
            let next = b@.subrange(0, i as int + 1);
            assert(next.drop_last() =~= b@.subrange(0, i as int));
            assert(r@ =~= hex_of(next));
        }
        i += 1;
    }
    assert(b@.subrange(0, b@.len() as int) =~= b@);
    r
}

/// Hex text of the SHA-256 digest of a byte sequence: the identity of an artifact's content.
pub fn sha256_hex(data: &[u8]) -> (r: Vec<char>)
    ensures
        r@ == hex_of(sha256_of(data@)),
{
    let d = sha256(data);
    hex_encode(d.as_slice())
}

/// The schema tag of the record, as bytes.
pub open spec fn schema_bytes() -> Seq<u8> {
    seq![107u8, 98, 100, 112, 97, 116, 99, 104, 45, 115, 116, 97, 116, 101, 45, 118, 50]
}

/// The schema tag of the record, as text: `kbdpatch-state-v2`.
pub open spec fn schema_text() -> Seq<char> {
    seq!['k', 'b', 'd', 'p', 'a', 't', 'c', 'h', '-', 's', 't', 'a', 't', 'e', '-', 'v', '2']
}

pub fn state_schema() -> (r: Vec<char>)
    ensures
        r@ == schema_text(),
{
    let r = vec!['k', 'b', 'd', 'p', 'a', 't', 'c', 'h', '-', 's', 't', 'a', 't', 'e', '-', 'v', '2'];
    assert(r@ =~= schema_text());
    r
}

/// The hash of an override document's compact form, salted with the schema tag so that a
/// new schema invalidates earlier records.
pub fn sha256_with_schema(over_min: &[u8]) -> (r: Vec<char>)
    ensures
        r@ == hex_of(sha256_of(over_min@ + schema_bytes())),
{
    let mut data: Vec<u8> = Vec::with_capacity(over_min.len());
    let mut i: usize = 0;
    while i < over_min.len()
        invariant
            i <= over_min@.len(),
            data@ == over_min@.subrange(0, i as int),
        decreases over_min@.len() - i,
    {
        data.push(over_min[i]);
        assert(data@ =~= over_min@.subrange(0, i as int + 1));
        i += 1;
    }
    let mut tag = vec![107u8, 98, 100, 112, 97, 116, 99, 104, 45, 115, 116, 97, 116, 101, 45, 118, 50];
    assert(tag@ =~= schema_bytes());
    data.append(&mut tag);
    assert(data@ =~= over_min@ + schema_bytes());
    sha256_hex(data.as_slice())
}

/// Where a patch was applied: header offset, capacity and the signature found there.
pub struct PatchHit {
    pub hdr_off: u64,
    pub cap: u32,
    pub sig: Vec<char>,
}

/// The record of the last successful run.
pub struct StateRecord {
    pub schema: Vec<char>,
    pub orig_sha: Vec<char>,
    pub patched_sha: Vec<char>,
    pub override_sha: Vec<char>,
    pub locale: Vec<char>,
    pub hits: Vec<PatchHit>,
}

/// The record says that the artifact, as it is now, already carries this override for this locale.
pub open spec fn record_matches(st: StateRecord, sha_cur: Seq<char>, over_sha: Seq<char>, locale: Seq<char>) -> bool {
    &&& st.schema@ == schema_text()
    &&& st.patched_sha@ == sha_cur
    &&& st.override_sha@ == over_sha
    &&& st.locale@ == locale
}

pub fn state_matches(st: &StateRecord, sha_cur: &[char], over_sha: &[char], locale: &[char]) -> (r: bool)
    ensures
        r == record_matches(*st, sha_cur@, over_sha@, locale@),
{
    let schema = state_schema();
    chars_eq(st.schema.as_slice(), schema.as_slice()) && chars_eq(st.patched_sha.as_slice(), sha_cur)
        && chars_eq(st.override_sha.as_slice(), over_sha) && chars_eq(st.locale.as_slice(), locale)
}

/// What a run does before any scan.
#[derive(Debug, Clone, Copy, PartialEq, Eq, Structural)]
pub enum EarlyAction {
    /// Nothing to do: the artifact already carries the desired patch.
    Unchanged,
    /// Check mode: a patch is needed.
    NeedsPatch,
    /// Go on to patch.
    Proceed,
}

pub open spec fn early_action_of(st: Option<StateRecord>, sha_cur: Seq<char>, over_sha: Seq<char>, locale: Seq<char>,
    check: bool, force: bool) -> EarlyAction {
    let hit = st matches Some(s) && record_matches(s, sha_cur, over_sha, locale);
    if check {
        if hit { EarlyAction::Unchanged } else { EarlyAction::NeedsPatch }
    } else if !force && hit {
        EarlyAction::Unchanged
    } else {
        EarlyAction::Proceed
    }
}

/// Decides from the record whether a run has work to do. Check mode only answers that
/// question; a forced run ignores the record.
pub fn early_decision(st: Option<&StateRecord>, sha_cur: &[char], over_sha: &[char], locale: &[char], check: bool,
    force: bool) -> (r: EarlyAction)
    ensures
        r == early_action_of(
            match st { Some(s) => Some(*s), None => None },
            sha_cur@, over_sha@, locale@, check, force,
        ),
{
    let hit = match st {
        Some(s) => state_matches(s, sha_cur, over_sha, locale),
        None => false,
    };
    if check {
        if hit { EarlyAction::Unchanged } else { EarlyAction::NeedsPatch }
    } else if !force && hit {
        EarlyAction::Unchanged
    } else {
        EarlyAction::Proceed
    }
}

/// The most recorded hits that a run retries before scanning.
pub const MAX_RETRIED_HITS: usize = 4;

/// The record may be used to repatch in place: same schema and locale, the artifact exactly
/// as this tool last left it, and at least one hit.
pub open spec fn can_repatch(st: StateRecord, sha_cur: Seq<char>, locale: Seq<char>) -> bool {
    &&& st.schema@ == schema_text()
    &&& st.locale@ == locale
    &&& st.patched_sha@ == sha_cur
    &&& st.hits@.len() > 0
}

/// The recorded `(offset, capacity)` pairs to retry before a full scan, in record order.
pub fn repatch_targets(st: &StateRecord, sha_cur: &[char], locale: &[char]) -> (r: Vec<(u64, u32)>)
    ensures
        !can_repatch(*st, sha_cur@, locale@) ==> r@.len() == 0,
        can_repatch(*st, sha_cur@, locale@) ==> {
            &&& r@.len() == if st.hits@.len() < 4 { st.hits@.len() as int } else { 4 }
            &&& forall|k: int| 0 <= k < r@.len() ==> (#[trigger] r@[k]).0 == st.hits@[k].hdr_off && r@[k].1 == st.hits@[k].cap
        },
{
    let mut r: Vec<(u64, u32)> = Vec::new();
    let schema = state_schema();
    if !chars_eq(st.schema.as_slice(), schema.as_slice()) || !chars_eq(st.locale.as_slice(), locale)
        || !chars_eq(st.patched_sha.as_slice(), sha_cur) {
        return r;
    }
    let mut i: usize = 0;
    while i < st.hits.len() && i < MAX_RETRIED_HITS
        invariant
            i <= st.hits@.len(),
            i <= 4,
            r@.len() == i,
            forall|k: int| 0 <= k < i ==> (#[trigger] r@[k]).0 == st.hits@[k].hdr_off && r@[k].1 == st.hits@[k].cap,
        decreases st.hits@.len() - i,
    {
        r.push((st.hits[i].hdr_off, st.hits[i].cap));
        i += 1;
    }
    r
}

/// The record written after a run that patched or found nothing to change.
pub fn new_record(orig_sha: Vec<char>, patched_sha: Vec<char>, override_sha: Vec<char>, locale: Vec<char>,
    hdr_off: u64, cap: u32, sig: Vec<char>) -> (r: StateRecord)
    ensures
        r.schema@ == schema_text(),
        r.orig_sha == orig_sha,
        r.patched_sha == patched_sha,
        r.override_sha == override_sha,
        r.locale == locale,
        r.hits@.len() == 1,
        r.hits@[0].hdr_off == hdr_off && r.hits@[0].cap == cap && r.hits@[0].sig == sig,
{
    StateRecord {
        schema: state_schema(),
        orig_sha,
        patched_sha,
        override_sha,
        locale,
        hits: vec![PatchHit { hdr_off, cap, sig }],
    }
}

/// How a run that reached the mapping step ended: at a recorded hit of a previous record
/// (whose pre-patch hash carries over) or at a scanned region, and whether it wrote.
pub struct RunResult {
    /// The pre-patch hash of the record whose hit was repatched, if one was.
    pub state_orig_sha: Option<Vec<char>>,
    /// The artifact's hash after the write, if the run wrote.
    pub sha_post: Option<Vec<char>>,
    pub hdr_off: u64,
    pub cap: u32,
    pub sig: Vec<char>,
}

/// The record that a successful run leaves: the pre-patch hash comes from the repatched
/// record, or is the hash at the start of this run; the patched hash is that after the
/// write, or the starting hash where nothing was written.
pub fn record_after_run(res: RunResult, sha_cur: Vec<char>, override_sha: Vec<char>, locale: Vec<char>) -> (r: StateRecord)
    ensures
        r.schema@ == schema_text(),
        r.orig_sha@ == (match res.state_orig_sha { Some(o) => o@, None => sha_cur@ }),
        r.patched_sha@ == (match res.sha_post { Some(p) => p@, None => sha_cur@ }),
        r.override_sha == override_sha,
        r.locale == locale,
        r.hits@.len() == 1,
        r.hits@[0].hdr_off == res.hdr_off && r.hits@[0].cap == res.cap && r.hits@[0].sig == res.sig,
{
    let patched = match res.sha_post {
        Some(p) => p,
        None => copy_text(&sha_cur),
    };
    let orig = match res.state_orig_sha {
        Some(o) => o,
        None => sha_cur,
    };
    new_record(orig, patched, override_sha, locale, res.hdr_off, res.cap, res.sig)
}

fn copy_text(s: &Vec<char>) -> (r: Vec<char>)
    ensures
        r@ == s@,
{
    let r = s.clone();
    assert(r@ =~= s@);
    r
}

/// A run on the artifact that a previous run left, with the same override and locale, finds
/// nothing to do: the record that run wrote matches, in check mode and in a normal run alike.
pub proof fn lemma_rerun_is_noop(rec: StateRecord, sha_after: Seq<char>, over_sha: Seq<char>, locale: Seq<char>, check: bool)
    requires
        rec.schema@ == schema_text(),
        rec.patched_sha@ == sha_after,
        rec.override_sha@ == over_sha,
        rec.locale@ == locale,
    ensures
        early_action_of(Some(rec), sha_after, over_sha, locale, check, false) == EarlyAction::Unchanged,
{
}

} // verus!
