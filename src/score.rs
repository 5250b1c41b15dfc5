//! Scoring decoded candidates against a locale's expected letter rows, and choosing one.

use vstd::prelude::*;
use crate::PatchError;
use crate::json::Json;
use crate::layout::{full_signature_rows, sig_rows};
use crate::mapping::{de_letters, is_de_de, locale_is_de_de};

verus! {

/// Whether `needle` occurs in `hay` in order, not necessarily contiguously,
/// matching each needle character at its earliest place.
pub open spec fn is_subseq(needle: Seq<char>, hay: Seq<char>) -> bool
    decreases hay.len(),
{
    if needle.len() == 0 {
        true
    } else if hay.len() == 0 {
        false
    } else if hay[0] == needle[0] {
        is_subseq(needle.drop_first(), hay.drop_first())
    } else {
        is_subseq(needle, hay.drop_first())
    }
}

/// Whether `needle`'s characters occur in `hay` in order.
pub fn contains_ordered(hay: &[char], needle: &[char]) -> (r: bool)
    ensures
        r == is_subseq(needle@, hay@),
{
    let mut i: usize = 0;
    let mut j: usize = 0;
    assert(needle@.subrange(0, needle@.len() as int) =~= needle@);
    assert(hay@.subrange(0, hay@.len() as int) =~= hay@);
    while i < needle.len()
        invariant
            i <= needle@.len(),
            j <= hay@.len(),
            is_subseq(needle@, hay@) == is_subseq(needle@.subrange(i as int, needle@.len() as int), hay@.subrange(j as int, hay@.len() as int)),
        decreases hay@.len() - j, needle@.len() - i,
    {
        let ghost n = needle@.subrange(i as int, needle@.len() as int);
        let ghost h = hay@.subrange(j as int, hay@.len() as int);
        if j >= hay.len() {
            assert(h.len() == 0 && n.len() > 0);
            return false;
        }
        assert(n.drop_first() =~= needle@.subrange(i as int + 1, needle@.len() as int));
        assert(h.drop_first() =~= hay@.subrange(j as int + 1, hay@.len() as int));
        if hay[j] == needle[i] {
            i += 1;
        }
        j += 1;
    }
    assert(needle@.subrange(i as int, needle@.len() as int).len() == 0);
    true
}

/// Whether `c` occurs in `s`.
pub fn contains_char(s: &[char], c: char) -> (r: bool)
    ensures
        r == s@.contains(c),
{
    let mut i: usize = 0;
    while i < s.len()
        invariant
            i <= s@.len(),
            forall|j: int| 0 <= j < i ==> s@[j] != c,
        decreases s@.len() - i,
    {
        if s[i] == c {
            assert(s@[i as int] == c);
            return true;
        }
        i += 1;
    }
    false
}

/// The expected rows of a locale: for German, its letters in each row.
pub fn locale_full_sig(locale: &[char]) -> (r: Result<(Vec<char>, Vec<char>, Vec<char>), PatchError>)
    ensures
        is_de_de(locale@) <==> r is Ok,
        r matches Ok((a, b, c)) ==> a@ == de_letters(0) && b@ == de_letters(1) && c@ == de_letters(2),
        r is Err ==> r->Err_0 == PatchError::UnsupportedLocale,
{
    if !locale_is_de_de(locale) {
        return Err(PatchError::UnsupportedLocale);
    }
    let a = vec!['q', 'w', 'e', 'r', 't', 'z', 'u', 'i', 'o', 'p', 'ü'];
    let b = vec!['a', 's', 'd', 'f', 'g', 'h', 'j', 'k', 'l', 'ö', 'ä'];
    let c = vec!['y', 'x', 'c', 'v', 'b', 'n', 'm'];
    assert(a@ =~= de_letters(0));
    assert(b@ =~= de_letters(1));
    assert(c@ =~= de_letters(2));
    Ok((a, b, c))
}

/// The weight of a German candidate: its base letters in order in each row, its umlauts
/// in their rows, which weigh far more, and an exact match of all rows, which weighs most.
pub open spec fn de_score(r0: Seq<char>, r1: Seq<char>, r2: Seq<char>, exact: bool) -> int {
    (if is_subseq(de_letters(0).subrange(0, 10), r0) { 1200int } else { 0 })
    + (if is_subseq(de_letters(1).subrange(0, 9), r1) { 1200int } else { 0 })
    + (if is_subseq(de_letters(2), r2) { 900int } else { 0 })
    + (if r0.contains('ü') { 8000int } else { 0 })
    + (if r1.contains('ö') && r1.contains('ä') { 8000int } else { 0 })
    + (if exact { 20000int } else { 0 })
}

/// The score of a candidate's rows for a locale; every candidate scores 0 for a locale
/// without a table.
pub open spec fn score_of(locale: Seq<char>, r0: Seq<char>, r1: Seq<char>, r2: Seq<char>, exact: bool) -> int {
    if is_de_de(locale) { de_score(r0, r1, r2, exact) } else { 0 }
}

fn prefix(s: &Vec<char>, n: usize) -> (r: Vec<char>)
    requires
        n <= s@.len(),
    ensures
        r@ == s@.subrange(0, n as int),
{
    let mut r: Vec<char> = Vec::new();
    let mut i: usize = 0;
    while i < n
        invariant
            n <= s@.len(),
            i <= n,
            r@ == s@.subrange(0, i as int),
        decreases n - i,
    {
        r.push(s[i]);
        assert(r@ =~= s@.subrange(0, i as int + 1));
        i += 1;
    }
    r
}

pub fn score_candidate(locale: &[char], r0: &[char], r1: &[char], r2: &[char], exact: bool) -> (s: i32)
    ensures
        s as int == score_of(locale@, r0@, r1@, r2@, exact),
{
    if !locale_is_de_de(locale) {
        return 0;
    }
    let (l0, l1, l2) = match locale_full_sig(locale) {
        Ok(t) => t,
        Err(_) => return 0,
    };
    let n0 = prefix(&l0, 10);
    let n1 = prefix(&l1, 9);
    let mut s: i32 = 0;
    if contains_ordered(r0, n0.as_slice()) {
        s += 1200;
    }
    if contains_ordered(r1, n1.as_slice()) {
        s += 1200;
    }
    if contains_ordered(r2, l2.as_slice()) {
        s += 900;
    }
    if contains_char(r0, 'ü') {
        s += 8000;
    }
    if contains_char(r1, 'ö') && contains_char(r1, 'ä') {
        s += 8000;
    }
    if exact {
        s += 20000;
    }
    s
}

/// A decoded region, its row signatures and its score.
pub struct Candidate {
    pub hdr_off: usize,
    pub cap: u32,
    pub sig0: Vec<char>,
    pub sig1: Vec<char>,
    pub sig2: Vec<char>,
    pub score: i32,
    pub exact: bool,
    pub doc: Json,
}

/// Whether a candidate's signature and score are those of its document for a locale.
pub open spec fn scored(c: Candidate, locale: Seq<char>) -> bool {
    &&& sig_rows(c.doc) == Some((c.sig0@, c.sig1@, c.sig2@))
    &&& c.exact == (is_de_de(locale) && c.sig0@ == de_letters(0) && c.sig1@ == de_letters(1) && c.sig2@ == de_letters(2))
    &&& c.score as int == score_of(locale, c.sig0@, c.sig1@, c.sig2@, c.exact)
}

/// Scores a decoded document; `None` where it has no three rows of keys.
pub fn evaluate_candidate(locale: &[char], hdr_off: usize, cap: u32, doc: Json) -> (r: Option<Candidate>)
    ensures
        r is Some <==> sig_rows(doc) is Some,
        r matches Some(c) ==> scored(c, locale@) && c.hdr_off == hdr_off && c.cap == cap && c.doc == doc,
{
    let (s0, s1, s2) = match full_signature_rows(&doc) {
        Some(t) => t,
        None => return None,
    };
    let exact = match locale_full_sig(locale) {
        Ok((e0, e1, e2)) => crate::json::chars_eq(s0.as_slice(), e0.as_slice())
            && crate::json::chars_eq(s1.as_slice(), e1.as_slice())
            && crate::json::chars_eq(s2.as_slice(), e2.as_slice()),
        Err(_) => false,
    };
    let score = score_candidate(locale, s0.as_slice(), s1.as_slice(), s2.as_slice(), exact);
    Some(Candidate { hdr_off, cap, sig0: s0, sig1: s1, sig2: s2, score, exact, doc })
}

/// `i` holds the highest score, and no earlier candidate reaches it.
pub open spec fn is_first_best(scores: Seq<i32>, i: int) -> bool {
    &&& 0 <= i < scores.len()
    &&& forall|j: int| 0 <= j < scores.len() ==> scores[j] <= scores[i]
    &&& forall|j: int| 0 <= j < i ==> scores[j] < scores[i]
}

pub open spec fn scores_of(cands: Seq<Candidate>) -> Seq<i32> {
    cands.map_values(|c: Candidate| c.score)
}

/// The candidate to patch: the highest score, the earliest found among equals.
pub fn choose_candidate(cands: &Vec<Candidate>) -> (r: Option<usize>)
    ensures
        r is None <==> cands@.len() == 0,
        r matches Some(i) ==> is_first_best(scores_of(cands@), i as int),
{
    if cands.len() == 0 {
        return None;
    }
    let mut best: usize = 0;
    let mut i: usize = 1;
    while i < cands.len()
        invariant
            1 <= i <= cands@.len(),
            is_first_best(scores_of(cands@).subrange(0, i as int), best as int),
        decreases cands@.len() - i,
    {
        if cands[i].score > cands[best].score {
            best = i;
        }
        assert(scores_of(cands@).subrange(0, i as int + 1).subrange(0, i as int) =~= scores_of(cands@).subrange(0, i as int));
        i += 1;
    }
    assert(scores_of(cands@).subrange(0, cands@.len() as int) =~= scores_of(cands@));
    Some(best)
}

} // verus!

verus! {

proof fn lemma_prefix_subseq(s: Seq<char>, n: int)
    requires
        0 <= n <= s.len(),
    ensures
        is_subseq(s.subrange(0, n), s),
    decreases s.len(),
{
    if n > 0 {
        let p = s.subrange(0, n);
        assert(p.drop_first() =~= s.drop_first().subrange(0, n - 1));
        lemma_prefix_subseq(s.drop_first(), n - 1);
    }
}

/// Scores are bounded by the sum of all weights, and a candidate that is not an exact
/// match stays below any exact match.
proof fn lemma_score_bounds(r0: Seq<char>, r1: Seq<char>, r2: Seq<char>)
    ensures
        de_score(r0, r1, r2, false) <= 19300,
        de_score(de_letters(0), de_letters(1), de_letters(2), true) == 39300,
{
    lemma_prefix_subseq(de_letters(0), 10);
    lemma_prefix_subseq(de_letters(1), 9);
    lemma_prefix_subseq(de_letters(2), 7);
    assert(de_letters(2).subrange(0, 7) =~= de_letters(2));
    assert(de_letters(0)[10] == 'ü');
    assert(de_letters(1)[9] == 'ö');
    assert(de_letters(1)[10] == 'ä');
}

/// Among scored German candidates of which exactly one matches the expected rows exactly,
/// the one chosen is that one, wherever it stands among the others.
pub proof fn lemma_exact_match_chosen(cands: Seq<Candidate>, locale: Seq<char>, k: int, i: int)
    requires
        is_de_de(locale),
        forall|j: int| 0 <= j < cands.len() ==> scored(#[trigger] cands[j], locale),
        0 <= k < cands.len(),
        cands[k].exact,
        forall|j: int| 0 <= j < cands.len() && j != k ==> !(#[trigger] cands[j]).exact,
        is_first_best(scores_of(cands), i),
    ensures
        i == k,
{
    let c = cands[k];
    assert(scored(c, locale));
    lemma_score_bounds(c.sig0@, c.sig1@, c.sig2@);
    assert(scores_of(cands)[k] == 39300);
    if i != k {
        let d = cands[i];
        assert(scored(d, locale));
        lemma_score_bounds(d.sig0@, d.sig1@, d.sig2@);
        assert(scores_of(cands)[i] <= 19300);
        assert(scores_of(cands)[k] <= scores_of(cands)[i]);
    }
}

} // verus!

verus! {

/// `out` holds, in the order found, a scored candidate for each found document that has
/// three rows of keys, and nothing else.
pub open spec fn evaluated(found: Seq<(usize, u32, Json)>, out: Seq<Candidate>, locale: Seq<char>) -> bool {
    exists|idx: Seq<int>| #![trigger idx.len()]
    {
        &&& idx.len() == out.len()
        &&& forall|k: int, l: int| 0 <= k < l < idx.len() ==> idx[k] < idx[l]
        &&& forall|k: int| 0 <= k < idx.len() ==> {
            let j = #[trigger] idx[k];
            &&& 0 <= j < found.len()
            &&& scored(out[k], locale)
            &&& out[k].hdr_off == found[j].0 && out[k].cap == found[j].1 && out[k].doc == found[j].2
        }
        &&& forall|m: int| 0 <= m < found.len() && (#[trigger] sig_rows(found[m].2)) is Some
            ==> exists|k: int| 0 <= k < idx.len() && idx[k] == m
    }
}

/// Scores every found document that has three rows of keys.
pub fn evaluate_candidates(locale: &[char], found: Vec<(usize, u32, Json)>) -> (out: Vec<Candidate>)
    ensures
        evaluated(found@, out@, locale@),
{
    let ghost f0 = found@;
    let mut found = found;
    let n = found.len();
    let mut rest: Vec<(usize, u32, Json)> = Vec::new();
    let mut q: usize = 0;
    while q < n
        invariant
            n == f0.len(),
            q <= n,
            found@ == f0.subrange(0, n - q),
            rest@.len() == q,
            forall|j: int| 0 <= j < q ==> rest@[j] == f0[n - 1 - j],
        decreases n - q,
    {
        let x = found.pop().unwrap();
        rest.push(x);
        assert(found@ =~= f0.subrange(0, n - q - 1));
        q += 1;
    }
    let mut out: Vec<Candidate> = Vec::new();
    let ghost mut idx: Seq<int> = Seq::empty();
    let mut i: usize = 0;
    while i < n
        invariant
            n == f0.len(),
            i <= n,
            rest@.len() == n - i,
            forall|j: int| 0 <= j < n - i ==> rest@[j] == f0[n - 1 - j],
            idx.len() == out@.len(),
            forall|k: int, l: int| 0 <= k < l < idx.len() ==> idx[k] < idx[l],
            forall|k: int| 0 <= k < idx.len() ==> idx[k] < i,
            forall|k: int| 0 <= k < idx.len() ==> {
                let j = #[trigger] idx[k];
                &&& 0 <= j < f0.len()
                &&& scored(out@[k], locale@)
                &&& out@[k].hdr_off == f0[j].0 && out@[k].cap == f0[j].1 && out@[k].doc == f0[j].2
            },
            forall|j: int| 0 <= j < i && (#[trigger] sig_rows(f0[j].2)) is Some
                ==> exists|k: int| 0 <= k < idx.len() && idx[k] == j,
        decreases n - i,
    {
        let ghost rest0 = rest@;
        let ghost idx0 = idx;
        let (hdr_off, cap, doc) = rest.pop().unwrap();
        assert(rest@.len() == n - i - 1);
        assert(rest0[n - i - 1] == f0[i as int]);
        match evaluate_candidate(locale, hdr_off, cap, doc) {
            Some(c) => {
                out.push(c);
                proof {
                    let k_new = idx.len() as int;
                    idx = idx.push(i as int);
                    assert(idx[k_new] == i as int);
                }
            },
            None => {},
        }
        proof {
            assert forall|j: int| 0 <= j < i + 1 && (#[trigger] sig_rows(f0[j].2)) is Some
                implies exists|k: int| 0 <= k < idx.len() && idx[k] == j by {
                if j < i {
                    let k = choose|k: int| 0 <= k < idx0.len() && idx0[k] == j;
                    assert(idx[k] == idx0[k]);
                } else {
                    assert(idx[idx.len() - 1] == j);
                }
            }
        }
        i += 1;
    }
    assert(idx.len() == out@.len());
    out
}

/// The candidate to patch among the found documents: the highest score, the earliest found
/// among equals; fails when no document has three rows of keys.
pub fn select_candidate(locale: &[char], found: Vec<(usize, u32, Json)>) -> (r: Result<Candidate, PatchError>)
    ensures
        r is Err <==> forall|j: int| 0 <= j < found@.len() ==> (#[trigger] sig_rows(found@[j].2)) is None,
        r is Err ==> r->Err_0 == PatchError::NoCandidates,
        r matches Ok(c) ==> exists|cands: Seq<Candidate>, i: int|
            evaluated(found@, cands, locale@) && is_first_best(scores_of(cands), i) && cands[i] == c,
{
    let ghost f0 = found@;
    let mut cands = evaluate_candidates(locale, found);
    match choose_candidate(&cands) {
        Some(i) => {
            let ghost all = cands@;
            proof {
                if forall|j: int| 0 <= j < f0.len() ==> (#[trigger] sig_rows(f0[j].2)) is None {
                    let idx = choose|idx: Seq<int>| #![trigger idx.len()] {
                        &&& idx.len() == all.len()
                        &&& forall|k: int| 0 <= k < idx.len() ==> {
                            let j = #[trigger] idx[k];
                            &&& 0 <= j < f0.len()
                            &&& scored(all[k], locale@)
                            &&& all[k].hdr_off == f0[j].0 && all[k].cap == f0[j].1 && all[k].doc == f0[j].2
                        }
                    };
                    let j = idx[0];
                    assert(scored(all[0], locale@));
                    assert(sig_rows(f0[j].2) is None);
                }
            }
            let c = cands.swap_remove(i);
            Ok(c)
        },
        None => {
            proof {
                assert forall|j: int| 0 <= j < f0.len() implies (#[trigger] sig_rows(f0[j].2)) is None by {
                    if sig_rows(f0[j].2) is Some {
                        let idx = choose|idx: Seq<int>| #![trigger idx.len()] {
                            &&& idx.len() == cands@.len()
                            &&& forall|m: int| 0 <= m < f0.len() && (#[trigger] sig_rows(f0[m].2)) is Some
                                ==> exists|k: int| 0 <= k < idx.len() && idx[k] == m
                        };
                        assert(exists|k: int| 0 <= k < idx.len() && idx[k] == j);
                    }
                }
            }
            Err(PatchError::NoCandidates)
        },
    }
}

} // verus!
