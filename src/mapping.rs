//! The letter mapping built from an override layout, and its application to a
//! layout document: by base letter, or by fixed position as a fallback.

use vstd::prelude::*;
use crate::PatchError;
use crate::json::{Json, name_alphabetic, name_default, name_shifted, field_pos, field_of, is_first, has_field, find_field,
    default_name, shifted_name, alphabetic_name, field_array_len, array_len, get};
use crate::layout::{glyph, key_glyph, default0, shifted0, copy_chars, is_normal_key, rows_of, key_pair,
    key_pair_from_val, get_rows};

verus! {

/// Base letter to `(default, shifted)` glyphs; a well-formed mapping (`wf`) holds each letter once.
pub struct LetterMapping {
    pub entries: Vec<(char, Vec<char>, Vec<char>)>,
}

pub open spec fn is_first_letter(e: Seq<(char, Vec<char>, Vec<char>)>, c: char, i: int) -> bool {
    &&& 0 <= i < e.len()
    &&& e[i].0 == c
    &&& forall|j: int| 0 <= j < i ==> e[j].0 != c
}

/// The glyph pair that the mapping holds for `c`.
pub open spec fn lookup(e: Seq<(char, Vec<char>, Vec<char>)>, c: char) -> Option<(Seq<char>, Seq<char>)> {
    if exists|i: int| is_first_letter(e, c, i) {
        let i = choose|i: int| is_first_letter(e, c, i);
        Some((e[i].1@, e[i].2@))
    } else {
        None
    }
}

impl LetterMapping {
    /// Each base letter has at most one entry.
    pub open spec fn wf(&self) -> bool {
        forall|i: int, j: int| 0 <= i < j < self.entries@.len() ==> self.entries@[i].0 != self.entries@[j].0
    }

    /// Looks a base letter up.
    pub fn get(&self, c: char) -> (r: Option<(&Vec<char>, &Vec<char>)>)
        ensures
            r matches Some((d, s)) ==> lookup(self.entries@, c) == Some((d@, s@)),
            r is None ==> lookup(self.entries@, c) is None,
    {
        let mut i: usize = 0;
        while i < self.entries.len()
            invariant
                i <= self.entries@.len(),
                forall|j: int| 0 <= j < i ==> self.entries@[j].0 != c,
            decreases self.entries@.len() - i,
        {
            if self.entries[i].0 == c {
                proof {
                    let e = self.entries@;
                    assert(is_first_letter(e, c, i as int));
                    let k = choose|k: int| is_first_letter(e, c, k);
                    if k < i {
                        assert(e[k].0 != c);
                    } else if i < k {
                        assert(e[i as int].0 != c);
                    }
                }
                return Some((&self.entries[i].1, &self.entries[i].2));
            }
            i += 1;
        }
        None
    }
}

/// ASCII letters fold to lower case; every other character stays as it is.
pub open spec fn fold_ascii(c: char) -> char {
    if 'A' <= c && c <= 'Z' {
        ((c as u32) + 32) as char
    } else {
        c
    }
}

pub fn fold_key(c: char) -> (r: char)
    ensures
        r == fold_ascii(c),
{
    if c >= 'A' && c <= 'Z' {
        ((c as u8) + 32) as char
    } else {
        c
    }
}

/// Whether `v` is an array holding exactly one string, `t`.
pub open spec fn single_str(v: Json, t: Seq<char>) -> bool {
    &&& v is Array
    &&& v->Array_0@.len() == 1
    &&& v->Array_0@[0] is Str
    &&& v->Array_0@[0]->Str_0@ == t
}

/// `new` is `old` with field `name` set to `value`: replaced in place where it exists, else appended.
pub open spec fn field_set(old: Seq<(Vec<char>, Json)>, new: Seq<(Vec<char>, Json)>, name: Seq<char>, value: Json) -> bool {
    if has_field(old, name) {
        let p = field_pos(old, name);
        &&& new.len() == old.len()
        &&& forall|j: int| 0 <= j < old.len() && j != p ==> new[j] == old[j]
        &&& new[p].0@ == name
        &&& new[p].1 == value
    } else {
        &&& new.len() == old.len() + 1
        &&& forall|j: int| 0 <= j < old.len() ==> new[j] == old[j]
        &&& new[old.len() as int].0@ == name
        &&& new[old.len() as int].1 == value
    }
}

/// Whether a key's glyph fields differ from the pair `(d, s)`: unless `default` is exactly
/// `[d]` and `shifted` exactly `[s]`, the key is to be rewritten.
pub open spec fn needs_update(k: Json, d: Seq<char>, s: Seq<char>) -> bool {
    array_len(get(k, name_default())) != 1 || array_len(get(k, name_shifted())) != 1
        || default0(k) != Some(d) || shifted0(k) != Some(s)
}

/// `new` is the key `old` with `default` set to `[d]` and `shifted` to `[s]`, where that
/// changes anything; else `new` is `old`.
pub open spec fn pair_applied(old: Json, new: Json, d: Seq<char>, s: Seq<char>) -> bool {
    if needs_update(old, d, s) {
        &&& old is Object
        &&& new is Object
        &&& exists|mid: Seq<(Vec<char>, Json)>, vd: Json, vs: Json|
            field_set(old->Object_0@, mid, name_default(), vd) && single_str(vd, d)
            && field_set(mid, new->Object_0@, name_shifted(), vs) && single_str(vs, s)
    } else {
        new == old
    }
}

/// The mapping entry that the base-letter policy finds for a key.
pub open spec fn hit(k: Json, e: Seq<(char, Vec<char>, Vec<char>)>) -> Option<(Seq<char>, Seq<char>)> {
    match glyph(k) {
        Some(c) => lookup(e, fold_ascii(c)),
        None => None,
    }
}

/// How the base-letter policy turns key `old` into `new`.
pub open spec fn key_mapped(old: Json, new: Json, e: Seq<(char, Vec<char>, Vec<char>)>) -> bool {
    match hit(old, e) {
        Some((d, s)) => pair_applied(old, new, d, s),
        None => new == old,
    }
}

pub open spec fn hit_count(k: Json, e: Seq<(char, Vec<char>, Vec<char>)>) -> nat {
    if hit(k, e) is Some { 1 } else { 0 }
}

pub open spec fn change_count(k: Json, e: Seq<(char, Vec<char>, Vec<char>)>) -> nat {
    match hit(k, e) {
        Some((d, s)) => if needs_update(k, d, s) { 1 } else { 0 },
        None => 0,
    }
}

/// The number of keys of a row that the mapping has an entry for.
pub open spec fn touched_in(keys: Seq<Json>, e: Seq<(char, Vec<char>, Vec<char>)>) -> nat
    decreases keys.len(),
{
    if keys.len() == 0 { 0 } else { touched_in(keys.drop_last(), e) + hit_count(keys.last(), e) }
}

/// The number of keys of a row whose glyphs the mapping changes.
pub open spec fn changed_in(keys: Seq<Json>, e: Seq<(char, Vec<char>, Vec<char>)>) -> nat
    decreases keys.len(),
{
    if keys.len() == 0 { 0 } else { changed_in(keys.drop_last(), e) + change_count(keys.last(), e) }
}

/// Sets field `name` to `value`.
pub fn set_field(fields: &mut Vec<(Vec<char>, Json)>, name: Vec<char>, value: Json)
    ensures
        field_set(old(fields)@, final(fields)@, name@, value),
{
    match find_field(fields, &name) {
        Some(i) => {
            let mut entry = (name, value);
            std::mem::swap(&mut fields[i], &mut entry);
        },
        None => {
            fields.push((name, value));
        },
    }
}

/// A one-element array holding the text `t`.
fn single_str_array(t: &Vec<char>) -> (r: Json)
    ensures
        single_str(r, t@),
{
    let v = vec![Json::Str(copy_chars(t))];
    Json::Array(v)
}

/// Whether a key's glyph fields differ from `(nd, ns)`.
fn key_needs(f: &Vec<(Vec<char>, Json)>, nd: &Vec<char>, ns: &Vec<char>) -> (r: bool)
    ensures
        r == needs_update(Json::Object(*f), nd@, ns@),
{
    let dn = default_name();
    let sn = shifted_name();
    let d_same = match crate::json::get0_str_val(f, &dn) {
        Some(t) => crate::json::chars_eq(t.as_slice(), nd.as_slice()),
        None => false,
    };
    let s_same = match crate::json::get0_str_val(f, &sn) {
        Some(t) => crate::json::chars_eq(t.as_slice(), ns.as_slice()),
        None => false,
    };
    field_array_len(f, &dn) != 1 || field_array_len(f, &sn) != 1 || !d_same || !s_same
}

/// Sets a key's `default` to `[nd]` and `shifted` to `[ns]` where that changes anything;
/// returns whether it did.
fn set_pair_fields(f: &mut Vec<(Vec<char>, Json)>, nd: &Vec<char>, ns: &Vec<char>) -> (did: bool)
    ensures
        did == needs_update(Json::Object(*old(f)), nd@, ns@),
        pair_applied(Json::Object(*old(f)), Json::Object(*final(f)), nd@, ns@),
{
    let ghost f0 = *f;
    if key_needs(f, nd, ns) {
        let vd = single_str_array(nd);
        let vs = single_str_array(ns);
        let ghost gvd = vd;
        let ghost gvs = vs;
        set_field(f, default_name(), vd);
        let ghost mid = f@;
        set_field(f, shifted_name(), vs);
        assert(field_set(f0@, mid, name_default(), gvd) && single_str(gvd, nd@)
            && field_set(mid, f@, name_shifted(), gvs) && single_str(gvs, ns@));
        true
    } else {
        false
    }
}

/// Applies the base-letter policy to one key; returns the key and whether it was touched and changed.
fn map_key(k: Json, m: &LetterMapping) -> (r: (Json, bool, bool))
    ensures
        key_mapped(k, r.0, m.entries@),
        r.1 == (hit(k, m.entries@) is Some),
        r.2 == (change_count(k, m.entries@) == 1),
{
    let g = key_glyph(&k);
    let c = match g {
        Some(c) => c,
        None => return (k, false, false),
    };
    let found = m.get(fold_key(c));
    match found {
        Some((nd, ns)) => {
            match k {
                Json::Object(mut f) => {
                    let did = set_pair_fields(&mut f, nd, ns);
                    (Json::Object(f), true, did)
                },
                other => (other, true, false),
            }
        },
        None => (k, false, false),
    }
}

/// How a row fares under the base-letter policy.
pub open spec fn row_mapped(old: Json, new: Json, e: Seq<(char, Vec<char>, Vec<char>)>) -> bool {
    match old {
        Json::Array(a) => new is Array && new->Array_0@.len() == a@.len()
            && forall|i: int| 0 <= i < a@.len() ==> key_mapped(a@[i], #[trigger] new->Array_0@[i], e),
        _ => new == old,
    }
}

pub open spec fn row_touched(row: Json, e: Seq<(char, Vec<char>, Vec<char>)>) -> nat {
    match row {
        Json::Array(a) => touched_in(a@, e),
        _ => 0,
    }
}

pub open spec fn row_changed(row: Json, e: Seq<(char, Vec<char>, Vec<char>)>) -> nat {
    match row {
        Json::Array(a) => changed_in(a@, e),
        _ => 0,
    }
}

/// Applies the base-letter policy to every key of a row.
fn map_row(keys: &mut Vec<Json>, m: &LetterMapping) -> (r: (usize, usize))
    ensures
        final(keys)@.len() == old(keys)@.len(),
        forall|i: int| 0 <= i < old(keys)@.len() ==> key_mapped(old(keys)@[i], #[trigger] final(keys)@[i], m.entries@),
        r.0 == touched_in(old(keys)@, m.entries@),
        r.1 == changed_in(old(keys)@, m.entries@),
{
    let ghost k0 = keys@;
    let mut touched: usize = 0;
    let mut changed: usize = 0;
    let mut i: usize = 0;
    while i < keys.len()
        invariant
            keys@.len() == k0.len(),
            i <= k0.len(),
            forall|j: int| 0 <= j < i ==> key_mapped(k0[j], #[trigger] keys@[j], m.entries@),
            forall|j: int| i <= j < k0.len() ==> keys@[j] == k0[j],
            touched == touched_in(k0.subrange(0, i as int), m.entries@),
            changed == changed_in(k0.subrange(0, i as int), m.entries@),
            touched <= i,
            changed <= i,
        decreases k0.len() - i,
    {
        let mut k = Json::Null;
        std::mem::swap(&mut k, &mut keys[i]);
        let (nk, t, c) = map_key(k, m);
        let mut nk = nk;
        std::mem::swap(&mut nk, &mut keys[i]);
        proof {
            let next = k0.subrange(0, i as int + 1);
            assert(next.drop_last() =~= k0.subrange(0, i as int));
            assert(next.last() == k0[i as int]);
        }
        if t {
            touched += 1;
        }
        if c {
            changed += 1;
        }
        i += 1;
    }
    assert(k0.subrange(0, k0.len() as int) =~= k0);
    (touched, changed)
}

/// `new` is the document `old` with its `alphabetic` rows replaced by `rows_new`, all else kept.
pub open spec fn rows_replaced(old: Json, new: Json, rows_new: Seq<Json>) -> bool {
    &&& old is Object
    &&& new is Object
    &&& {
        let f = old->Object_0@;
        let g = new->Object_0@;
        let p = field_pos(f, name_alphabetic());
        &&& has_field(f, name_alphabetic())
        &&& g.len() == f.len()
        &&& forall|j: int| 0 <= j < f.len() && j != p ==> g[j] == f[j]
        &&& g[p].0 == f[p].0
        &&& g[p].1 is Array
        &&& g[p].1->Array_0@ == rows_new
    }
}

/// The effect of the base-letter policy on a document: each of the first three rows is
/// mapped key by key, and nothing else changes.
pub open spec fn doc_mapped(old: Json, new: Json, e: Seq<(char, Vec<char>, Vec<char>)>) -> bool {
    let rows = rows_of(old)->Some_0;
    exists|nr: Seq<Json>| #![trigger rows_replaced(old, new, nr)]
        rows_replaced(old, new, nr) && nr.len() == rows.len()
        && (forall|r: int| 3 <= r < rows.len() ==> nr[r] == rows[r])
        && (forall|r: int| 0 <= r < 3 ==> row_mapped(rows[r], #[trigger] nr[r], e))
}

pub open spec fn doc_touched(v: Json, e: Seq<(char, Vec<char>, Vec<char>)>) -> nat {
    let rows = rows_of(v)->Some_0;
    row_touched(rows[0], e) + row_touched(rows[1], e) + row_touched(rows[2], e)
}

pub open spec fn doc_changed(v: Json, e: Seq<(char, Vec<char>, Vec<char>)>) -> nat {
    let rows = rows_of(v)->Some_0;
    row_changed(rows[0], e) + row_changed(rows[1], e) + row_changed(rows[2], e)
}

/// Whether a document has an `alphabetic` array of at least three rows.
pub open spec fn has_three_rows(v: Json) -> bool {
    rows_of(v) is Some && rows_of(v)->Some_0.len() >= 3
}

/// The number of keys of a row, 0 where it is no array.
pub open spec fn row_len(row: Json) -> int {
    match row {
        Json::Array(a) => a@.len() as int,
        _ => 0,
    }
}

/// The number of keys in the first three rows, which every count of keys stays within.
pub open spec fn key_total(v: Json) -> int {
    let rows = rows_of(v)->Some_0;
    row_len(rows[0]) + row_len(rows[1]) + row_len(rows[2])
}

proof fn lemma_counts_bound(keys: Seq<Json>, e: Seq<(char, Vec<char>, Vec<char>)>)
    ensures
        touched_in(keys, e) <= keys.len(),
        changed_in(keys, e) <= keys.len(),
    decreases keys.len(),
{
    if keys.len() > 0 {
        lemma_counts_bound(keys.drop_last(), e);
    }
}

proof fn lemma_touched_bound(row: Json, e: Seq<(char, Vec<char>, Vec<char>)>)
    ensures
        row_touched(row, e) <= row_len(row),
        row_changed(row, e) <= row_len(row),
{
    if let Json::Array(a) = row {
        lemma_counts_bound(a@, e);
    }
}

/// Applies the base-letter policy to one row of a row array, in place.
fn map_row_at(rows: &mut Vec<Json>, r: usize, m: &LetterMapping) -> (counts: (usize, usize))
    requires
        r < old(rows)@.len(),
    ensures
        final(rows)@.len() == old(rows)@.len(),
        forall|j: int| 0 <= j < old(rows)@.len() && j != r ==> final(rows)@[j] == old(rows)@[j],
        row_mapped(old(rows)@[r as int], final(rows)@[r as int], m.entries@),
        counts.0 == row_touched(old(rows)@[r as int], m.entries@),
        counts.1 == row_changed(old(rows)@[r as int], m.entries@),
{
    let mut row = Json::Null;
    std::mem::swap(&mut row, &mut rows[r]);
    let (nrow, counts) = match row {
        Json::Array(mut keys) => {
            let c = map_row(&mut keys, m);
            (Json::Array(keys), c)
        },
        other => (other, (0, 0)),
    };
    let mut nrow = nrow;
    std::mem::swap(&mut nrow, &mut rows[r]);
    counts
}

/// Rewrites every normal single-character key of the first three rows whose base letter
/// (ASCII folded to lower case) the mapping holds; returns the document and the counts of
/// keys touched and changed.
pub fn apply_mapping_by_base_letter(base: Json, m: &LetterMapping) -> (r: Result<(Json, usize, usize), PatchError>)
    requires
        has_three_rows(base) ==> key_total(base) <= usize::MAX,
    ensures
        r is Ok <==> has_three_rows(base),
        r is Err ==> r->Err_0 == PatchError::NotLayout,
        r matches Ok((after, touched, changed)) ==> {
            &&& doc_mapped(base, after, m.entries@)
            &&& touched == doc_touched(base, m.entries@)
            &&& changed == doc_changed(base, m.entries@)
        },
{
    if get_rows(&base).is_none() {
        return Err(PatchError::NotLayout);
    }
    let ghost b0 = base;
    let mut fields = match base {
        Json::Object(f) => f,
        _ => return Err(PatchError::NotLayout),
    };
    let p = match find_field(&fields, &alphabetic_name()) {
        Some(p) => p,
        None => return Err(PatchError::NotLayout),
    };
    let mut entry: (Vec<char>, Json) = (Vec::new(), Json::Null);
    std::mem::swap(&mut entry, &mut fields[p]);
    let (name, val) = entry;
    let mut rows = match val {
        Json::Array(rows) => rows,
        _ => return Err(PatchError::NotLayout),
    };
    if rows.len() < 3 {
        return Err(PatchError::NotLayout);
    }
    let ghost rows0 = rows@;
    let (t0, c0) = map_row_at(&mut rows, 0, m);
    let (t1, c1) = map_row_at(&mut rows, 1, m);
    let (t2, c2) = map_row_at(&mut rows, 2, m);
    proof {
        lemma_touched_bound(rows0[0], m.entries@);
        lemma_touched_bound(rows0[1], m.entries@);
        lemma_touched_bound(rows0[2], m.entries@);
    }
    let ghost nr = rows@;
    let mut back = (name, Json::Array(rows));
    std::mem::swap(&mut back, &mut fields[p]);
    let after = Json::Object(fields);
    assert(rows_replaced(b0, after, nr));
    Ok((after, t0 + t1 + t2, c0 + c1 + c2))
}

} // verus!

verus! {

/// Whether `l` names the German locale, `de_DE`.
pub open spec fn is_de_de(l: Seq<char>) -> bool {
    l == seq!['d', 'e', '_', 'D', 'E']
}

pub fn locale_is_de_de(l: &[char]) -> (r: bool)
    ensures
        r == is_de_de(l@),
{
    let de = vec!['d', 'e', '_', 'D', 'E'];
    assert(de@ =~= seq!['d', 'e', '_', 'D', 'E']);
    crate::json::chars_eq(l, de.as_slice())
}

/// The letters of the German layout, by row, in key order.
pub open spec fn de_letters(r: int) -> Seq<char> {
    if r == 0 {
        seq!['q', 'w', 'e', 'r', 't', 'z', 'u', 'i', 'o', 'p', 'ü']
    } else if r == 1 {
        seq!['a', 's', 'd', 'f', 'g', 'h', 'j', 'k', 'l', 'ö', 'ä']
    } else {
        seq!['y', 'x', 'c', 'v', 'b', 'n', 'm']
    }
}

/// The key position of a row's first letter: the bottom row opens with shift.
pub open spec fn de_start(r: int) -> int {
    if r == 2 { 1 } else { 0 }
}

/// The fewest keys an override row must hold.
pub open spec fn de_override_min(r: int) -> int {
    if r == 2 { 8 } else { 11 }
}

fn de_row_letters(r: usize) -> (l: Vec<char>)
    requires
        r < 3,
    ensures
        l@ == de_letters(r as int),
{
    let l = if r == 0 {
        vec!['q', 'w', 'e', 'r', 't', 'z', 'u', 'i', 'o', 'p', 'ü']
    } else if r == 1 {
        vec!['a', 's', 'd', 'f', 'g', 'h', 'j', 'k', 'l', 'ö', 'ä']
    } else {
        vec!['y', 'x', 'c', 'v', 'b', 'n', 'm']
    };
    assert(l@ =~= de_letters(r as int));
    l
}

/// The keys of row `r` of a document, where its rows and that row are arrays.
pub open spec fn keys_of(v: Json, r: int) -> Seq<Json> {
    rows_of(v)->Some_0[r]->Array_0@
}

/// Row `r` exists and is an array.
pub open spec fn row_is_array(v: Json, r: int) -> bool {
    rows_of(v) is Some && 0 <= r < rows_of(v)->Some_0.len() && rows_of(v)->Some_0[r] is Array
}

/// An override from which the German mapping can be built: three rows, each an array long
/// enough, and a usable glyph pair at every letter position.
pub open spec fn de_override_ok(over: Json) -> bool {
    &&& rows_of(over) is Some
    &&& rows_of(over)->Some_0.len() == 3
    &&& forall|r: int| 0 <= r < 3 ==> #[trigger] row_is_array(over, r)
    &&& forall|r: int| 0 <= r < 3 ==> keys_of(over, r).len() >= #[trigger] de_override_min(r)
    &&& forall|r: int, j: int| 0 <= r < 3 && 0 <= j < de_letters(r).len()
        ==> (#[trigger] key_pair(keys_of(over, r)[de_start(r) + j])) is Some
}

/// Where the entry for letter `j` of row `r` stands in the built mapping.
pub open spec fn de_entry_index(r: int, j: int) -> int {
    if r == 0 { j } else if r == 1 { 11 + j } else if r == 2 { 22 + j } else { 29 + j }
}

/// The German mapping built from an override: for each letter, in row order, the glyph
/// pair of the override key at that letter's position.
pub open spec fn de_mapping_of(over: Json, e: Seq<(char, Vec<char>, Vec<char>)>) -> bool {
    &&& e.len() == 29
    &&& forall|r: int, j: int| 0 <= r < 3 && 0 <= j < de_letters(r).len() ==> {
        let k = #[trigger] de_entry_index(r, j);
        &&& e[k].0 == de_letters(r)[j]
        &&& key_pair(keys_of(over, r)[de_start(r) + j]) == Some((e[k].1@, e[k].2@))
    }
}

/// The place of a German letter in row order.
pub open spec fn de_rank(c: char) -> int {
    if c == 'q' { 0 } else if c == 'w' { 1 } else if c == 'e' { 2 } else if c == 'r' { 3 } else if c == 't' { 4 }
    else if c == 'z' { 5 } else if c == 'u' { 6 } else if c == 'i' { 7 } else if c == 'o' { 8 } else if c == 'p' { 9 }
    else if c == 'ü' { 10 } else if c == 'a' { 11 } else if c == 's' { 12 } else if c == 'd' { 13 } else if c == 'f' { 14 }
    else if c == 'g' { 15 } else if c == 'h' { 16 } else if c == 'j' { 17 } else if c == 'k' { 18 } else if c == 'l' { 19 }
    else if c == 'ö' { 20 } else if c == 'ä' { 21 } else if c == 'y' { 22 } else if c == 'x' { 23 } else if c == 'c' { 24 }
    else if c == 'v' { 25 } else if c == 'b' { 26 } else if c == 'n' { 27 } else if c == 'm' { 28 } else { -1 }
}

/// Each German letter's rank is its entry index, so no two letter positions share a letter.
proof fn lemma_de_rank(q: int, j: int)
    requires
        0 <= q < 3,
        0 <= j < de_letters(q).len(),
    ensures
        de_rank(de_letters(q)[j]) == de_entry_index(q, j),
{
    let l = de_letters(q);
    if q == 0 {
        assert(l[0] == 'q' && l[1] == 'w' && l[2] == 'e' && l[3] == 'r' && l[4] == 't' && l[5] == 'z');
        assert(l[6] == 'u' && l[7] == 'i' && l[8] == 'o' && l[9] == 'p' && l[10] == 'ü');
    } else if q == 1 {
        assert(l[0] == 'a' && l[1] == 's' && l[2] == 'd' && l[3] == 'f' && l[4] == 'g' && l[5] == 'h');
        assert(l[6] == 'j' && l[7] == 'k' && l[8] == 'l' && l[9] == 'ö' && l[10] == 'ä');
    } else {
        assert(l[0] == 'y' && l[1] == 'x' && l[2] == 'c' && l[3] == 'v' && l[4] == 'b' && l[5] == 'n' && l[6] == 'm');
    }
}

/// Builds the German letter mapping from an override layout.
pub fn build_letter_mapping_de_de(over: &Json) -> (r: Result<LetterMapping, PatchError>)
    ensures
        r is Ok <==> de_override_ok(*over),
        r matches Ok(m) ==> de_mapping_of(*over, m.entries@) && m.wf(),
{
    let rows = match get_rows(over) {
        Some(a) => a,
        None => return Err(PatchError::NotLayout),
    };
    if rows.len() != 3 {
        return Err(PatchError::NotLayout);
    }
    let mut entries: Vec<(char, Vec<char>, Vec<char>)> = Vec::new();
    let mut r: usize = 0;
    while r < 3
        invariant
            rows_of(*over) == Some(rows@),
            rows@.len() == 3,
            r <= 3,
            forall|q: int| 0 <= q < r ==> #[trigger] row_is_array(*over, q),
            forall|q: int| 0 <= q < r ==> keys_of(*over, q).len() >= #[trigger] de_override_min(q),
            forall|q: int, j: int| 0 <= q < r && 0 <= j < de_letters(q).len()
                ==> (#[trigger] key_pair(keys_of(*over, q)[de_start(q) + j])) is Some,
            entries@.len() == de_entry_index(r as int, 0),
            forall|i: int| 0 <= i < entries@.len() ==> de_rank(#[trigger] entries@[i].0) == i,
            forall|q: int, j: int| 0 <= q < r && 0 <= j < de_letters(q).len() ==> {
                let k = #[trigger] de_entry_index(q, j);
                &&& entries@[k].0 == de_letters(q)[j]
                &&& key_pair(keys_of(*over, q)[de_start(q) + j]) == Some((entries@[k].1@, entries@[k].2@))
            },
        decreases 3 - r,
    {
        let keys = match &rows[r] {
            Json::Array(a) => a,
            _ => {
                assert(!row_is_array(*over, r as int));
                return Err(PatchError::NotLayout);
            },
        };
        let start: usize = if r == 2 { 1 } else { 0 };
        let min: usize = if r == 2 { 8 } else { 11 };
        if keys.len() < min {
            assert(!(keys_of(*over, r as int).len() >= de_override_min(r as int)));
            return Err(PatchError::RowTooShort);
        }
        let letters = de_row_letters(r);
        let ghost e0 = entries@;
        let mut j: usize = 0;
        while j < letters.len()
            invariant
                rows_of(*over) == Some(rows@),
                rows@.len() == 3,
                r < 3,
                rows@[r as int] is Array,
                keys@ == keys_of(*over, r as int),
                keys@.len() >= de_override_min(r as int),
                start as int == de_start(r as int),
                letters@ == de_letters(r as int),
                j <= letters@.len(),
                entries@.len() == de_entry_index(r as int, 0) + j,
                e0.len() == de_entry_index(r as int, 0),
                forall|i: int| 0 <= i < e0.len() ==> entries@[i] == e0[i],
                forall|i: int| 0 <= i < entries@.len() ==> de_rank(#[trigger] entries@[i].0) == i,
                forall|i: int| 0 <= i < j ==> (#[trigger] key_pair(keys@[start + i])) is Some,
                forall|i: int| 0 <= i < j ==> {
                    let k = #[trigger] de_entry_index(r as int, i);
                    &&& entries@[k].0 == letters@[i]
                    &&& key_pair(keys@[start + i]) == Some((entries@[k].1@, entries@[k].2@))
                },
            decreases letters@.len() - j,
        {
            let (d, s) = match key_pair_from_val(&keys[start + j]) {
                Ok(p) => p,
                Err(e) => {
                    assert(key_pair(keys_of(*over, r as int)[de_start(r as int) + j]) is None);
                    return Err(e);
                },
            };
            let ghost prev = entries@;
            proof {
                lemma_de_rank(r as int, j as int);
            }
            entries.push((letters[j], d, s));
            assert forall|i: int| 0 <= i < e0.len() implies entries@[i] == e0[i] by {
                assert(entries@[i] == prev[i]);
            }
            j += 1;
        }
        assert forall|q: int, i: int| 0 <= q < r + 1 && 0 <= i < de_letters(q).len() implies
            (#[trigger] key_pair(keys_of(*over, q)[de_start(q) + i])) is Some by {
            if q == r as int {
                assert(key_pair(keys@[start + i]) is Some);
            }
        }
        assert forall|q: int, i: int| 0 <= q < r + 1 && 0 <= i < de_letters(q).len() implies {
            let k = #[trigger] de_entry_index(q, i);
            &&& entries@[k].0 == de_letters(q)[i]
            &&& key_pair(keys_of(*over, q)[de_start(q) + i]) == Some((entries@[k].1@, entries@[k].2@))
        } by {
            if q == r as int {
                let k = de_entry_index(q, i);
                assert(entries@[k].0 == letters@[i]);
            } else {
                assert(de_entry_index(q, i) < e0.len());
            }
        }
        r += 1;
    }
    let m = LetterMapping { entries };
    assert forall|i: int, j: int| 0 <= i < j < m.entries@.len() implies m.entries@[i].0 != m.entries@[j].0 by {
        assert(de_rank(m.entries@[i].0) == i);
        assert(de_rank(m.entries@[j].0) == j);
    }
    Ok(m)
}

/// Builds the letter mapping of a locale from an override layout.
pub fn build_letter_mapping(locale: &[char], over: &Json) -> (r: Result<LetterMapping, PatchError>)
    ensures
        !is_de_de(locale@) ==> r == Err::<LetterMapping, PatchError>(PatchError::UnsupportedLocale),
        is_de_de(locale@) ==> (r is Ok <==> de_override_ok(*over)),
        r matches Ok(m) ==> de_mapping_of(*over, m.entries@) && m.wf(),
{
    if locale_is_de_de(locale) {
        build_letter_mapping_de_de(over)
    } else {
        Err(PatchError::UnsupportedLocale)
    }
}

} // verus!

verus! {

/// Sets a normal key's glyph pair; fails on anything but a normal key.
/// Returns the key and whether its glyphs changed.
pub fn set_key_pair(key: Json, nd: &Vec<char>, ns: &Vec<char>) -> (r: Result<(Json, bool), PatchError>)
    ensures
        r is Ok <==> is_normal_key(key),
        r matches Ok((nk, did)) ==> pair_applied(key, nk, nd@, ns@) && did == needs_update(key, nd@, ns@),
        !(key is Object) ==> r == Err::<(Json, bool), PatchError>(PatchError::KeyNotObject),
        key is Object && !is_normal_key(key) ==> r == Err::<(Json, bool), PatchError>(PatchError::SpecialKey),
{
    match key {
        Json::Object(mut f) => {
            if find_field(&f, &crate::json::special_name()).is_some() {
                return Err(PatchError::SpecialKey);
            }
            let did = set_pair_fields(&mut f, nd, ns);
            Ok((Json::Object(f), did))
        },
        _ => Err(PatchError::KeyNotObject),
    }
}

/// The mapped pair for a letter that the mapping holds.
pub open spec fn pair_for(e: Seq<(char, Vec<char>, Vec<char>)>, c: char) -> (Seq<char>, Seq<char>) {
    lookup(e, c)->Some_0
}

/// Every letter has a mapping entry and every key it lands on is a normal key.
pub open spec fn positions_ok(keys: Seq<Json>, letters: Seq<char>, start: int, e: Seq<(char, Vec<char>, Vec<char>)>) -> bool {
    forall|j: int| 0 <= j < letters.len() ==> (#[trigger] lookup(e, letters[j])) is Some && is_normal_key(keys[start + j])
}

/// Letter `j` sets the pair of key `start + j`; every other key stays.
pub open spec fn row_positioned(old: Seq<Json>, new: Seq<Json>, letters: Seq<char>, start: int,
    e: Seq<(char, Vec<char>, Vec<char>)>) -> bool {
    &&& new.len() == old.len()
    &&& forall|i: int| 0 <= i < old.len() ==> if start <= i < start + letters.len() {
        pair_applied(old[i], #[trigger] new[i], pair_for(e, letters[i - start]).0, pair_for(e, letters[i - start]).1)
    } else {
        new[i] == old[i]
    }
}

/// How many of the first `n` letters change the key they land on.
pub open spec fn changed_at(keys: Seq<Json>, letters: Seq<char>, start: int, e: Seq<(char, Vec<char>, Vec<char>)>, n: int) -> nat
    decreases n,
{
    if n <= 0 {
        0
    } else {
        changed_at(keys, letters, start, e, n - 1) + if needs_update(
            keys[start + n - 1],
            pair_for(e, letters[n - 1]).0,
            pair_for(e, letters[n - 1]).1,
        ) {
            1nat
        } else {
            0nat
        }
    }
}

/// Sets, for each letter `j`, the pair that the mapping holds for it on key `start + j`.
fn position_row(keys: &mut Vec<Json>, letters: &Vec<char>, start: usize, m: &LetterMapping) -> (r: Result<usize, PatchError>)
    requires
        start + letters@.len() <= old(keys)@.len(),
    ensures
        r is Ok <==> positions_ok(old(keys)@, letters@, start as int, m.entries@),
        r matches Ok(c) ==> row_positioned(old(keys)@, final(keys)@, letters@, start as int, m.entries@)
            && c == changed_at(old(keys)@, letters@, start as int, m.entries@, letters@.len() as int),
{
    let ghost k0 = keys@;
    let mut changed: usize = 0;
    let mut j: usize = 0;
    while j < letters.len()
        invariant
            k0 == old(keys)@,
            start + letters@.len() <= k0.len(),
            keys@.len() == k0.len(),
            j <= letters@.len(),
            changed <= j,
            forall|q: int| 0 <= q < j ==> (#[trigger] lookup(m.entries@, letters@[q])) is Some && is_normal_key(k0[start + q]),
            forall|i: int| 0 <= i < k0.len() ==> if start <= i < start + j {
                pair_applied(k0[i], #[trigger] keys@[i], pair_for(m.entries@, letters@[i - start]).0,
                    pair_for(m.entries@, letters@[i - start]).1)
            } else {
                keys@[i] == k0[i]
            },
            changed == changed_at(k0, letters@, start as int, m.entries@, j as int),
        decreases letters@.len() - j,
    {
        let (nd, ns) = match m.get(letters[j]) {
            Some(p) => p,
            None => return Err(PatchError::MissingLetter),
        };
        let kl = keys.len();
        assert(start + j < kl);
        let idx = start + j;
        assert(keys@[idx as int] == k0[idx as int]);
        let mut k = Json::Null;
        std::mem::swap(&mut k, &mut keys[idx]);
        let (nk, did) = match set_key_pair(k, nd, ns) {
            Ok(x) => x,
            Err(e) => {
                assert(!is_normal_key(k0[start + j]));
                assert(lookup(m.entries@, letters@[j as int]) is Some);
                return Err(e);
            },
        };
        let mut nk = nk;
        std::mem::swap(&mut nk, &mut keys[idx]);
        if did {
            changed += 1;
        }
        j += 1;
    }
    Ok(changed)
}

/// The number of letters of row `r` that the position policy sets, given the row's length.
pub open spec fn de_active(r: int, len: int) -> int {
    if r == 0 {
        if len >= 11 { 11 } else { 10 }
    } else if r == 1 {
        if len >= 11 { 11 } else { 9 }
    } else {
        7
    }
}

/// The fewest keys a document row must hold for the position policy.
pub open spec fn de_position_min(r: int) -> int {
    if r == 0 { 10 } else if r == 1 { 9 } else { 8 }
}

/// The letters of row `r` that the position policy sets.
pub open spec fn de_active_letters(v: Json, r: int) -> Seq<char> {
    de_letters(r).subrange(0, de_active(r, keys_of(v, r).len() as int))
}

/// A document on which the German position policy succeeds.
pub open spec fn de_position_ok(v: Json, e: Seq<(char, Vec<char>, Vec<char>)>) -> bool {
    &&& has_three_rows(v)
    &&& forall|r: int| 0 <= r < 3 ==> #[trigger] row_is_array(v, r)
    &&& forall|r: int| 0 <= r < 3 ==> keys_of(v, r).len() >= #[trigger] de_position_min(r)
    &&& forall|r: int| 0 <= r < 3 ==> positions_ok(keys_of(v, r), #[trigger] de_active_letters(v, r), de_start(r), e)
}

/// The effect of the German position policy on a document.
pub open spec fn de_positioned(old: Json, new: Json, e: Seq<(char, Vec<char>, Vec<char>)>) -> bool {
    let rows = rows_of(old)->Some_0;
    exists|nr: Seq<Json>| #![trigger rows_replaced(old, new, nr)]
        rows_replaced(old, new, nr) && nr.len() == rows.len()
        && (forall|r: int| 3 <= r < rows.len() ==> nr[r] == rows[r])
        && (forall|r: int| 0 <= r < 3 ==> #[trigger] nr[r] is Array
            && row_positioned(keys_of(old, r), nr[r]->Array_0@, de_active_letters(old, r), de_start(r), e))
}

pub open spec fn de_changed_in(v: Json, r: int, e: Seq<(char, Vec<char>, Vec<char>)>) -> nat {
    changed_at(keys_of(v, r), de_active_letters(v, r), de_start(r), e, de_active_letters(v, r).len() as int)
}

/// Applies the position policy to row `r` of a row array, in place.
fn position_row_at(rows: &mut Vec<Json>, r: usize, m: &LetterMapping) -> (res: Result<usize, PatchError>)
    requires
        r < 3,
        r < old(rows)@.len(),
        old(rows)@[r as int] is Array,
        old(rows)@[r as int]->Array_0@.len() >= de_position_min(r as int),
    ensures
        final(rows)@.len() == old(rows)@.len(),
        forall|j: int| 0 <= j < old(rows)@.len() && j != r ==> final(rows)@[j] == old(rows)@[j],
        ({
            let keys = old(rows)@[r as int]->Array_0@;
            let letters = de_letters(r as int).subrange(0, de_active(r as int, keys.len() as int));
            &&& res is Ok <==> positions_ok(keys, letters, de_start(r as int), m.entries@)
            &&& res matches Ok(c) ==> final(rows)@[r as int] is Array
                && row_positioned(keys, final(rows)@[r as int]->Array_0@, letters, de_start(r as int), m.entries@)
                && c == changed_at(keys, letters, de_start(r as int), m.entries@, letters.len() as int)
        }),
{
    let mut row = Json::Null;
    std::mem::swap(&mut row, &mut rows[r]);
    let mut keys = match row {
        Json::Array(k) => k,
        _ => return Err(PatchError::NotLayout),
    };
    let all = de_row_letters(r);
    let n: usize = if r == 0 {
        if keys.len() >= 11 { 11 } else { 10 }
    } else if r == 1 {
        if keys.len() >= 11 { 11 } else { 9 }
    } else {
        7
    };
    let mut letters: Vec<char> = Vec::new();
    let mut i: usize = 0;
    while i < n
        invariant
            all@ == de_letters(r as int),
            n <= all@.len(),
            i <= n,
            letters@ == all@.subrange(0, i as int),
        decreases n - i,
    {
        letters.push(all[i]);
        assert(letters@ =~= all@.subrange(0, i as int + 1));
        i += 1;
    }
    let start: usize = if r == 2 { 1 } else { 0 };
    let res = position_row(&mut keys, &letters, start, m);
    let mut nrow = Json::Array(keys);
    std::mem::swap(&mut nrow, &mut rows[r]);
    res
}

/// Sets the glyph pair of each German letter on the key at its fixed position.
pub fn apply_mapping_by_position_de_de(base: Json, m: &LetterMapping) -> (r: Result<(Json, usize, usize), PatchError>)
    ensures
        r is Ok <==> de_position_ok(base, m.entries@),
        r matches Ok((after, touched, changed)) ==> {
            &&& de_positioned(base, after, m.entries@)
            &&& touched == de_active_letters(base, 0).len() + de_active_letters(base, 1).len() + de_active_letters(base, 2).len()
            &&& changed == de_changed_in(base, 0, m.entries@) + de_changed_in(base, 1, m.entries@) + de_changed_in(base, 2, m.entries@)
        },
{
    let rows_ref = match get_rows(&base) {
        Some(a) => a,
        None => return Err(PatchError::NotLayout),
    };
    let ghost b0 = base;
    if rows_ref.len() < 3 {
        return Err(PatchError::NotLayout);
    }
    let mut q: usize = 0;
    while q < 3
        invariant
            b0 == base,
            rows_of(b0) == Some(rows_ref@),
            rows_ref@.len() >= 3,
            q <= 3,
            forall|p: int| 0 <= p < q ==> #[trigger] row_is_array(b0, p),
            forall|p: int| 0 <= p < q ==> keys_of(b0, p).len() >= #[trigger] de_position_min(p),
        decreases 3 - q,
    {
        match &rows_ref[q] {
            Json::Array(k) => {
                let min: usize = if q == 0 { 10 } else if q == 1 { 9 } else { 8 };
                if k.len() < min {
                    assert(keys_of(b0, q as int) == k@);
                    assert(!(keys_of(b0, q as int).len() >= de_position_min(q as int)));
                    return Err(PatchError::RowTooShort);
                }
            },
            _ => {
                assert(!row_is_array(b0, q as int));
                return Err(PatchError::NotLayout);
            },
        }
        q += 1;
    }
    let len0: usize = match &rows_ref[0] {
        Json::Array(k) => k.len(),
        _ => 0,
    };
    let len1: usize = match &rows_ref[1] {
        Json::Array(k) => k.len(),
        _ => 0,
    };
    let mut fields = match base {
        Json::Object(f) => f,
        _ => return Err(PatchError::NotLayout),
    };
    let p = match find_field(&fields, &alphabetic_name()) {
        Some(p) => p,
        None => return Err(PatchError::NotLayout),
    };
    let mut entry: (Vec<char>, Json) = (Vec::new(), Json::Null);
    std::mem::swap(&mut entry, &mut fields[p]);
    let (name, val) = entry;
    let mut rows = match val {
        Json::Array(rows) => rows,
        _ => return Err(PatchError::NotLayout),
    };
    let ghost rows0 = rows@;
    assert(row_is_array(b0, 0) && row_is_array(b0, 1) && row_is_array(b0, 2));
    assert(de_position_min(0) <= keys_of(b0, 0).len() && de_position_min(1) <= keys_of(b0, 1).len()
        && de_position_min(2) <= keys_of(b0, 2).len());
    let c0 = match position_row_at(&mut rows, 0, m) {
        Ok(c) => c,
        Err(e) => {
            assert(!positions_ok(keys_of(b0, 0), de_active_letters(b0, 0), de_start(0), m.entries@));
            return Err(e);
        },
    };
    let c1 = match position_row_at(&mut rows, 1, m) {
        Ok(c) => c,
        Err(e) => {
            assert(!positions_ok(keys_of(b0, 1), de_active_letters(b0, 1), de_start(1), m.entries@));
            return Err(e);
        },
    };
    let c2 = match position_row_at(&mut rows, 2, m) {
        Ok(c) => c,
        Err(e) => {
            assert(!positions_ok(keys_of(b0, 2), de_active_letters(b0, 2), de_start(2), m.entries@));
            return Err(e);
        },
    };
    proof {
        lemma_changed_at_bound(keys_of(b0, 0), de_active_letters(b0, 0), de_start(0), m.entries@, de_active_letters(b0, 0).len() as int);
        lemma_changed_at_bound(keys_of(b0, 1), de_active_letters(b0, 1), de_start(1), m.entries@, de_active_letters(b0, 1).len() as int);
        lemma_changed_at_bound(keys_of(b0, 2), de_active_letters(b0, 2), de_start(2), m.entries@, de_active_letters(b0, 2).len() as int);
    }
    let ghost nr = rows@;
    let touched: usize = (if len0 >= 11 { 11 } else { 10 }) + (if len1 >= 11 { 11 } else { 9 }) + 7;
    let mut back = (name, Json::Array(rows));
    std::mem::swap(&mut back, &mut fields[p]);
    let after = Json::Object(fields);
    assert(rows_replaced(b0, after, nr));
    Ok((after, touched, c0 + c1 + c2))
}

proof fn lemma_changed_at_bound(keys: Seq<Json>, letters: Seq<char>, start: int, e: Seq<(char, Vec<char>, Vec<char>)>, n: int)
    ensures
        changed_at(keys, letters, start, e, n) <= if n < 0 { 0 } else { n },
    decreases n,
{
    if n > 0 {
        lemma_changed_at_bound(keys, letters, start, e, n - 1);
    }
}

} // verus!

verus! {

/// Applies the position policy of a locale.
pub fn apply_mapping_by_position(locale: &[char], base: Json, m: &LetterMapping) -> (r: Result<(Json, usize, usize), PatchError>)
    ensures
        !is_de_de(locale@) ==> r == Err::<(Json, usize, usize), PatchError>(PatchError::UnsupportedLocale),
        is_de_de(locale@) ==> (r is Ok <==> de_position_ok(base, m.entries@)),
        r matches Ok((after, touched, changed)) ==> {
            &&& de_positioned(base, after, m.entries@)
            &&& touched == de_active_letters(base, 0).len() + de_active_letters(base, 1).len() + de_active_letters(base, 2).len()
            &&& changed == de_changed_in(base, 0, m.entries@) + de_changed_in(base, 1, m.entries@) + de_changed_in(base, 2, m.entries@)
        },
{
    if locale_is_de_de(locale) {
        apply_mapping_by_position_de_de(base, m)
    } else {
        Err(PatchError::UnsupportedLocale)
    }
}

/// The modified document: the base-letter policy, then, where that touched no key and
/// the caller allows it, the position policy of the locale on top.
pub fn compute_after(before: Json, mapping: &LetterMapping, locale: &[char], allow_position_fallback: bool)
    -> (r: Result<(Json, usize, usize), PatchError>)
    requires
        has_three_rows(before) ==> key_total(before) <= usize::MAX,
    ensures
        !has_three_rows(before) ==> r == Err::<(Json, usize, usize), PatchError>(PatchError::NotLayout),
        has_three_rows(before) && (doc_touched(before, mapping.entries@) > 0 || !allow_position_fallback) ==> {
            &&& r is Ok
            &&& r matches Ok((after, touched, changed)) ==> doc_mapped(before, after, mapping.entries@)
                && touched == doc_touched(before, mapping.entries@)
                && changed == doc_changed(before, mapping.entries@)
        },
        has_three_rows(before) && doc_touched(before, mapping.entries@) == 0 && allow_position_fallback ==> {
            exists|mid: Json| #![trigger doc_mapped(before, mid, mapping.entries@)]
            {
                &&& doc_mapped(before, mid, mapping.entries@)
                &&& !is_de_de(locale@) ==> r == Err::<(Json, usize, usize), PatchError>(PatchError::UnsupportedLocale)
                &&& is_de_de(locale@) ==> (r is Ok <==> de_position_ok(mid, mapping.entries@))
                &&& r matches Ok((after, touched, changed)) ==> {
                    &&& de_positioned(mid, after, mapping.entries@)
                    &&& touched == de_active_letters(mid, 0).len() + de_active_letters(mid, 1).len() + de_active_letters(mid, 2).len()
                    &&& changed == de_changed_in(mid, 0, mapping.entries@) + de_changed_in(mid, 1, mapping.entries@)
                        + de_changed_in(mid, 2, mapping.entries@)
                }
            }
        },
{
    let (after, touched, changed) = apply_mapping_by_base_letter(before, mapping)?;
    if touched == 0 && allow_position_fallback {
        let ghost mid = after;
        let res = apply_mapping_by_position(locale, after, mapping);
        assert(doc_mapped(before, mid, mapping.entries@));
        return res;
    }
    Ok((after, touched, changed))
}

} // verus!

verus! {

/// What a run does once the mapping has been applied.
#[derive(Debug, Clone, Copy, PartialEq, Eq, Structural)]
pub enum MappingOutcome {
    /// The document already carries the mapping: record it and write nothing.
    NoChange,
    /// The document changed: recompress and patch it in.
    Write,
}

/// Decides from the counts of a mapping run; `require_touch` makes a run that touched no
/// key an error.
pub fn mapping_outcome(touched: usize, changed: usize, require_touch: bool) -> (r: Result<MappingOutcome, PatchError>)
    ensures
        require_touch && touched == 0 ==> r == Err::<MappingOutcome, PatchError>(PatchError::NothingTouched),
        !(require_touch && touched == 0) && changed == 0 ==> r == Ok::<MappingOutcome, PatchError>(MappingOutcome::NoChange),
        !(require_touch && touched == 0) && changed > 0 ==> r == Ok::<MappingOutcome, PatchError>(MappingOutcome::Write),
{
    if require_touch && touched == 0 {
        return Err(PatchError::NothingTouched);
    }
    if changed == 0 {
        Ok(MappingOutcome::NoChange)
    } else {
        Ok(MappingOutcome::Write)
    }
}

} // verus!

verus! {

proof fn lemma_first_exists(f: Seq<(Vec<char>, Json)>, n: Seq<char>, i: int)
    requires
        0 <= i < f.len(),
        f[i].0@ == n,
    ensures
        exists|k: int| is_first(f, n, k),
    decreases i,
{
    if exists|j: int| 0 <= j < i && f[j].0@ == n {
        let j = choose|j: int| 0 <= j < i && f[j].0@ == n;
        lemma_first_exists(f, n, j);
    } else {
        assert(is_first(f, n, i));
    }
}

/// After setting field `name`, looking it up gives the value set.
proof fn lemma_field_set_get(old: Seq<(Vec<char>, Json)>, new: Seq<(Vec<char>, Json)>, name: Seq<char>, value: Json)
    requires
        field_set(old, new, name, value),
    ensures
        field_of(new, name) == Some(value),
{
    if has_field(old, name) {
        let i = choose|i: int| 0 <= i < old.len() && old[i].0@ == name;
        lemma_first_exists(old, name, i);
        let p = field_pos(old, name);
        assert(is_first(old, name, p));
        assert(is_first(new, name, p));
        crate::json::lemma_first_is_pos(new, name, p);
    } else {
        assert(is_first(new, name, old.len() as int));
        crate::json::lemma_first_is_pos(new, name, old.len() as int);
    }
}

/// Setting field `name` leaves every other field's lookup as it was.
proof fn lemma_field_set_other(old: Seq<(Vec<char>, Json)>, new: Seq<(Vec<char>, Json)>, name: Seq<char>, value: Json,
    other: Seq<char>)
    requires
        field_set(old, new, name, value),
        other != name,
    ensures
        field_of(new, other) == field_of(old, other),
{
    if has_field(old, name) {
        let i = choose|i: int| 0 <= i < old.len() && old[i].0@ == name;
        lemma_first_exists(old, name, i);
        assert(is_first(old, name, field_pos(old, name)));
    }
    if has_field(old, other) {
        let i = choose|i: int| 0 <= i < old.len() && old[i].0@ == other;
        lemma_first_exists(old, other, i);
        let k = field_pos(old, other);
        assert(is_first(old, other, k));
        crate::json::lemma_first_is_pos(old, other, k);
        assert(is_first(new, other, k));
        crate::json::lemma_first_is_pos(new, other, k);
    } else {
        assert forall|j: int| 0 <= j < new.len() implies new[j].0@ != other by {
            if j < old.len() && !(has_field(old, name) && j == field_pos(old, name)) {
                assert(new[j] == old[j]);
            }
        }
    }
}

/// A key that the mapping has an entry for ends up with `default == [d]` and
/// `shifted == [s]` for that entry's pair, and every other field of it stays as it was.
pub proof fn lemma_mapped_key_carries_pair(old: Json, new: Json, e: Seq<(char, Vec<char>, Vec<char>)>,
    d: Seq<char>, s: Seq<char>, other: Seq<char>)
    requires
        key_mapped(old, new, e),
        hit(old, e) == Some((d, s)),
        other != name_default(),
        other != name_shifted(),
    ensures
        new is Object,
        get(new, name_default()) matches Some(v) && single_str(v, d),
        get(new, name_shifted()) matches Some(v) && single_str(v, s),
        get(new, other) == get(old, other),
{
    assert(name_default()[0] != name_shifted()[0]);
    if needs_update(old, d, s) {
        let (mid, vd, vs) = choose|mid: Seq<(Vec<char>, Json)>, vd: Json, vs: Json|
            field_set(old->Object_0@, mid, name_default(), vd) && single_str(vd, d)
            && field_set(mid, new->Object_0@, name_shifted(), vs) && single_str(vs, s);
        lemma_field_set_get(old->Object_0@, mid, name_default(), vd);
        lemma_field_set_other(mid, new->Object_0@, name_shifted(), vs, name_default());
        lemma_field_set_get(mid, new->Object_0@, name_shifted(), vs);
        lemma_field_set_other(old->Object_0@, mid, name_default(), vd, other);
        lemma_field_set_other(mid, new->Object_0@, name_shifted(), vs, other);
    }
}

/// A key that the mapping has no entry for is left exactly as it was.
pub proof fn lemma_unmapped_key_kept(old: Json, new: Json, e: Seq<(char, Vec<char>, Vec<char>)>)
    requires
        key_mapped(old, new, e),
        hit(old, e) is None,
    ensures
        new == old,
{
}

} // verus!
