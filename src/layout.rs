//! The layout document: rows of keys, key glyphs, row signatures and shape checks.

use vstd::prelude::*;
use crate::PatchError;
use crate::json::{
    Json, name_special, name_default, name_shifted, name_alphabetic, first_str, get, has_field,
    find_field, get0_str_val, get_field, special_name, default_name, shifted_name, alphabetic_name,
};

verus! {

/// Whether a key is an object without a `special` field.
pub open spec fn is_normal_key(k: Json) -> bool {
    k is Object && !has_field(k->Object_0@, name_special())
}

/// The text of a key's `default[0]`.
pub open spec fn default0(k: Json) -> Option<Seq<char>> {
    first_str(get(k, name_default()))
}

/// The text of a key's `shifted[0]`.
pub open spec fn shifted0(k: Json) -> Option<Seq<char>> {
    first_str(get(k, name_shifted()))
}

/// The single-character default glyph of a normal key.
pub open spec fn glyph(k: Json) -> Option<char> {
    if is_normal_key(k) && default0(k) is Some && default0(k)->Some_0.len() == 1 {
        Some(default0(k)->Some_0[0])
    } else {
        None
    }
}

pub open spec fn glyph_seq(k: Json) -> Seq<char> {
    match glyph(k) {
        Some(c) => seq![c],
        None => Seq::empty(),
    }
}

/// The signature of a row: the single-character default glyphs of its normal keys, in order.
pub open spec fn row_sig(row: Seq<Json>) -> Seq<char>
    decreases row.len(),
{
    if row.len() == 0 {
        Seq::empty()
    } else {
        row_sig(row.drop_last()) + glyph_seq(row.last())
    }
}

/// The rows of a document: its `alphabetic` array.
pub open spec fn rows_of(v: Json) -> Option<Seq<Json>> {
    match get(v, name_alphabetic()) {
        Some(Json::Array(a)) => Some(a@),
        _ => None,
    }
}

/// The keys of row `i`, where the row is an array.
pub open spec fn row_keys(rows: Seq<Json>, i: int) -> Option<Seq<Json>> {
    match rows[i] {
        Json::Array(a) => Some(a@),
        _ => None,
    }
}

/// The signatures of the first three rows, where the document has them as arrays.
pub open spec fn sig_rows(v: Json) -> Option<(Seq<char>, Seq<char>, Seq<char>)> {
    match rows_of(v) {
        Some(rows) => if rows.len() >= 3 && row_keys(rows, 0) is Some && row_keys(rows, 1) is Some
            && row_keys(rows, 2) is Some {
            Some((
                row_sig(row_keys(rows, 0)->Some_0),
                row_sig(row_keys(rows, 1)->Some_0),
                row_sig(row_keys(rows, 2)->Some_0),
            ))
        } else {
            None
        },
        None => None,
    }
}

/// The glyph pair that an override key supplies: `default[0]`, and `shifted[0]`
/// or else `default[0]` when `shifted` has no text, each exactly one character.
pub open spec fn key_pair(k: Json) -> Option<(Seq<char>, Seq<char>)> {
    if is_normal_key(k) && default0(k) is Some {
        let d = default0(k)->Some_0;
        let s = match shifted0(k) {
            Some(t) => t,
            None => d,
        };
        if d.len() == 1 && s.len() == 1 {
            Some((d, s))
        } else {
            None
        }
    } else {
        None
    }
}

/// A copy of a character sequence.
pub fn copy_chars(s: &Vec<char>) -> (r: Vec<char>)
    ensures
        r@ == s@,
{
    let r = s.clone();
    assert(r@ =~= s@);
    r
}

/// The glyph of one key, as the signature counts it.
pub fn key_glyph(k: &Json) -> (r: Option<char>)
    ensures
        r == glyph(*k),
{
    match k {
        Json::Object(f) => {
            if find_field(f, &special_name()).is_some() {
                return None;
            }
            match get0_str_val(f, &default_name()) {
                Some(s) => if s.len() == 1 {
                    Some(s[0])
                } else {
                    None
                },
                None => None,
            }
        },
        _ => None,
    }
}

/// The signature of one row.
pub fn full_sig_row(arr: &Vec<Json>) -> (r: Vec<char>)
    ensures
        r@ == row_sig(arr@),
{
    let mut s: Vec<char> = Vec::new();
    let mut i: usize = 0;
    while i < arr.len()
        invariant
            i <= arr@.len(),
            s@ == row_sig(arr@.subrange(0, i as int)),
        decreases arr@.len() - i,
    {
        let g = key_glyph(&arr[i]);
        proof {
            let next = arr@.subrange(0, i as int + 1);
            assert(next.drop_last() =~= arr@.subrange(0, i as int));
            assert(next.last() == arr@[i as int]);
        }
        match g {
            Some(c) => {
                s.push(c);
            },
            None => {},
        }
        proof {
            let next = arr@.subrange(0, i as int + 1);
            assert(s@ =~= row_sig(next));
        }
        i += 1;
    }
    assert(arr@.subrange(0, arr@.len() as int) =~= arr@);
    s
}

/// The `alphabetic` rows of a document, where it has them as an array.
pub fn get_rows(v: &Json) -> (r: Option<&Vec<Json>>)
    ensures
        r matches Some(a) ==> rows_of(*v) == Some(a@),
        r is None ==> rows_of(*v) is None,
{
    match get_field(v, &alphabetic_name()) {
        Some(Json::Array(a)) => Some(a),
        _ => None,
    }
}

/// The signatures of the first three rows.
pub fn full_signature_rows(v: &Json) -> (r: Option<(Vec<char>, Vec<char>, Vec<char>)>)
    ensures
        r matches Some((a, b, c)) ==> sig_rows(*v) == Some((a@, b@, c@)),
        r is None ==> sig_rows(*v) is None,
{
    let rows = match get_rows(v) {
        Some(a) => a,
        None => return None,
    };
    if rows.len() < 3 {
        return None;
    }
    let r0 = match &rows[0] {
        Json::Array(a) => full_sig_row(a),
        _ => return None,
    };
    let r1 = match &rows[1] {
        Json::Array(a) => full_sig_row(a),
        _ => return None,
    };
    let r2 = match &rows[2] {
        Json::Array(a) => full_sig_row(a),
        _ => return None,
    };
    Some((r0, r1, r2))
}

/// The signature of a whole document: the three row signatures joined by `|`,
/// or `unknown` where the document has no three rows.
pub open spec fn signature_text(v: Json) -> Seq<char> {
    match sig_rows(v) {
        Some((a, b, c)) => a + seq!['|'] + b + seq!['|'] + c,
        None => seq!['u', 'n', 'k', 'n', 'o', 'w', 'n'],
    }
}

pub fn signature_string(v: &Json) -> (r: Vec<char>)
    ensures
        r@ == signature_text(*v),
{
    match full_signature_rows(v) {
        Some((a, b, c)) => join_signature(&a, &b, &c),
        None => {
            let r = vec!['u', 'n', 'k', 'n', 'o', 'w', 'n'];
            assert(r@ =~= signature_text(*v));
            r
        },
    }
}

/// Three row signatures joined by `|`.
pub fn join_signature(a: &Vec<char>, b: &Vec<char>, c: &Vec<char>) -> (r: Vec<char>)
    ensures
        r@ == a@ + seq!['|'] + b@ + seq!['|'] + c@,
{
    let mut r = copy_chars(a);
    r.push('|');
    let mut t = copy_chars(b);
    r.append(&mut t);
    r.push('|');
    let mut u = copy_chars(c);
    r.append(&mut u);
    assert(r@ =~= a@ + seq!['|'] + b@ + seq!['|'] + c@);
    r
}

/// Accepts a document whose `alphabetic` field is an array of at least three rows.
pub fn validate_layout(v: &Json) -> (r: Result<(), PatchError>)
    ensures
        r is Ok <==> (rows_of(*v) is Some && rows_of(*v)->Some_0.len() >= 3),
        r is Err ==> r == Err::<(), PatchError>(PatchError::NotLayout),
{
    match get_rows(v) {
        Some(a) => if a.len() >= 3 {
            Ok(())
        } else {
            Err(PatchError::NotLayout)
        },
        None => Err(PatchError::NotLayout),
    }
}

/// Accepts an override whose `alphabetic` field is an array of exactly three rows.
pub fn validate_override(v: &Json) -> (r: Result<(), PatchError>)
    ensures
        r is Ok <==> (rows_of(*v) is Some && rows_of(*v)->Some_0.len() == 3),
        r is Err ==> r == Err::<(), PatchError>(PatchError::NotLayout),
{
    match get_rows(v) {
        Some(a) => if a.len() == 3 {
            Ok(())
        } else {
            Err(PatchError::NotLayout)
        },
        None => Err(PatchError::NotLayout),
    }
}

/// Accepts text of exactly one character.
pub fn ensure_one_char(s: &[char]) -> (r: Result<(), PatchError>)
    ensures
        r is Ok <==> s@.len() == 1,
        r is Err ==> r == Err::<(), PatchError>(PatchError::NotOneChar),
{
    if s.len() != 1 {
        return Err(PatchError::NotOneChar);
    }
    Ok(())
}

/// The `(default, shifted)` glyph pair of an override key.
pub fn key_pair_from_val(v: &Json) -> (r: Result<(Vec<char>, Vec<char>), PatchError>)
    ensures
        r matches Ok((d, s)) ==> key_pair(*v) == Some((d@, s@)),
        r is Err <==> key_pair(*v) is None,
{
    let f = match v {
        Json::Object(f) => f,
        _ => return Err(PatchError::KeyNotObject),
    };
    if find_field(f, &special_name()).is_some() {
        return Err(PatchError::SpecialKey);
    }
    let def0 = match get0_str_val(f, &default_name()) {
        Some(d) => d,
        None => return Err(PatchError::MissingDefault),
    };
    let sh0 = match get0_str_val(f, &shifted_name()) {
        Some(s) => s,
        None => def0,
    };
    ensure_one_char(def0.as_slice())?;
    ensure_one_char(sh0.as_slice())?;
    Ok((copy_chars(def0), copy_chars(sh0)))
}

} // verus!
