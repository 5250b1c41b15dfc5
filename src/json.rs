//! A JSON value held as plain data, with the field lookups that the layout logic uses.
//! Text is held as sequences of Unicode scalar values.

use vstd::prelude::*;

verus! {

/// A JSON value. Numbers keep their textual form; object fields keep their order.
#[derive(Debug, PartialEq, Eq)]
pub enum Json {
    Null,
    Bool(bool),
    Number(Vec<char>),
    Str(Vec<char>),
    Array(Vec<Json>),
    Object(Vec<(Vec<char>, Json)>),
}

pub open spec fn name_alphabetic() -> Seq<char> {
    seq!['a', 'l', 'p', 'h', 'a', 'b', 'e', 't', 'i', 'c']
}

pub open spec fn name_special() -> Seq<char> {
    seq!['s', 'p', 'e', 'c', 'i', 'a', 'l']
}

pub open spec fn name_default() -> Seq<char> {
    seq!['d', 'e', 'f', 'a', 'u', 'l', 't']
}

pub open spec fn name_shifted() -> Seq<char> {
    seq!['s', 'h', 'i', 'f', 't', 'e', 'd']
}

pub fn alphabetic_name() -> (r: Vec<char>)
    ensures
        r@ == name_alphabetic(),
{
    let r = vec!['a', 'l', 'p', 'h', 'a', 'b', 'e', 't', 'i', 'c'];
    assert(r@ =~= name_alphabetic());
    r
}

pub fn special_name() -> (r: Vec<char>)
    ensures
        r@ == name_special(),
{
    let r = vec!['s', 'p', 'e', 'c', 'i', 'a', 'l'];
    assert(r@ =~= name_special());
    r
}

pub fn default_name() -> (r: Vec<char>)
    ensures
        r@ == name_default(),
{
    let r = vec!['d', 'e', 'f', 'a', 'u', 'l', 't'];
    assert(r@ =~= name_default());
    r
}

pub fn shifted_name() -> (r: Vec<char>)
    ensures
        r@ == name_shifted(),
{
    let r = vec!['s', 'h', 'i', 'f', 't', 'e', 'd'];
    assert(r@ =~= name_shifted());
    r
}

/// Whether two character sequences are equal.
pub fn chars_eq(a: &[char], b: &[char]) -> (r: bool)
    ensures
        r == (a@ == b@),
{
    if a.len() != b.len() {
        return false;
    }
    let mut i: usize = 0;
    while i < a.len()
        invariant
            a@.len() == b@.len(),
            i <= a@.len(),
            forall|j: int| 0 <= j < i ==> a@[j] == b@[j],
        decreases a@.len() - i,
    {
        if a[i] != b[i] {
            return false;
        }
        i += 1;
    }
    assert(a@ =~= b@);
    true
}

/// `i` is the first position of a field called `name`.
pub open spec fn is_first(fields: Seq<(Vec<char>, Json)>, name: Seq<char>, i: int) -> bool {
    &&& 0 <= i < fields.len()
    &&& fields[i].0@ == name
    &&& forall|j: int| 0 <= j < i ==> fields[j].0@ != name
}

/// Some field is called `name`.
pub open spec fn has_field(fields: Seq<(Vec<char>, Json)>, name: Seq<char>) -> bool {
    exists|i: int| 0 <= i < fields.len() && fields[i].0@ == name
}

/// The first position of a field called `name`, where there is one.
pub open spec fn field_pos(fields: Seq<(Vec<char>, Json)>, name: Seq<char>) -> int {
    choose|i: int| is_first(fields, name, i)
}

/// The value of the first field called `name`.
pub open spec fn field_of(fields: Seq<(Vec<char>, Json)>, name: Seq<char>) -> Option<Json> {
    if has_field(fields, name) {
        Some(fields[field_pos(fields, name)].1)
    } else {
        None
    }
}

/// Looking a field up in a value: only objects have fields.
pub open spec fn get(v: Json, name: Seq<char>) -> Option<Json> {
    match v {
        Json::Object(f) => field_of(f@, name),
        _ => None,
    }
}

/// The text of the first element of an array value whose first element is a string.
pub open spec fn first_str(v: Option<Json>) -> Option<Seq<char>> {
    match v {
        Some(Json::Array(a)) => if a@.len() > 0 {
            match a@[0] {
                Json::Str(s) => Some(s@),
                _ => None,
            }
        } else {
            None
        },
        _ => None,
    }
}

/// The length of an array value, 0 for anything else.
pub open spec fn array_len(v: Option<Json>) -> int {
    match v {
        Some(Json::Array(a)) => a@.len() as int,
        _ => 0,
    }
}

pub proof fn lemma_first_is_pos(fields: Seq<(Vec<char>, Json)>, name: Seq<char>, i: int)
    requires
        is_first(fields, name, i),
    ensures
        has_field(fields, name),
        field_pos(fields, name) == i,
        field_of(fields, name) == Some(fields[i].1),
{
    let k = field_pos(fields, name);
    assert(is_first(fields, name, k));
    if k < i {
        assert(fields[k].0@ != name);
    } else if i < k {
        assert(fields[i].0@ != name);
    }
}

/// Finds the first field called `name`.
pub fn find_field(fields: &Vec<(Vec<char>, Json)>, name: &Vec<char>) -> (r: Option<usize>)
    ensures
        r matches Some(i) ==> is_first(fields@, name@, i as int) && field_of(fields@, name@) == Some(fields@[i as int].1),
        r is None ==> !has_field(fields@, name@) && field_of(fields@, name@) is None,
{
    let mut i: usize = 0;
    while i < fields.len()
        invariant
            i <= fields@.len(),
            forall|j: int| 0 <= j < i ==> fields@[j].0@ != name@,
        decreases fields@.len() - i,
    {
        if chars_eq(fields[i].0.as_slice(), name.as_slice()) {
            proof {
                lemma_first_is_pos(fields@, name@, i as int);
            }
            return Some(i);
        }
        i += 1;
    }
    None
}

/// The value of the field called `name` of an object.
pub fn get_field<'a>(v: &'a Json, name: &Vec<char>) -> (r: Option<&'a Json>)
    ensures
        r matches Some(x) ==> get(*v, name@) == Some(*x),
        r is None ==> get(*v, name@) is None,
{
    match v {
        Json::Object(f) => match find_field(f, name) {
            Some(i) => Some(&f[i].1),
            None => None,
        },
        _ => None,
    }
}

/// The text of the first element of the array-valued field `name`.
pub fn get0_str_val<'a>(fields: &'a Vec<(Vec<char>, Json)>, name: &Vec<char>) -> (r: Option<&'a Vec<char>>)
    ensures
        r matches Some(s) ==> first_str(field_of(fields@, name@)) == Some(s@),
        r is None ==> first_str(field_of(fields@, name@)) is None,
{
    match find_field(fields, name) {
        Some(i) => match &fields[i].1 {
            Json::Array(a) => {
                if a.len() > 0 {
                    match &a[0] {
                        Json::Str(s) => Some(s),
                        _ => None,
                    }
                } else {
                    None
                }
            },
            _ => None,
        },
        None => None,
    }
}

/// The length of the array-valued field `name`, 0 when absent or not an array.
pub fn field_array_len(fields: &Vec<(Vec<char>, Json)>, name: &Vec<char>) -> (r: usize)
    ensures
        r as int == array_len(field_of(fields@, name@)),
{
    match find_field(fields, name) {
        Some(i) => match &fields[i].1 {
            Json::Array(a) => a.len(),
            _ => 0,
        },
        None => 0,
    }
}

} // verus!
