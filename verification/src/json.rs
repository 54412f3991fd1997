//! A JSON document as the library reads it: objects keep their members in
//! order, numbers keep their integer value when they have one.
use vstd::prelude::*;

verus! {

/// A JSON value. `Int` holds every integer that fits an `i64`, `UInt` the
/// larger non-negative ones, and `Float` any other number (whose value the
/// library never reads).
#[derive(Debug)]
pub enum Json {
    Null,
    Bool(bool),
    Int(i64),
    UInt(u64),
    Float,
    Str(String),
    Array(Vec<Json>),
    Object(Vec<(String, Json)>),
}

/// The value of the first member of `m` named `key`.
pub open spec fn lookup(m: Seq<(String, Json)>, key: Seq<char>) -> Option<Json>
    decreases m.len(),
{
    if m.len() == 0 {
        None
    } else if m[0].0@ == key {
        Some(m[0].1)
    } else {
        lookup(m.drop_first(), key)
    }
}

/// The member `key` of `j`, when `j` is an object that has one.
pub open spec fn at(j: Option<Json>, key: Seq<char>) -> Option<Json> {
    match j {
        Some(Json::Object(m)) => lookup(m@, key),
        _ => None,
    }
}

/// `at` along a path of member names.
pub open spec fn at_path(j: Option<Json>, path: Seq<Seq<char>>) -> Option<Json>
    decreases path.len(),
{
    if path.len() == 0 {
        j
    } else {
        at_path(at(j, path[0]), path.drop_first())
    }
}

pub open spec fn str_of(j: Option<Json>) -> Option<Seq<char>> {
    match j {
        Some(Json::Str(s)) => Some(s@),
        _ => None,
    }
}

pub open spec fn i64_of(j: Option<Json>) -> Option<i64> {
    match j {
        Some(Json::Int(n)) => Some(n),
        _ => None,
    }
}

pub open spec fn u64_of(j: Option<Json>) -> Option<u64> {
    match j {
        Some(Json::Int(n)) => if n >= 0 { Some(n as u64) } else { None },
        Some(Json::UInt(n)) => Some(n),
        _ => None,
    }
}

pub open spec fn bool_of(j: Option<Json>) -> Option<bool> {
    match j {
        Some(Json::Bool(b)) => Some(b),
        _ => None,
    }
}

pub open spec fn array_of(j: Option<Json>) -> Option<Seq<Json>> {
    match j {
        Some(Json::Array(a)) => Some(a@),
        _ => None,
    }
}

pub open spec fn object_len(j: Option<Json>) -> Option<nat> {
    match j {
        Some(Json::Object(m)) => Some(m@.len()),
        _ => None,
    }
}

/// `r` refers to the value `spec`, or both are absent.
pub open spec fn same_opt(r: Option<&Json>, spec: Option<Json>) -> bool {
    match r {
        Some(x) => spec == Some(*x),
        None => spec is None,
    }
}

/// `str_of(j)`, or `default` when absent.
pub open spec fn str_or(j: Option<Json>, default: Seq<char>) -> Seq<char> {
    match str_of(j) {
        Some(s) => s,
        None => default,
    }
}

/// Looks `key` up in the member list `m`.
pub fn lookup_exec<'a>(m: &'a Vec<(String, Json)>, key: &str) -> (r: Option<&'a Json>)
    ensures
        same_opt(r, lookup(m@, key@)),
{
    let k = String::from_str(key);
    let mut i: usize = 0;
    assert(m@.subrange(0, m@.len() as int) =~= m@);
    while i < m.len()
        invariant
            k@ == key@,
            i <= m@.len(),
            lookup(m@, key@) == lookup(m@.subrange(i as int, m@.len() as int), key@),
        decreases m@.len() - i,
    {
        let ghost rest = m@.subrange(i as int, m@.len() as int);
        assert(rest.drop_first() =~= m@.subrange(i + 1, m@.len() as int));
        if m[i].0 == k {
            return Some(&m[i].1);
        }
        i = i + 1;
    }
    None
}

/// Member `key` of `j`, if `j` is an object with such a member.
pub fn get<'a>(j: Option<&'a Json>, key: &str) -> (r: Option<&'a Json>)
    ensures
        same_opt(r, at(
            match j {
                Some(x) => Some(*x),
                None => None,
            },
            key@,
        )),
{
    match j {
        Some(Json::Object(m)) => lookup_exec(m, key),
        _ => None,
    }
}

/// The spec value of an optional reference.
pub open spec fn deref_opt(j: Option<&Json>) -> Option<Json> {
    match j {
        Some(x) => Some(*x),
        None => None,
    }
}

/// The string held by `j`.
pub fn as_str<'a>(j: Option<&'a Json>) -> (r: Option<&'a String>)
    ensures
        match r {
            Some(s) => str_of(deref_opt(j)) == Some(s@),
            None => str_of(deref_opt(j)) is None,
        },
{
    match j {
        Some(Json::Str(s)) => Some(s),
        _ => None,
    }
}

/// The string held by `j`, copied, or `default`.
pub fn str_or_default(j: Option<&Json>, default: &str) -> (r: String)
    ensures
        r@ == str_or(deref_opt(j), default@),
{
    match j {
        Some(Json::Str(s)) => s.clone(),
        _ => String::from_str(default),
    }
}

/// The string held by `j`, copied.
pub fn opt_string(j: Option<&Json>) -> (r: Option<String>)
    ensures
        match r {
            Some(s) => str_of(deref_opt(j)) == Some(s@),
            None => str_of(deref_opt(j)) is None,
        },
{
    match j {
        Some(Json::Str(s)) => Some(s.clone()),
        _ => None,
    }
}

pub fn as_i64(j: Option<&Json>) -> (r: Option<i64>)
    ensures
        r == i64_of(deref_opt(j)),
{
    match j {
        Some(Json::Int(n)) => Some(*n),
        _ => None,
    }
}

pub fn as_u64(j: Option<&Json>) -> (r: Option<u64>)
    ensures
        r == u64_of(deref_opt(j)),
{
    match j {
        Some(Json::Int(n)) => if *n >= 0 { Some(*n as u64) } else { None },
        Some(Json::UInt(n)) => Some(*n),
        _ => None,
    }
}

pub fn as_bool(j: Option<&Json>) -> (r: Option<bool>)
    ensures
        r == bool_of(deref_opt(j)),
{
    match j {
        Some(Json::Bool(b)) => Some(*b),
        _ => None,
    }
}

pub fn as_array<'a>(j: Option<&'a Json>) -> (r: Option<&'a Vec<Json>>)
    ensures
        match r {
            Some(a) => array_of(deref_opt(j)) == Some(a@),
            None => array_of(deref_opt(j)) is None,
        },
{
    match j {
        Some(Json::Array(a)) => Some(a),
        _ => None,
    }
}

pub fn object_size(j: Option<&Json>) -> (r: Option<usize>)
    ensures
        match r {
            Some(n) => object_len(deref_opt(j)) == Some(n as nat),
            None => object_len(deref_opt(j)) is None,
        },
{
    match j {
        Some(Json::Object(m)) => Some(m.len()),
        _ => None,
    }
}

} // verus!
