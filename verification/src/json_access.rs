//! Reading fields of JSON documents, as `Value::get` and the `as_*` accessors do.
use vstd::prelude::*;
use crate::json::{entries_view, find_member, items_view, lemma_array_view, lemma_object_view, lookup, Json, JsonV};
use crate::text::chars_of;

verus! {

/// The member `k` of an object; `None` for a missing member or a value that is
/// not an object.
pub open spec fn jget(v: JsonV, k: Seq<char>) -> Option<JsonV> {
    match v {
        JsonV::Object(e) => lookup(e, k),
        _ => None,
    }
}

/// The member `k` of a value, where there is a value.
pub open spec fn jget_in(o: Option<JsonV>, k: Seq<char>) -> Option<JsonV> {
    match o {
        Some(v) => jget(v, k),
        None => None,
    }
}

/// The text of a string value.
pub open spec fn jstr(o: Option<JsonV>) -> Option<Seq<char>> {
    match o {
        Some(JsonV::Str(s)) => Some(s),
        _ => None,
    }
}

/// A number that fits in `u64`.
pub open spec fn ju64(o: Option<JsonV>) -> Option<u64> {
    match o {
        Some(JsonV::PosInt(n)) => Some(n),
        _ => None,
    }
}

/// A boolean value.
pub open spec fn jbool(o: Option<JsonV>) -> Option<bool> {
    match o {
        Some(JsonV::Bool(b)) => Some(b),
        _ => None,
    }
}

/// The items of an array.
pub open spec fn jarr(o: Option<JsonV>) -> Option<Seq<JsonV>> {
    match o {
        Some(JsonV::Array(a)) => Some(a),
        _ => None,
    }
}

/// The members of an object.
pub open spec fn jobj(o: Option<JsonV>) -> Option<Seq<(Seq<char>, JsonV)>> {
    match o {
        Some(JsonV::Object(e)) => Some(e),
        _ => None,
    }
}

/// The member `key` of `v`.
pub fn get<'a>(v: &'a Json, key: &str) -> (r: Option<&'a Json>)
    ensures
        match jget(v@, key@) {
            Some(x) => r is Some && r->0@ == x,
            None => r is None,
        },
{
    match v {
        Json::Object(e) => {
            proof {
                lemma_object_view(*e);
            }
            match find_member(e, &chars_of(key)) {
                Some(i) => Some(&e[i].1),
                None => None,
            }
        },
        _ => None,
    }
}

/// The member `key` of `v`, where `v` is given.
pub fn get_in<'a>(v: Option<&'a Json>, key: &str) -> (r: Option<&'a Json>)
    ensures
        match v {
            Some(x) => match jget(x@, key@) {
                Some(y) => r is Some && r->0@ == y,
                None => r is None,
            },
            None => r is None,
        },
{
    match v {
        Some(x) => get(x, key),
        None => None,
    }
}

/// The text of a string value.
pub fn as_str<'a>(o: Option<&'a Json>) -> (r: Option<&'a String>)
    ensures
        match jstr(opt_view(o)) {
            Some(s) => r is Some && r->0@ == s,
            None => r is None,
        },
{
    match o {
        Some(Json::Str(s)) => Some(s),
        _ => None,
    }
}

/// A number that fits in `u64`.
pub fn as_u64(o: Option<&Json>) -> (r: Option<u64>)
    ensures
        r == ju64(opt_view(o)),
{
    match o {
        Some(Json::PosInt(n)) => Some(*n),
        _ => None,
    }
}

/// A boolean value.
pub fn as_bool(o: Option<&Json>) -> (r: Option<bool>)
    ensures
        r == jbool(opt_view(o)),
{
    match o {
        Some(Json::Bool(b)) => Some(*b),
        _ => None,
    }
}

/// The items of an array.
pub fn as_array<'a>(o: Option<&'a Json>) -> (r: Option<&'a Vec<Json>>)
    ensures
        match jarr(opt_view(o)) {
            Some(a) => r is Some && items_view(r->0@) == a,
            None => r is None,
        },
{
    match o {
        Some(Json::Array(a)) => {
            proof {
                lemma_array_view(*a);
            }
            Some(a)
        },
        _ => None,
    }
}

/// The members of an object.
pub fn as_object<'a>(o: Option<&'a Json>) -> (r: Option<&'a Vec<(String, Json)>>)
    ensures
        match jobj(opt_view(o)) {
            Some(e) => r is Some && entries_view(r->0@) == e,
            None => r is None,
        },
{
    match o {
        Some(Json::Object(e)) => {
            proof {
                lemma_object_view(*e);
            }
            Some(e)
        },
        _ => None,
    }
}

/// The model of an optional value.
pub open spec fn opt_view(o: Option<&Json>) -> Option<JsonV> {
    match o {
        Some(x) => Some(x@),
        None => None,
    }
}

} // verus!
