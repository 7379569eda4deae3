//! The system state: a JSON document addressed by dot-separated paths.
use vstd::prelude::*;
use crate::error::{Error, ErrorV};
use crate::json::{
    entries_view, find_member, items_view, lemma_array_view, lemma_find_key_bounds,
    lemma_lookup_insert_same, lemma_lookup_remove_same, lemma_object_view, lookup, members_insert,
    members_remove, obj_insert, obj_remove, Json, JsonV,
};
use crate::text::{
    chars_of, dec_digits, lemma_split_on_nonempty, message, parse_unsigned, parse_unsigned_chars,
    split_chars, split_on, u64_to_dec, views_of,
};

verus! {

/// Reads a path segment as an array index, as `str::parse::<usize>` does.
pub open spec fn parse_index(part: Seq<char>) -> Option<nat> {
    parse_unsigned(part, usize::MAX as nat)
}

/// The value one path segment below `v`.
pub open spec fn step(v: JsonV, part: Seq<char>) -> Option<JsonV> {
    match v {
        JsonV::Object(e) => lookup(e, part),
        JsonV::Array(a) => match parse_index(part) {
            Some(i) => if i < a.len() {
                Some(a[i as int])
            } else {
                None
            },
            None => None,
        },
        _ => None,
    }
}

/// The value found by following the segments from `v`.
pub open spec fn get_at(v: JsonV, parts: Seq<Seq<char>>) -> Option<JsonV>
    decreases parts.len(),
{
    if parts.len() == 0 {
        Some(v)
    } else {
        match step(v, parts[0]) {
            Some(c) => get_at(c, parts.drop_first()),
            None => None,
        }
    }
}

/// What `SystemState::get` returns: the whole document for the empty path,
/// otherwise the value at the dot-separated path.
pub open spec fn state_get(data: JsonV, path: Seq<char>) -> Option<JsonV> {
    if path.len() == 0 {
        Some(data)
    } else {
        get_at(data, split_on(path, '.'))
    }
}

/// Why a change at a path was refused.
pub enum PathFail {
    /// An array index at or past the end.
    OutOfBounds(nat),
    /// A segment that should index an array is not a number.
    InvalidIndex(Seq<char>),
    /// The last segment does not name a place in an object or array.
    CannotSet,
    /// A segment before the last leads through a scalar.
    CannotNavigate,
    /// The last segment does not name a place that can be removed.
    CannotRemove,
}

/// The document after storing `value` at the segments, or why that is refused.
/// Objects on the way that lack the segment get an empty object there.
pub open spec fn set_at(v: JsonV, parts: Seq<Seq<char>>, value: JsonV) -> Result<JsonV, PathFail>
    decreases parts.len(),
{
    if parts.len() == 0 {
        Ok(value)
    } else if parts.len() == 1 {
        match v {
            JsonV::Object(e) => Ok(JsonV::Object(obj_insert(e, parts[0], value))),
            JsonV::Array(a) => match parse_index(parts[0]) {
                Some(i) => if i < a.len() {
                    Ok(JsonV::Array(a.update(i as int, value)))
                } else {
                    Err(PathFail::OutOfBounds(i))
                },
                None => Err(PathFail::InvalidIndex(parts[0])),
            },
            _ => Err(PathFail::CannotSet),
        }
    } else {
        match v {
            JsonV::Object(e) => {
                let child = match lookup(e, parts[0]) {
                    Some(c) => c,
                    None => JsonV::Object(Seq::empty()),
                };
                match set_at(child, parts.drop_first(), value) {
                    Ok(c2) => Ok(JsonV::Object(obj_insert(e, parts[0], c2))),
                    Err(f) => Err(f),
                }
            },
            JsonV::Array(a) => match parse_index(parts[0]) {
                Some(i) => if i < a.len() {
                    match set_at(a[i as int], parts.drop_first(), value) {
                        Ok(c2) => Ok(JsonV::Array(a.update(i as int, c2))),
                        Err(f) => Err(f),
                    }
                } else {
                    Err(PathFail::OutOfBounds(i))
                },
                None => Err(PathFail::InvalidIndex(parts[0])),
            },
            _ => Err(PathFail::CannotNavigate),
        }
    }
}

/// The document after removing what the segments name, or why that is refused.
/// A path whose intermediate segments lead nowhere removes nothing.
pub open spec fn remove_at(v: JsonV, parts: Seq<Seq<char>>) -> Result<JsonV, PathFail>
    decreases parts.len(),
{
    if parts.len() == 0 {
        Ok(v)
    } else if parts.len() == 1 {
        match v {
            JsonV::Object(e) => Ok(JsonV::Object(obj_remove(e, parts[0]))),
            JsonV::Array(a) => match parse_index(parts[0]) {
                Some(i) => if i < a.len() {
                    Ok(JsonV::Array(a.remove(i as int)))
                } else {
                    Err(PathFail::OutOfBounds(i))
                },
                None => Err(PathFail::InvalidIndex(parts[0])),
            },
            _ => Err(PathFail::CannotRemove),
        }
    } else {
        match v {
            JsonV::Object(e) => match lookup(e, parts[0]) {
                Some(c) => match remove_at(c, parts.drop_first()) {
                    Ok(c2) => Ok(JsonV::Object(obj_insert(e, parts[0], c2))),
                    Err(f) => Err(f),
                },
                None => Ok(v),
            },
            JsonV::Array(a) => match parse_index(parts[0]) {
                Some(i) => if i < a.len() {
                    match remove_at(a[i as int], parts.drop_first()) {
                        Ok(c2) => Ok(JsonV::Array(a.update(i as int, c2))),
                        Err(f) => Err(f),
                    }
                } else {
                    Ok(v)
                },
                None => Err(PathFail::InvalidIndex(parts[0])),
            },
            _ => Ok(v),
        }
    }
}

/// The message that a refused change reports for `path`.
pub open spec fn fail_message(f: PathFail, path: Seq<char>) -> Seq<char> {
    match f {
        PathFail::OutOfBounds(i) => "Index out of bounds: "@ + dec_digits(i),
        PathFail::InvalidIndex(p) => "Invalid array index: "@ + p,
        PathFail::CannotSet => "Cannot set value at path: "@ + path,
        PathFail::CannotNavigate => "Cannot navigate to path: "@ + path,
        PathFail::CannotRemove => "Cannot remove value at path: "@ + path,
    }
}

/// What `SystemState::set` does to the document.
pub open spec fn state_set(data: JsonV, path: Seq<char>, value: JsonV) -> Result<JsonV, PathFail> {
    if path.len() == 0 {
        Ok(value)
    } else {
        set_at(data, split_on(path, '.'), value)
    }
}

/// The system state.
#[derive(Debug)]
pub struct SystemState {
    /// The state data as a nested structure.
    pub data: Json,
}

/// The exec form of a refused change.
enum Fail {
    OutOfBounds(u64),
    InvalidIndex(Vec<char>),
    CannotSet,
    CannotNavigate,
    CannotRemove,
}

impl Fail {
    spec fn model(&self) -> PathFail {
        match self {
            Fail::OutOfBounds(i) => PathFail::OutOfBounds(*i as nat),
            Fail::InvalidIndex(p) => PathFail::InvalidIndex(p@),
            Fail::CannotSet => PathFail::CannotSet,
            Fail::CannotNavigate => PathFail::CannotNavigate,
            Fail::CannotRemove => PathFail::CannotRemove,
        }
    }

    fn to_error(self, path: &str) -> (r: Error)
        ensures
            r@ == ErrorV::State(fail_message(self.model(), path@)),
    {
        match self {
            Fail::OutOfBounds(i) => Error::State(message("Index out of bounds: ", &u64_to_dec(i))),
            Fail::InvalidIndex(p) => Error::State(message("Invalid array index: ", &p)),
            Fail::CannotSet => Error::State(message("Cannot set value at path: ", &chars_of(path))),
            Fail::CannotNavigate => Error::State(
                message("Cannot navigate to path: ", &chars_of(path)),
            ),
            Fail::CannotRemove => Error::State(
                message("Cannot remove value at path: ", &chars_of(path)),
            ),
        }
    }
}

fn parse_index_exec(part: &Vec<char>) -> (r: Option<usize>)
    ensures
        match parse_index(part@) {
            Some(i) => r == Some(i as usize),
            None => r is None,
        },
{
    match parse_unsigned_chars(part, usize::MAX as u64) {
        Some(v) => Some(v as usize),
        None => None,
    }
}

/// Follows the segments from `i` on and copies what they lead to.
fn get_rec(node: &Json, parts: &Vec<Vec<char>>, i: usize) -> (r: Option<Json>)
    requires
        i <= parts.len(),
    ensures
        match get_at(node@, views_of(parts@).subrange(i as int, parts.len() as int)) {
            Some(v) => r is Some && r->0@ == v,
            None => r is None,
        },
    decreases parts.len() - i,
{
    let ghost ps = views_of(parts@).subrange(i as int, parts.len() as int);
    if i == parts.len() {
        return Some(node.deep_copy());
    }
    proof {
        assert(ps[0] == parts@[i as int]@);
        assert(ps.drop_first() =~= views_of(parts@).subrange(i as int + 1, parts.len() as int));
    }
    match node {
        Json::Object(e) => {
            proof {
                lemma_object_view(*e);
                lemma_find_key_bounds(entries_view(e@), parts@[i as int]@);
            }
            match find_member(e, &parts[i]) {
                Some(k) => {
                    proof {
                        assert(entries_view(e@)[k as int].1 == e@[k as int].1@);
                        assert(step(node@, ps[0]) == Some(e@[k as int].1@));
                    }
                    get_rec(&e[k].1, parts, i + 1)
                },
                None => {
                    proof {
                        assert(step(node@, ps[0]) is None);
                    }
                    None
                },
            }
        },
        Json::Array(a) => {
            proof {
                lemma_array_view(*a);
            }
            match parse_index_exec(&parts[i]) {
                Some(k) => {
                    if k < a.len() {
                        proof {
                            assert(items_view(a@)[k as int] == a@[k as int]@);
                            assert(step(node@, ps[0]) == Some(a@[k as int]@));
                        }
                        get_rec(&a[k], parts, i + 1)
                    } else {
                        None
                    }
                },
                None => None,
            }
        },
        _ => None,
    }
}

/// Decides whether storing at the segments from `i` on would be refused, and why.
fn set_check(node: &Json, parts: &Vec<Vec<char>>, i: usize) -> (r: Result<(), Fail>)
    requires
        i < parts.len(),
    ensures
        match set_at(node@, views_of(parts@).subrange(i as int, parts.len() as int), JsonV::Null) {
            Ok(_) => r is Ok,
            Err(f) => r is Err && r->Err_0.model() == f,
        },
    decreases parts.len() - i,
{
    let ghost ps = views_of(parts@).subrange(i as int, parts.len() as int);
    proof {
        assert(ps[0] == parts@[i as int]@);
        assert(ps.drop_first() =~= views_of(parts@).subrange(i as int + 1, parts.len() as int));
    }
    let last = i + 1 == parts.len();
    match node {
        Json::Object(e) => {
            if last {
                return Ok(());
            }
            proof {
                lemma_object_view(*e);
                lemma_find_key_bounds(entries_view(e@), parts@[i as int]@);
            }
            match find_member(e, &parts[i]) {
                Some(k) => {
                    proof {
                        assert(entries_view(e@)[k as int].1 == e@[k as int].1@);
                        assert(lookup(entries_view(e@), ps[0]) == Some(e@[k as int].1@));
                    }
                    set_check(&e[k].1, parts, i + 1)
                },
                None => {
                    proof {
                        assert(lookup(entries_view(e@), ps[0]) is None);
                        lemma_set_at_empty_object_ok(ps.drop_first(), JsonV::Null);
                    }
                    Ok(())
                },
            }
        },
        Json::Array(a) => {
            proof {
                lemma_array_view(*a);
            }
            match parse_index_exec(&parts[i]) {
                Some(k) => {
                    if k < a.len() {
                        if last {
                            Ok(())
                        } else {
                            proof {
                                assert(items_view(a@)[k as int] == a@[k as int]@);
                            }
                            set_check(&a[k], parts, i + 1)
                        }
                    } else {
                        Err(Fail::OutOfBounds(k as u64))
                    }
                },
                None => Err(Fail::InvalidIndex(copy_chars(&parts[i]))),
            }
        },
        _ => {
            if last {
                Err(Fail::CannotSet)
            } else {
                Err(Fail::CannotNavigate)
            }
        },
    }
}

fn copy_chars(v: &Vec<char>) -> (r: Vec<char>)
    ensures
        r@ == v@,
{
    let mut r: Vec<char> = Vec::new();
    let mut i: usize = 0;
    while i < v.len()
        invariant
            i <= v.len(),
            r@ == v@.subrange(0, i as int),
        decreases v.len() - i,
    {
        r.push(v[i]);
        i = i + 1;
    }
    r
}

/// Whether a change is refused does not depend on the value being stored.
proof fn lemma_set_at_ok_any_value(v: JsonV, parts: Seq<Seq<char>>, x: JsonV, y: JsonV)
    ensures
        (set_at(v, parts, x) is Ok) == (set_at(v, parts, y) is Ok),
        set_at(v, parts, x) is Err ==> set_at(v, parts, x) == set_at(v, parts, y),
    decreases parts.len(),
{
    if parts.len() > 1 {
        match v {
            JsonV::Object(e) => {
                let child = match lookup(e, parts[0]) {
                    Some(c) => c,
                    None => JsonV::Object(Seq::empty()),
                };
                lemma_set_at_ok_any_value(child, parts.drop_first(), x, y);
            },
            JsonV::Array(a) => {
                if let Some(i) = parse_index(parts[0]) {
                    if i < a.len() {
                        lemma_set_at_ok_any_value(a[i as int], parts.drop_first(), x, y);
                    }
                }
            },
            _ => {},
        }
    }
}

/// Storing below an empty object always succeeds.
proof fn lemma_set_at_empty_object_ok(parts: Seq<Seq<char>>, value: JsonV)
    ensures
        set_at(JsonV::Object(Seq::empty()), parts, value) is Ok,
    decreases parts.len(),
{
    if parts.len() > 1 {
        lemma_set_at_empty_object_ok(parts.drop_first(), value);
    }
}

/// Stores `value` at the segments from `i` on; the caller has checked that this is not refused.
fn set_build(node: Json, parts: &Vec<Vec<char>>, i: usize, value: Json) -> (r: Json)
    requires
        i < parts.len(),
        set_at(node@, views_of(parts@).subrange(i as int, parts.len() as int), value@) is Ok,
    ensures
        set_at(node@, views_of(parts@).subrange(i as int, parts.len() as int), value@) == Ok::<JsonV, PathFail>(r@),
    decreases parts.len() - i,
{
    let ghost ps = views_of(parts@).subrange(i as int, parts.len() as int);
    let ghost nv = node@;
    proof {
        assert(ps[0] == parts@[i as int]@);
        assert(ps.drop_first() =~= views_of(parts@).subrange(i as int + 1, parts.len() as int));
    }
    let last = i + 1 == parts.len();
    match node {
        Json::Object(mut e) => {
            proof {
                lemma_object_view(e);
                lemma_find_key_bounds(entries_view(e@), parts@[i as int]@);
            }
            let ghost ev = entries_view(e@);
            if last {
                members_insert(&mut e, &parts[i], value);
                proof {
                    lemma_object_view(e);
                }
                return Json::Object(e);
            }
            match find_member(&e, &parts[i]) {
                Some(k) => {
                    let ghost e0 = e@;
                    let (key, child) = e.remove(k);
                    proof {
                        assert(e0[k as int] == (key, child));
                        assert(ev[k as int] == (key@, child@));
                        assert(lookup(ev, ps[0]) == Some(child@));
                    }
                    let c2 = set_build(child, parts, i + 1, value);
                    e.insert(k, (key, c2));
                    proof {
                        assert(e@ =~= e0.update(k as int, (key, c2)));
                        lemma_object_view(e);
                        assert(entries_view(e@) =~= ev.update(k as int, (parts@[i as int]@, c2@)));
                    }
                    Json::Object(e)
                },
                None => {
                    let c2 = set_build(Json::empty_object(), parts, i + 1, value);
                    members_insert(&mut e, &parts[i], c2);
                    proof {
                        lemma_object_view(e);
                    }
                    Json::Object(e)
                },
            }
        },
        Json::Array(mut a) => {
            proof {
                lemma_array_view(a);
            }
            let ghost av = items_view(a@);
            match parse_index_exec(&parts[i]) {
                Some(k) => {
                    if last {
                        let ghost a0 = a@;
                        a.set(k, value);
                        proof {
                            assert(a@ =~= a0.update(k as int, value));
                            lemma_array_view(a);
                            assert(items_view(a@) =~= av.update(k as int, value@));
                        }
                        Json::Array(a)
                    } else {
                        let ghost a0 = a@;
                        let child = a.remove(k);
                        proof {
                            assert(av[k as int] == child@);
                        }
                        let c2 = set_build(child, parts, i + 1, value);
                        a.insert(k, c2);
                        proof {
                            assert(a@ =~= a0.update(k as int, c2));
                            lemma_array_view(a);
                            assert(items_view(a@) =~= av.update(k as int, c2@));
                        }
                        Json::Array(a)
                    }
                },
                None => {
                    Json::Array(a)
                },
            }
        },
        other => other,
    }
}

/// Removes what the segments from `i` on name, or says why that is refused.
fn remove_rec(node: &mut Json, parts: &Vec<Vec<char>>, i: usize) -> (r: Result<(), Fail>)
    requires
        i < parts.len(),
    ensures
        match remove_at(old(node)@, views_of(parts@).subrange(i as int, parts.len() as int)) {
            Ok(v) => r is Ok && final(node)@ == v,
            Err(f) => r is Err && r->Err_0.model() == f && final(node)@ == old(node)@,
        },
    decreases parts.len() - i,
{
    let ghost ps = views_of(parts@).subrange(i as int, parts.len() as int);
    proof {
        assert(ps[0] == parts@[i as int]@);
        assert(ps.drop_first() =~= views_of(parts@).subrange(i as int + 1, parts.len() as int));
    }
    let last = i + 1 == parts.len();
    let mut taken = Json::Null;
    std::mem::swap(&mut taken, node);
    let ghost nv = taken@;
    match taken {
        Json::Object(mut e) => {
            proof {
                lemma_object_view(e);
                lemma_find_key_bounds(entries_view(e@), parts@[i as int]@);
            }
            let ghost ev = entries_view(e@);
            if last {
                members_remove(&mut e, &parts[i]);
                proof {
                    lemma_object_view(e);
                }
                *node = Json::Object(e);
                return Ok(());
            }
            match find_member(&e, &parts[i]) {
                Some(k) => {
                    let ghost e0 = e@;
                    let (key, mut child) = e.remove(k);
                    proof {
                        assert(e0[k as int] == (key, child));
                        assert(ev[k as int] == (key@, child@));
                        assert(lookup(ev, ps[0]) == Some(child@));
                    }
                    let res = remove_rec(&mut child, parts, i + 1);
                    e.insert(k, (key, child));
                    proof {
                        assert(e@ =~= e0.update(k as int, (key, child)));
                        lemma_object_view(e);
                        assert(entries_view(e@) =~= ev.update(k as int, (parts@[i as int]@, child@)));
                        if res is Err {
                            assert(entries_view(e@) =~= ev);
                        }
                    }
                    *node = Json::Object(e);
                    res
                },
                None => {
                    proof {
                        assert(lookup(ev, ps[0]) is None);
                    }
                    *node = Json::Object(e);
                    Ok(())
                },
            }
        },
        Json::Array(mut a) => {
            proof {
                lemma_array_view(a);
            }
            let ghost av = items_view(a@);
            match parse_index_exec(&parts[i]) {
                Some(k) => {
                    if k < a.len() {
                        if last {
                            let ghost a0 = a@;
                            a.remove(k);
                            proof {
                                assert(a@ =~= a0.remove(k as int));
                            }
                            proof {
                                lemma_array_view(a);
                                assert(items_view(a@) =~= av.remove(k as int));
                            }
                            *node = Json::Array(a);
                            Ok(())
                        } else {
                            let ghost a0 = a@;
                            let mut child = a.remove(k);
                            proof {
                                assert(av[k as int] == child@);
                            }
                            let res = remove_rec(&mut child, parts, i + 1);
                            a.insert(k, child);
                            proof {
                                assert(a@ =~= a0.update(k as int, child));
                                lemma_array_view(a);
                                assert(items_view(a@) =~= av.update(k as int, child@));
                                if res is Err {
                                    assert(items_view(a@) =~= av);
                                }
                            }
                            *node = Json::Array(a);
                            res
                        }
                    } else {
                        *node = Json::Array(a);
                        if last {
                            Err(Fail::OutOfBounds(k as u64))
                        } else {
                            Ok(())
                        }
                    }
                },
                None => {
                    let p = copy_chars(&parts[i]);
                    *node = Json::Array(a);
                    Err(Fail::InvalidIndex(p))
                },
            }
        },
        other => {
            *node = other;
            if last {
                Err(Fail::CannotRemove)
            } else {
                Ok(())
            }
        },
    }
}

impl SystemState {
    /// A state holding an empty object.
    pub fn new() -> (r: SystemState)
        ensures
            r.data@ == JsonV::Object(Seq::empty()),
    {
        SystemState { data: Json::empty_object() }
    }

    /// The state's data as compact JSON text.
    pub fn to_json(&self) -> (r: Result<String, Error>)
        ensures
            r is Ok && r->Ok_0@ == crate::json_text::json_text(self.data@),
    {
        Ok(crate::json_text::json_to_text(&self.data))
    }

    /// The state whose data is the JSON text `json`, whose objects hold no key
    /// twice; refused, as a decode error, where the text is not JSON.
    pub fn from_json(json: &str) -> (r: Result<SystemState, Error>)
        ensures
            r is Ok <==> crate::json_text::json_text_value(json@) is Some,
            r is Ok ==> Some(r->Ok_0.data@) == crate::json_text::json_text_value(json@),
            r is Ok ==> crate::state_manager::keys_unique(r->Ok_0.data@),
            r is Err ==> r->Err_0@ == ErrorV::Decode("Invalid JSON state"@),
    {
        match crate::json_text::parse_json_text(json) {
            Some(data) => Ok(SystemState { data }),
            None => Err(Error::Decode("Invalid JSON state".to_owned())),
        }
    }

    /// The value at a dot-separated path; the empty path gives the whole document.
    pub fn get(&self, path: &str) -> (r: Option<Json>)
        ensures
            match state_get(self.data@, path@) {
                Some(v) => r is Some && r->0@ == v,
                None => r is None,
            },
    {
        let p = chars_of(path);
        if p.len() == 0 {
            return Some(self.data.deep_copy());
        }
        let parts = split_chars(&p, '.');
        assert(views_of(parts@).subrange(0, parts.len() as int) =~= views_of(parts@));
        get_rec(&self.data, &parts, 0)
    }

    /// Stores a value at a dot-separated path, creating empty objects for missing
    /// object members on the way; the empty path replaces the whole document.
    /// A refused change leaves the document as it was.
    pub fn set(&mut self, path: &str, value: Json) -> (r: Result<(), Error>)
        ensures
            match state_set(old(self).data@, path@, value@) {
                Ok(d) => r is Ok && final(self).data@ == d,
                Err(f) => r is Err && r->Err_0@ == ErrorV::State(fail_message(f, path@))
                    && final(self).data@ == old(self).data@,
            },
    {
        let p = chars_of(path);
        if p.len() == 0 {
            self.data = value;
            return Ok(());
        }
        let parts = split_chars(&p, '.');
        proof {
            lemma_split_on_nonempty(p@, '.');
            assert(views_of(parts@).subrange(0, parts.len() as int) =~= views_of(parts@));
            lemma_set_at_ok_any_value(self.data@, views_of(parts@), JsonV::Null, value@);
        }
        match set_check(&self.data, &parts, 0) {
            Err(f) => Err(f.to_error(path)),
            Ok(()) => {
                let mut d = Json::Null;
                std::mem::swap(&mut d, &mut self.data);
                self.data = set_build(d, &parts, 0, value);
                Ok(())
            },
        }
    }

    /// Removes the value at a dot-separated path. The empty path is refused;
    /// a path whose intermediate segments lead nowhere removes nothing.
    pub fn remove(&mut self, path: &str) -> (r: Result<(), Error>)
        ensures
            path@.len() == 0 ==> r is Err && r->Err_0@ == ErrorV::State("Cannot remove root state"@)
                && final(self).data@ == old(self).data@,
            path@.len() > 0 ==> match remove_at(old(self).data@, split_on(path@, '.')) {
                Ok(d) => r is Ok && final(self).data@ == d,
                Err(f) => r is Err && r->Err_0@ == ErrorV::State(fail_message(f, path@))
                    && final(self).data@ == old(self).data@,
            },
    {
        let p = chars_of(path);
        if p.len() == 0 {
            return Err(Error::State(message("Cannot remove root state", &Vec::new())));
        }
        let parts = split_chars(&p, '.');
        proof {
            lemma_split_on_nonempty(p@, '.');
            assert(views_of(parts@).subrange(0, parts.len() as int) =~= views_of(parts@));
        }
        match remove_rec(&mut self.data, &parts, 0) {
            Ok(()) => Ok(()),
            Err(f) => Err(f.to_error(path)),
        }
    }
}

proof fn lemma_get_after_set_at(v: JsonV, parts: Seq<Seq<char>>, value: JsonV)
    requires
        parts.len() >= 1,
        set_at(v, parts, value) is Ok,
    ensures
        get_at(set_at(v, parts, value)->Ok_0, parts) == Some(value),
    decreases parts.len(),
{
    let p0 = parts[0];
    let rest = parts.drop_first();
    if parts.len() == 1 {
        assert(rest.len() == 0);
        match v {
            JsonV::Object(e) => {
                lemma_lookup_insert_same(e, p0, value);
            },
            JsonV::Array(a) => {},
            _ => {},
        }
    } else {
        match v {
            JsonV::Object(e) => {
                let child = match lookup(e, p0) {
                    Some(c) => c,
                    None => JsonV::Object(Seq::empty()),
                };
                let c2 = set_at(child, rest, value)->Ok_0;
                lemma_get_after_set_at(child, rest, value);
                lemma_lookup_insert_same(e, p0, c2);
            },
            JsonV::Array(a) => {
                let i = parse_index(p0)->Some_0;
                lemma_get_after_set_at(a[i as int], rest, value);
            },
            _ => {},
        }
    }
}

/// Law: after a successful `set` at a path, `get` at that path returns the value stored.
pub proof fn law_get_after_set(data: JsonV, path: Seq<char>, value: JsonV)
    requires
        state_set(data, path, value) is Ok,
    ensures
        state_get(state_set(data, path, value)->Ok_0, path) == Some(value),
{
    if path.len() > 0 {
        lemma_split_on_nonempty(path, '.');
        lemma_get_after_set_at(data, split_on(path, '.'), value);
    }
}

/// Distinct keys, as every object read from a JSON map has.
pub open spec fn keys_distinct(e: Seq<(Seq<char>, JsonV)>) -> bool {
    forall|i: int, j: int| 0 <= i < j < e.len() ==> e[i].0 != e[j].0
}

proof fn lemma_get_after_remove_at(v: JsonV, parts: Seq<Seq<char>>)
    requires
        parts.len() >= 1,
        remove_at(v, parts) is Ok,
        get_at(v, parts.drop_last()) matches Some(JsonV::Object(e)) && keys_distinct(e),
    ensures
        get_at(remove_at(v, parts)->Ok_0, parts) is None,
    decreases parts.len(),
{
    let p0 = parts[0];
    let rest = parts.drop_first();
    if parts.len() == 1 {
        assert(parts.drop_last().len() == 0);
        match v {
            JsonV::Object(e) => {
                lemma_lookup_remove_same(e, p0);
            },
            _ => {},
        }
    } else {
        assert(rest.drop_last() =~= parts.drop_last().drop_first());
        assert(parts.drop_last()[0] == p0);
        match v {
            JsonV::Object(e) => {
                match lookup(e, p0) {
                    Some(c) => {
                        let c2 = remove_at(c, rest)->Ok_0;
                        lemma_get_after_remove_at(c, rest);
                        lemma_lookup_insert_same(e, p0, c2);
                    },
                    None => {},
                }
            },
            JsonV::Array(a) => {
                let i = parse_index(p0)->Some_0;
                if i < a.len() {
                    lemma_get_after_remove_at(a[i as int], rest);
                }
            },
            _ => {},
        }
    }
}

/// Law: after a successful `remove` at a path whose parent is an object with
/// distinct keys, `get` at that path finds nothing. (Below an array the law does
/// not hold: removing an item shifts the next one into its place.)
pub proof fn law_get_after_remove(data: JsonV, path: Seq<char>)
    requires
        path.len() > 0,
        remove_at(data, split_on(path, '.')) is Ok,
        get_at(data, split_on(path, '.').drop_last()) matches Some(JsonV::Object(e)) && keys_distinct(e),
    ensures
        state_get(remove_at(data, split_on(path, '.'))->Ok_0, path) is None,
{
    lemma_split_on_nonempty(path, '.');
    lemma_get_after_remove_at(data, split_on(path, '.'));
}

} // verus!
