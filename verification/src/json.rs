//! The JSON value model that the state store and the configuration code work on.
use vstd::prelude::*;
use crate::text::{chars_eq, chars_of, string_from_chars};

verus! {

/// A JSON value. Objects hold their members in key order, as the state
/// store's maps do; numbers keep the kind that distinguishes them.
#[derive(Debug)]
pub enum Json {
    Null,
    Bool(bool),
    PosInt(u64),
    NegInt(i64),
    Float(String),
    Str(String),
    Array(Vec<Json>),
    Object(Vec<(String, Json)>),
}

/// The mathematical model of a JSON value.
pub enum JsonV {
    Null,
    Bool(bool),
    PosInt(u64),
    NegInt(i64),
    Float(Seq<char>),
    Str(Seq<char>),
    Array(Seq<JsonV>),
    Object(Seq<(Seq<char>, JsonV)>),
}

impl View for Json {
    type V = JsonV;

    open spec fn view(&self) -> JsonV {
        json_model(*self)
    }
}

/// The model of a value.
pub open spec fn json_model(j: Json) -> JsonV
    decreases j, 0nat,
{
    match j {
        Json::Null => JsonV::Null,
        Json::Bool(b) => JsonV::Bool(b),
        Json::PosInt(n) => JsonV::PosInt(n),
        Json::NegInt(n) => JsonV::NegInt(n),
        Json::Float(s) => JsonV::Float(s@),
        Json::Str(s) => JsonV::Str(s@),
        Json::Array(v) => JsonV::Array(items_model(v@, v@.len())),
        Json::Object(v) => JsonV::Object(members_model(v@, v@.len())),
    }
}

/// The models of the first `n` items.
pub open spec fn items_model(v: Seq<Json>, n: nat) -> Seq<JsonV>
    decreases v, n,
{
    if n == 0 || n > v.len() {
        Seq::empty()
    } else {
        items_model(v, (n - 1) as nat).push(json_model(v[n - 1]))
    }
}

/// The models of the first `n` members.
pub open spec fn members_model(v: Seq<(String, Json)>, n: nat) -> Seq<(Seq<char>, JsonV)>
    decreases v, n,
{
    if n == 0 || n > v.len() {
        Seq::empty()
    } else {
        members_model(v, (n - 1) as nat).push((v[n - 1].0@, json_model(v[n - 1].1)))
    }
}

/// The model of an array's items.
pub open spec fn items_view(v: Seq<Json>) -> Seq<JsonV> {
    Seq::new(v.len(), |i: int| v[i]@)
}

/// The model of an object's members.
pub open spec fn entries_view(v: Seq<(String, Json)>) -> Seq<(Seq<char>, JsonV)> {
    Seq::new(v.len(), |i: int| (v[i].0@, v[i].1@))
}

pub proof fn lemma_items_model(v: Seq<Json>, n: nat)
    requires
        n <= v.len(),
    ensures
        items_model(v, n) =~= items_view(v).subrange(0, n as int),
    decreases n,
{
    if n > 0 {
        lemma_items_model(v, (n - 1) as nat);
    }
}

pub proof fn lemma_members_model(v: Seq<(String, Json)>, n: nat)
    requires
        n <= v.len(),
    ensures
        members_model(v, n) =~= entries_view(v).subrange(0, n as int),
    decreases n,
{
    if n > 0 {
        lemma_members_model(v, (n - 1) as nat);
    }
}

pub proof fn lemma_array_view(v: Vec<Json>)
    ensures
        Json::Array(v)@ == JsonV::Array(items_view(v@)),
{
    lemma_items_model(v@, v@.len());
    assert(items_view(v@).subrange(0, v@.len() as int) =~= items_view(v@));
}

pub proof fn lemma_object_view(v: Vec<(String, Json)>)
    ensures
        Json::Object(v)@ == JsonV::Object(entries_view(v@)),
{
    lemma_members_model(v@, v@.len());
    assert(entries_view(v@).subrange(0, v@.len() as int) =~= entries_view(v@));
}

/// Lexicographic order of texts by code point, the order in which object keys are kept.
pub open spec fn key_lt(a: Seq<char>, b: Seq<char>) -> bool
    decreases a.len(),
{
    if b.len() == 0 {
        false
    } else if a.len() == 0 {
        true
    } else if (a[0] as u32) < (b[0] as u32) {
        true
    } else if a[0] == b[0] {
        key_lt(a.drop_first(), b.drop_first())
    } else {
        false
    }
}

/// Index of the first member whose key is `k`.
pub open spec fn find_key(e: Seq<(Seq<char>, JsonV)>, k: Seq<char>) -> Option<int>
    decreases e.len(),
{
    if e.len() == 0 {
        None
    } else {
        match find_key(e.drop_last(), k) {
            Some(i) => Some(i),
            None => if e.last().0 == k {
                Some(e.len() - 1)
            } else {
                None
            },
        }
    }
}

/// The value stored under key `k`.
pub open spec fn lookup(e: Seq<(Seq<char>, JsonV)>, k: Seq<char>) -> Option<JsonV> {
    match find_key(e, k) {
        Some(i) => Some(e[i].1),
        None => None,
    }
}

/// Where a new key goes: before the first member whose key does not sort below it.
pub open spec fn insert_pos(e: Seq<(Seq<char>, JsonV)>, k: Seq<char>) -> int
    decreases e.len(),
{
    if e.len() == 0 {
        0
    } else if insert_pos(e.drop_last(), k) < e.len() - 1 {
        insert_pos(e.drop_last(), k)
    } else if key_lt(e.last().0, k) {
        e.len() as int
    } else {
        e.len() - 1
    }
}

/// The members after storing `v` under `k`: an existing member is overwritten
/// in place, a new one goes in key order.
pub open spec fn obj_insert(e: Seq<(Seq<char>, JsonV)>, k: Seq<char>, v: JsonV) -> Seq<(Seq<char>, JsonV)> {
    match find_key(e, k) {
        Some(i) => e.update(i, (k, v)),
        None => e.insert(insert_pos(e, k), (k, v)),
    }
}

/// The members after dropping the one stored under `k`, if there is one.
pub open spec fn obj_remove(e: Seq<(Seq<char>, JsonV)>, k: Seq<char>) -> Seq<(Seq<char>, JsonV)> {
    match find_key(e, k) {
        Some(i) => e.remove(i),
        None => e,
    }
}

pub proof fn lemma_find_key_bounds(e: Seq<(Seq<char>, JsonV)>, k: Seq<char>)
    ensures
        find_key(e, k) matches Some(i) ==> 0 <= i < e.len() && e[i].0 == k
            && forall|j: int| 0 <= j < i ==> e[j].0 != k,
        find_key(e, k) is None ==> forall|j: int| 0 <= j < e.len() ==> e[j].0 != k,
    decreases e.len(),
{
    if e.len() > 0 {
        lemma_find_key_bounds(e.drop_last(), k);
        assert forall|j: int| 0 <= j < e.len() - 1 implies e.drop_last()[j] == e[j] by {}
    }
}

pub proof fn lemma_find_key_first(e: Seq<(Seq<char>, JsonV)>, k: Seq<char>, i: int)
    requires
        0 <= i < e.len(),
        e[i].0 == k,
        forall|j: int| 0 <= j < i ==> e[j].0 != k,
    ensures
        find_key(e, k) == Some(i),
{
    lemma_find_key_bounds(e, k);
    match find_key(e, k) {
        Some(m) => {
            if m < i {
                assert(e[m].0 != k);
            } else if m > i {
                assert(e[i].0 != k);
            }
        },
        None => {
            assert(e[i].0 != k);
        },
    }
}

pub proof fn lemma_insert_pos_bounds(e: Seq<(Seq<char>, JsonV)>, k: Seq<char>)
    ensures
        0 <= insert_pos(e, k) <= e.len(),
    decreases e.len(),
{
    if e.len() > 0 {
        lemma_insert_pos_bounds(e.drop_last(), k);
    }
}

/// Reading a key right after storing under it gives the stored value.
pub proof fn lemma_lookup_insert_same(e: Seq<(Seq<char>, JsonV)>, k: Seq<char>, v: JsonV)
    ensures
        lookup(obj_insert(e, k, v), k) == Some(v),
{
    lemma_find_key_bounds(e, k);
    match find_key(e, k) {
        Some(i) => {
            let e2 = e.update(i, (k, v));
            lemma_find_key_first(e2, k, i);
        },
        None => {
            lemma_insert_pos_bounds(e, k);
            let p = insert_pos(e, k);
            let e2 = e.insert(p, (k, v));
            assert forall|j: int| 0 <= j < p implies e2[j].0 != k by {
                assert(e2[j] == e[j]);
            }
            lemma_find_key_first(e2, k, p);
        },
    }
}

/// Storing under one key leaves what every other key reads unchanged.
pub proof fn lemma_lookup_insert_other(e: Seq<(Seq<char>, JsonV)>, k: Seq<char>, v: JsonV, k2: Seq<char>)
    requires
        k2 != k,
    ensures
        lookup(obj_insert(e, k, v), k2) == lookup(e, k2),
{
    lemma_find_key_bounds(e, k);
    lemma_find_key_bounds(e, k2);
    let e2 = obj_insert(e, k, v);
    lemma_find_key_bounds(e2, k2);
    match find_key(e, k) {
        Some(i) => {
            match find_key(e, k2) {
                Some(m) => {
                    assert(e2[m] == e[m]);
                    assert forall|j: int| 0 <= j < m implies e2[j].0 != k2 by {
                        if j != i {
                            assert(e2[j] == e[j]);
                        }
                    }
                    lemma_find_key_first(e2, k2, m);
                },
                None => {
                    if let Some(m) = find_key(e2, k2) {
                        if m != i {
                            assert(e2[m] == e[m]);
                        }
                    }
                },
            }
        },
        None => {
            lemma_insert_pos_bounds(e, k);
            let p = insert_pos(e, k);
            match find_key(e, k2) {
                Some(m) => {
                    let m2 = if m < p { m } else { m + 1 };
                    assert(e2[m2] == e[m]);
                    assert forall|j: int| 0 <= j < m2 implies e2[j].0 != k2 by {
                        if j < p {
                            assert(e2[j] == e[j]);
                        } else if j > p {
                            assert(e2[j] == e[j - 1]);
                        }
                    }
                    lemma_find_key_first(e2, k2, m2);
                },
                None => {
                    if let Some(m) = find_key(e2, k2) {
                        if m < p {
                            assert(e2[m] == e[m]);
                        } else if m > p {
                            assert(e2[m] == e[m - 1]);
                        }
                    }
                },
            }
        },
    }
}

/// After removing a key, reading it finds nothing.
pub proof fn lemma_lookup_remove_same(e: Seq<(Seq<char>, JsonV)>, k: Seq<char>)
    requires
        forall|i: int, j: int| 0 <= i < j < e.len() ==> e[i].0 != e[j].0,
    ensures
        lookup(obj_remove(e, k), k) is None,
{
    lemma_find_key_bounds(e, k);
    let e2 = obj_remove(e, k);
    lemma_find_key_bounds(e2, k);
    if let Some(i) = find_key(e, k) {
        if let Some(m) = find_key(e2, k) {
            if m < i {
                assert(e2[m] == e[m]);
            } else {
                assert(e2[m] == e[m + 1]);
            }
        }
    }
}

impl Json {
    /// A copy of the value with the same model.
    #[verifier::loop_isolation(false)]
    pub fn deep_copy(&self) -> (r: Json)
        ensures
            r@ == self@,
        decreases self,
    {
        match self {
            Json::Null => Json::Null,
            Json::Bool(b) => Json::Bool(*b),
            Json::PosInt(n) => Json::PosInt(*n),
            Json::NegInt(n) => Json::NegInt(*n),
            Json::Float(s) => Json::Float(s.clone()),
            Json::Str(s) => Json::Str(s.clone()),
            Json::Array(v) => {
                let mut out: Vec<Json> = Vec::new();
                let mut i: usize = 0;
                while i < v.len()
                    invariant
                        i <= v.len(),
                        items_view(out@) == items_view(v@).subrange(0, i as int),
                    decreases v.len() - i,
                {
                    proof {

                    }
                    proof {
                        assert(decreases_to!(*self => *v));
                        assert(decreases_to!(*v => v[i as int]));
                    }
                    let c = v[i].deep_copy();
                    out.push(c);
                    proof {
                        assert(items_view(out@) =~= items_view(v@).subrange(0, i as int + 1));
                    }
                    i = i + 1;
                }
                proof {
                    assert(items_view(v@).subrange(0, v.len() as int) =~= items_view(v@));
                    lemma_array_view(out);
                    lemma_array_view(*v);
                }
                Json::Array(out)
            },
            Json::Object(v) => {
                let mut out: Vec<(String, Json)> = Vec::new();
                let mut i: usize = 0;
                while i < v.len()
                    invariant
                        i <= v.len(),
                        entries_view(out@) == entries_view(v@).subrange(0, i as int),
                    decreases v.len() - i,
                {
                    proof {

                    }
                    proof {
                        assert(decreases_to!(*self => *v));
                        assert(decreases_to!(*v => v[i as int]));
                        assert(decreases_to!(v[i as int] => v[i as int].1));
                    }
                    let c = v[i].1.deep_copy();
                    let k = v[i].0.clone();
                    out.push((k, c));
                    proof {
                        assert(entries_view(out@) =~= entries_view(v@).subrange(0, i as int + 1));
                    }
                    i = i + 1;
                }
                proof {
                    assert(entries_view(v@).subrange(0, v.len() as int) =~= entries_view(v@));
                    lemma_object_view(out);
                    lemma_object_view(*v);
                }
                Json::Object(out)
            },
        }
    }

    /// An empty object.
    pub fn empty_object() -> (r: Json)
        ensures
            r@ == JsonV::Object(Seq::empty()),
    {
        let v: Vec<(String, Json)> = Vec::new();
        proof {
            lemma_object_view(v);
            assert(entries_view(v@) =~= Seq::empty());
        }
        Json::Object(v)
    }
}

/// Finds the first member stored under `key`.
pub fn find_member(e: &Vec<(String, Json)>, key: &Vec<char>) -> (r: Option<usize>)
    ensures
        r is None <==> find_key(entries_view(e@), key@) is None,
        r matches Some(i) ==> find_key(entries_view(e@), key@) == Some(i as int) && i < e.len()
            && e@[i as int].0@ == key@,
{
    let ghost ev = entries_view(e@);
    let mut i: usize = 0;
    while i < e.len()
        invariant
            i <= e.len(),
            ev == entries_view(e@),
            forall|j: int| 0 <= j < i ==> ev[j].0 != key@,
        decreases e.len() - i,
    {
        let k = chars_of(e[i].0.as_str());
        if chars_eq(&k, key) {
            proof {
                lemma_find_key_first(ev, key@, i as int);
            }
            return Some(i);
        }
        i = i + 1;
    }
    proof {
        lemma_find_key_bounds(ev, key@);
        if let Some(m) = find_key(ev, key@) {
            assert(ev[m].0 != key@);
        }
    }
    None
}

/// Whether `a` sorts strictly before `b`.
pub fn chars_lt(a: &Vec<char>, b: &Vec<char>) -> (r: bool)
    ensures
        r == key_lt(a@, b@),
{
    let mut i: usize = 0;
    assert(a@.subrange(0, a.len() as int) =~= a@);
    assert(b@.subrange(0, b.len() as int) =~= b@);
    while i < a.len() && i < b.len() && a[i] == b[i]
        invariant
            i <= a.len(),
            i <= b.len(),
            key_lt(a@, b@) == key_lt(a@.subrange(i as int, a.len() as int), b@.subrange(i as int, b.len() as int)),
        decreases a.len() - i,
    {
        proof {
            let sa = a@.subrange(i as int, a.len() as int);
            let sb = b@.subrange(i as int, b.len() as int);
            assert(sa.drop_first() =~= a@.subrange(i as int + 1, a.len() as int));
            assert(sb.drop_first() =~= b@.subrange(i as int + 1, b.len() as int));
        }
        i = i + 1;
    }
    if i == b.len() {
        false
    } else if i == a.len() {
        true
    } else {
        (a[i] as u32) < (b[i] as u32)
    }
}

/// Where a new key goes among the members.
pub fn find_insert_pos(e: &Vec<(String, Json)>, key: &Vec<char>) -> (r: usize)
    ensures
        r as int == insert_pos(entries_view(e@), key@),
{
    let ghost ev = entries_view(e@);
    let mut i: usize = 0;
    while i < e.len()
        invariant
            i <= e.len(),
            ev == entries_view(e@),
            insert_pos(ev.subrange(0, i as int), key@) == i,
        decreases e.len() - i,
    {
        let k = chars_of(e[i].0.as_str());
        proof {
            assert(ev.subrange(0, i as int + 1).drop_last() =~= ev.subrange(0, i as int));
        }
        if !chars_lt(&k, key) {
            proof {
                lemma_insert_pos_prefix(ev, i as int, key@);
            }
            return i;
        }
        i = i + 1;
    }
    assert(ev.subrange(0, e.len() as int) =~= ev);
    i
}

proof fn lemma_insert_pos_prefix(e: Seq<(Seq<char>, JsonV)>, i: int, k: Seq<char>)
    requires
        0 <= i < e.len(),
        insert_pos(e.subrange(0, i), k) == i,
        !key_lt(e[i].0, k),
    ensures
        insert_pos(e, k) == i,
    decreases e.len(),
{
    if i == e.len() - 1 {
        assert(e.drop_last() =~= e.subrange(0, i));
    } else {
        assert(e.drop_last().subrange(0, i) =~= e.subrange(0, i));
        assert(e.drop_last()[i] == e[i]);
        lemma_insert_pos_prefix(e.drop_last(), i, k);
    }
}

/// Stores `v` under `key` in an object's members.
pub fn members_insert(e: &mut Vec<(String, Json)>, key: &Vec<char>, v: Json)
    ensures
        entries_view(final(e)@) == obj_insert(entries_view(old(e)@), key@, v@),
{
    let ghost ev = entries_view(e@);
    match find_member(e, key) {
        Some(i) => {
            proof {
                lemma_find_key_bounds(ev, key@);
            }
            let k = string_from_chars(key);
            e.set(i, (k, v));
            assert(entries_view(e@) =~= ev.update(i as int, (key@, v@)));
        },
        None => {
            let p = find_insert_pos(e, key);
            proof {
                lemma_insert_pos_bounds(ev, key@);
            }
            let k = string_from_chars(key);
            e.insert(p, (k, v));
            assert(entries_view(e@) =~= ev.insert(p as int, (key@, v@)));
        },
    }
}

/// Drops the member stored under `key`, if there is one.
pub fn members_remove(e: &mut Vec<(String, Json)>, key: &Vec<char>)
    ensures
        entries_view(final(e)@) == obj_remove(entries_view(old(e)@), key@),
{
    let ghost ev = entries_view(e@);
    match find_member(e, key) {
        Some(i) => {
            proof {
                lemma_find_key_bounds(ev, key@);
            }
            e.remove(i);
            assert(entries_view(e@) =~= ev.remove(i as int));
        },
        None => {},
    }
}

} // verus!
