//! State history: revisions of the system state with integrity hashes, an
//! in-memory cache of the latest revisions, and differences between states.
use vstd::prelude::*;
use sha2::Digest;
use crate::error::{Error, ErrorV};
use crate::json::{entries_view, find_member, items_view, lemma_array_view, lemma_find_key_bounds, lemma_object_view, lookup, Json, JsonV};
use crate::state::{get_at, remove_at, state_get, SystemState};
use crate::text::split_on;
use std::collections::VecDeque;
use crate::json_text::{json_text, json_to_text};
use crate::text::{append_chars, chars_of, dec_digits, message, string_from_chars, u64_to_dec};

verus! {

/// The number of revisions kept in memory.
pub const MAX_MEMORY_REVISIONS: usize = 100;

/// The SHA-256 digest of some bytes, as the `sha2` crate computes it.
pub uninterp spec fn sha256_bytes(data: Seq<u8>) -> Seq<u8>;

/// Computes the SHA-256 digest of `data` with `sha2::Sha256::digest`, whose
/// output is the 32-byte array that SHA-256 defines; the digest is named, not
/// restated.
#[verifier::external_body]
fn sha256(data: &[u8]) -> (r: Vec<u8>)
    ensures
        r@ == sha256_bytes(data@),
        r@.len() == 32,
{
    sha2::Sha256::digest(data).to_vec()
}

/// Whether a character is a lowercase hexadecimal digit.
pub open spec fn lower_hex(c: char) -> bool {
    ('0' <= c <= '9') || ('a' <= c <= 'f')
}

/// The text of a random (version 4) UUID in hyphenated form: 36 characters,
/// hyphens at positions 8, 13, 18 and 23, lowercase hexadecimal digits
/// elsewhere, the version digit `4` at position 14 and one of `8`, `9`, `a`,
/// `b` (the RFC 4122 variant) at position 19.
pub open spec fn uuid_v4_text(s: Seq<char>) -> bool {
    &&& s.len() == 36
    &&& forall|i: int|
        0 <= i < 36 ==> if i == 8 || i == 13 || i == 18 || i == 23 {
            #[trigger] s[i] == '-'
        } else {
            lower_hex(s[i])
        }
    &&& s[14] == '4'
    &&& (s[19] == '8' || s[19] == '9' || s[19] == 'a' || s[19] == 'b')
}

/// Makes a fresh revision identifier with `uuid::Uuid::new_v4`, written with
/// `Uuid`'s `Display`. The source shows `new_v4` setting the version bits to 4
/// and the variant bits to RFC 4122 over random bits, and `Display` writing the
/// hyphenated lowercase form, so the text has the form `uuid_v4_text` states;
/// its random digits are not known in advance and nothing more is stated. The
/// call panics where the operating system's random source fails, whatever the
/// program's inputs.
#[verifier::external_body]
fn new_revision_id() -> (r: String)
    ensures
        uuid_v4_text(r@),
{
    uuid::Uuid::new_v4().to_string()
}

/// Reads the clock with `chrono::Utc::now`, in milliseconds since the Unix epoch.
/// The time is not known in advance, so nothing is stated of it. The call
/// panics where the system clock reads a time before 1970, whatever the
/// program's inputs.
#[verifier::external_body]
fn now_millis() -> i64 {
    chrono::Utc::now().timestamp_millis()
}

/// The lowercase hexadecimal digits, in order.
pub open spec fn hex_digits() -> Seq<char> {
    "0123456789abcdef"@
}

/// Bytes in lowercase hexadecimal, two digits each, as `{:x}` prints a digest.
pub open spec fn hex_lower(b: Seq<u8>) -> Seq<char>
    decreases b.len(),
{
    if b.len() == 0 {
        Seq::empty()
    } else {
        hex_lower(b.drop_last()) + seq![hex_digits()[(b.last() / 16) as int], hex_digits()[(b.last() % 16) as int]]
    }
}

/// The integrity hash of a state's JSON text.
pub open spec fn state_hash_of(json: Seq<char>) -> Seq<char> {
    hex_lower(sha256_bytes(vstd::utf8::encode_utf8(json)))
}

fn hex_of(b: &Vec<u8>) -> (r: Vec<char>)
    ensures
        r@ == hex_lower(b@),
{
    let digits = chars_of("0123456789abcdef");
    proof {
        reveal_strlit("0123456789abcdef");
    }
    let mut out: Vec<char> = Vec::new();
    let mut i: usize = 0;
    while i < b.len()
        invariant
            i <= b@.len(),
            digits@ == hex_digits(),
            digits@.len() == 16,
            out@ == hex_lower(b@.subrange(0, i as int)),
        decreases b.len() - i,
    {
        let x = b[i];
        proof {
            assert(b@.subrange(0, i as int + 1).drop_last() =~= b@.subrange(0, i as int));
            assert(b@.subrange(0, i as int + 1).last() == x);
        }
        let ghost before = out@;
        out.push(digits[(x / 16) as usize]);
        out.push(digits[(x % 16) as usize]);
        assert(out@ =~= before + seq![hex_digits()[(x / 16) as int], hex_digits()[(x % 16) as int]]);
        i = i + 1;
    }
    assert(b@.subrange(0, b@.len() as int) =~= b@);
    out
}

/// The SHA-256 hash of a text, in lowercase hexadecimal.
pub fn calculate_hash(data: &str) -> (r: String)
    ensures
        r@ == state_hash_of(data@),
{
    let digest = sha256(data.as_bytes());
    string_from_chars(&hex_of(&digest))
}

/// A revision of the system state.
#[derive(Debug)]
pub struct StateRevision {
    /// Unique identifier of the revision.
    pub id: String,
    /// When the revision was made, in milliseconds since the Unix epoch.
    pub timestamp_millis: i64,
    /// The state.
    pub state: SystemState,
    /// What changed.
    pub description: Option<String>,
    /// Who made the change.
    pub changed_by: String,
    /// The revision before this one.
    pub previous_revision_id: Option<String>,
    /// The hash of the state's JSON text.
    pub state_hash: String,
}

pub struct RevisionV {
    pub id: Seq<char>,
    pub timestamp_millis: i64,
    pub state: JsonV,
    pub description: Option<Seq<char>>,
    pub changed_by: Seq<char>,
    pub previous_revision_id: Option<Seq<char>>,
    pub state_hash: Seq<char>,
}

impl View for StateRevision {
    type V = RevisionV;

    open spec fn view(&self) -> RevisionV {
        RevisionV {
            id: self.id@,
            timestamp_millis: self.timestamp_millis,
            state: self.state.data@,
            description: crate::kdl_parser::opt_view(self.description),
            changed_by: self.changed_by@,
            previous_revision_id: crate::kdl_parser::opt_view(self.previous_revision_id),
            state_hash: self.state_hash@,
        }
    }
}

fn copy_opt(o: &Option<String>) -> (r: Option<String>)
    ensures
        crate::kdl_parser::opt_view(r) == crate::kdl_parser::opt_view(*o),
{
    match o {
        Some(s) => Some(s.clone()),
        None => None,
    }
}

/// Whether a revision's recorded hash is the hash of its state's JSON text.
pub open spec fn intact(r: RevisionV) -> bool {
    state_hash_of(json_text(r.state)) == r.state_hash
}

impl StateRevision {
    /// A new revision of `state`, hashed over the state's JSON text, with a fresh
    /// identifier and the current time.
    pub fn new(state: SystemState, changed_by: String, description: Option<String>) -> (r: StateRevision)
        ensures
            uuid_v4_text(r@.id),
            r@.state == state.data@,
            r@.description == crate::kdl_parser::opt_view(description),
            r@.changed_by == changed_by@,
            r@.previous_revision_id is None,
            r@.state_hash == state_hash_of(json_text(state.data@)),
    {
        let state_json = json_to_text(&state.data);
        StateRevision {
            id: new_revision_id(),
            timestamp_millis: now_millis(),
            state,
            description,
            changed_by,
            previous_revision_id: None,
            state_hash: calculate_hash(state_json.as_str()),
        }
    }

    /// Whether the JSON text of this revision's state has the hash
    /// recorded in the revision.
    pub fn verify_integrity(&self) -> (r: bool)
        ensures
            r == intact(self@),
    {
        let state_json = json_to_text(&self.state.data);
        let h = calculate_hash(state_json.as_str());
        crate::text::str_eq(h.as_str(), self.state_hash.as_str())
    }

    /// A copy of the revision.
    pub fn duplicate(&self) -> (r: StateRevision)
        ensures
            r@ == self@,
    {
        StateRevision {
            id: self.id.clone(),
            timestamp_millis: self.timestamp_millis,
            state: SystemState { data: self.state.data.deep_copy() },
            description: copy_opt(&self.description),
            changed_by: self.changed_by.clone(),
            previous_revision_id: copy_opt(&self.previous_revision_id),
            state_hash: self.state_hash.clone(),
        }
    }
}

/// The differences between two states.
#[derive(Debug)]
pub struct StateDiff {
    /// Paths that were added.
    pub added: Vec<String>,
    /// Paths that were removed.
    pub removed: Vec<String>,
    /// Paths that were modified, with the old and the new value.
    pub modified: Vec<(String, Json, Json)>,
}

pub struct DiffV {
    pub added: Seq<Seq<char>>,
    pub removed: Seq<Seq<char>>,
    pub modified: Seq<(Seq<char>, JsonV, JsonV)>,
}

impl View for StateDiff {
    type V = DiffV;

    open spec fn view(&self) -> DiffV {
        DiffV {
            added: crate::kdl_parser::strings_view(self.added@),
            removed: crate::kdl_parser::strings_view(self.removed@),
            modified: Seq::new(self.modified@.len(), |i: int| (self.modified@[i].0@, self.modified@[i].1@, self.modified@[i].2@)),
        }
    }
}

/// The path of member `key` below `path`.
pub open spec fn child_path(path: Seq<char>, key: Seq<char>) -> Seq<char> {
    if path.len() == 0 {
        key
    } else {
        path + "."@ + key
    }
}

/// The differences after comparing `a` with `b` at `path`: objects are compared
/// member by member, recording removed members in the order of `a` and then added
/// members in the order of `b`; any other pair of values that are not equal is a
/// modification.
pub open spec fn diff_into(d: DiffV, a: JsonV, b: JsonV, path: Seq<char>) -> DiffV
    decreases a, 0nat,
{
    match (a, b) {
        (JsonV::Object(e1), JsonV::Object(e2)) => added_members(removed_members(d, e1, e2, path, e1.len()), e1, e2, path, e2.len()),
        _ => if a != b {
            DiffV { modified: d.modified.push((path, a, b)), ..d }
        } else {
            d
        },
    }
}

/// The differences after the first `n` members of `e1` are compared with `e2`.
pub open spec fn removed_members(
    d: DiffV,
    e1: Seq<(Seq<char>, JsonV)>,
    e2: Seq<(Seq<char>, JsonV)>,
    path: Seq<char>,
    n: nat,
) -> DiffV
    decreases e1, n,
{
    if n == 0 || n > e1.len() {
        d
    } else {
        let acc = removed_members(d, e1, e2, path, (n - 1) as nat);
        let (k, v) = e1[n - 1];
        match lookup(e2, k) {
            None => DiffV { removed: acc.removed.push(child_path(path, k)), ..acc },
            Some(w) => diff_into(acc, v, w, child_path(path, k)),
        }
    }
}

/// The differences after the first `n` members of `e2` that `e1` lacks are added.
pub open spec fn added_members(
    d: DiffV,
    e1: Seq<(Seq<char>, JsonV)>,
    e2: Seq<(Seq<char>, JsonV)>,
    path: Seq<char>,
    n: nat,
) -> DiffV
    decreases n,
{
    if n == 0 || n > e2.len() {
        d
    } else {
        let acc = added_members(d, e1, e2, path, (n - 1) as nat);
        let k = e2[n - 1].0;
        if lookup(e1, k) is None {
            DiffV { added: acc.added.push(child_path(path, k)), ..acc }
        } else {
            acc
        }
    }
}

/// No differences.
pub open spec fn no_diff() -> DiffV {
    DiffV { added: Seq::empty(), removed: Seq::empty(), modified: Seq::empty() }
}

/// Whether two values are equal.
pub fn json_eq(a: &Json, b: &Json) -> (r: bool)
    ensures
        r == (a@ == b@),
    decreases a,
{
    match (a, b) {
        (Json::Null, Json::Null) => true,
        (Json::Bool(x), Json::Bool(y)) => *x == *y,
        (Json::PosInt(x), Json::PosInt(y)) => *x == *y,
        (Json::NegInt(x), Json::NegInt(y)) => *x == *y,
        (Json::Float(x), Json::Float(y)) => crate::text::str_eq(x.as_str(), y.as_str()),
        (Json::Str(x), Json::Str(y)) => crate::text::str_eq(x.as_str(), y.as_str()),
        (Json::Array(x), Json::Array(y)) => {
            proof {
                lemma_array_view(*x);
                lemma_array_view(*y);
            }
            if x.len() != y.len() {
                assert(items_view(x@).len() != items_view(y@).len());
                return false;
            }
            let mut i: usize = 0;
            while i < x.len()
                invariant
                    i <= x@.len(),
                    x@.len() == y@.len(),
                    forall|k: int| 0 <= k < i ==> x@[k]@ == y@[k]@,
                    *a == Json::Array(*x),
                    a@ == JsonV::Array(items_view(x@)),
                    b@ == JsonV::Array(items_view(y@)),
                decreases x.len() - i,
            {
                proof {
                    assert(decreases_to!(*a => (*a)->Array_0));
                    assert(decreases_to!(*x => x@));
                    assert(decreases_to!(x@ => x@[i as int]));
                }
                if !json_eq(&x[i], &y[i]) {
                    assert(items_view(x@)[i as int] != items_view(y@)[i as int]);
                    return false;
                }
                i = i + 1;
            }
            assert(items_view(x@) =~= items_view(y@));
            true
        },
        (Json::Object(x), Json::Object(y)) => {
            proof {
                lemma_object_view(*x);
                lemma_object_view(*y);
            }
            if x.len() != y.len() {
                assert(entries_view(x@).len() != entries_view(y@).len());
                return false;
            }
            let mut i: usize = 0;
            while i < x.len()
                invariant
                    i <= x@.len(),
                    x@.len() == y@.len(),
                    forall|k: int| 0 <= k < i ==> x@[k].0@ == y@[k].0@ && x@[k].1@ == y@[k].1@,
                    *a == Json::Object(*x),
                    a@ == JsonV::Object(entries_view(x@)),
                    b@ == JsonV::Object(entries_view(y@)),
                decreases x.len() - i,
            {
                proof {
                    assert(decreases_to!(*a => (*a)->Object_0));
                    assert(decreases_to!(*x => x@));
                    assert(decreases_to!(x@ => x@[i as int]));
                    assert(decreases_to!(x@[i as int] => x@[i as int].1));
                }
                if !crate::text::str_eq(x[i].0.as_str(), y[i].0.as_str()) || !json_eq(&x[i].1, &y[i].1) {
                    assert(entries_view(x@)[i as int] != entries_view(y@)[i as int]);
                    return false;
                }
                i = i + 1;
            }
            assert(entries_view(x@) =~= entries_view(y@));
            true
        },
        _ => false,
    }
}

fn child_path_exec(path: &Vec<char>, key: &str) -> (r: Vec<char>)
    ensures
        r@ == child_path(path@, key@),
{
    if path.len() == 0 {
        chars_of(key)
    } else {
        let mut p = path.clone();
        append_chars(&mut p, &chars_of("."));
        append_chars(&mut p, &chars_of(key));
        p
    }
}

fn push_string(v: &mut Vec<String>, s: &Vec<char>)
    ensures
        crate::kdl_parser::strings_view(final(v)@) == crate::kdl_parser::strings_view(old(v)@).push(s@),
{
    let ghost before = crate::kdl_parser::strings_view(v@);
    v.push(string_from_chars(s));
    assert(crate::kdl_parser::strings_view(v@) =~= before.push(s@));
}

fn diff_json_recursive(a: &Json, b: &Json, path: &Vec<char>, diff: &mut StateDiff)
    ensures
        final(diff)@ == diff_into(old(diff)@, a@, b@, path@),
    decreases a,
{
    match (a, b) {
        (Json::Object(x), Json::Object(y)) => {
            proof {
                lemma_object_view(*x);
                lemma_object_view(*y);
            }
            let ghost e1 = entries_view(x@);
            let ghost e2 = entries_view(y@);
            let ghost d0 = diff@;
            let mut i: usize = 0;
            while i < x.len()
                invariant
                    i <= x@.len(),
                    e1 == entries_view(x@),
                    e2 == entries_view(y@),
                    *a == Json::Object(*x),
                    diff@ == removed_members(d0, e1, e2, path@, i as nat),
                decreases x.len() - i,
            {
                proof {
                    assert(decreases_to!(*a => (*a)->Object_0));
                    assert(decreases_to!(*x => x@));
                    assert(decreases_to!(x@ => x@[i as int]));
                    assert(decreases_to!(x@[i as int] => x@[i as int].1));
                    assert(e1[i as int] == (x@[i as int].0@, x@[i as int].1@));
                }
                let full = child_path_exec(path, x[i].0.as_str());
                match find_member(y, &chars_of(x[i].0.as_str())) {
                    None => {
                        let ghost before = diff@;
                        push_string(&mut diff.removed, &full);
                        assert(diff@ =~= DiffV { removed: before.removed.push(full@), ..before });
                    },
                    Some(j) => {
                        proof {
                            lemma_find_key_bounds(e2, x@[i as int].0@);
                        }
                        diff_json_recursive(&x[i].1, &y[j].1, &full, diff);
                    },
                }
                i = i + 1;
            }
            let ghost d1 = diff@;
            let mut j: usize = 0;
            while j < y.len()
                invariant
                    j <= y@.len(),
                    e1 == entries_view(x@),
                    e2 == entries_view(y@),
                    diff@ == added_members(d1, e1, e2, path@, j as nat),
                decreases y.len() - j,
            {
                proof {
                    assert(e2[j as int] == (y@[j as int].0@, y@[j as int].1@));
                }
                match find_member(x, &chars_of(y[j].0.as_str())) {
                    None => {
                        let full = child_path_exec(path, y[j].0.as_str());
                        let ghost before = diff@;
                        push_string(&mut diff.added, &full);
                        assert(diff@ =~= DiffV { added: before.added.push(full@), ..before });
                    },
                    Some(_) => {},
                }
                j = j + 1;
            }
        },
        _ => {
            if !json_eq(a, b) {
                let ghost before = diff@;
                diff.modified.push((string_from_chars(path), a.deep_copy(), b.deep_copy()));
                assert(diff@.modified =~= before.modified.push((path@, a@, b@)));
            }
        },
    }
}

/// The section of a summary that lists some paths, each after `marker`.
pub open spec fn section(title: Seq<char>, marker: char, paths: Seq<Seq<char>>) -> Seq<char> {
    if paths.len() == 0 {
        Seq::empty()
    } else {
        title + dec_digits(paths.len()) + " paths:\n"@ + path_lines(marker, paths)
    }
}

/// One line for each path, after the marker.
pub open spec fn path_lines(marker: char, paths: Seq<Seq<char>>) -> Seq<char>
    decreases paths.len(),
{
    if paths.len() == 0 {
        Seq::empty()
    } else {
        path_lines(marker, paths.drop_last()) + seq![' ', ' ', marker, ' '] + paths.last() + "\n"@
    }
}

/// The human-readable summary of differences.
pub open spec fn diff_summary(d: DiffV) -> Seq<char> {
    let s = section("Added "@, '+', d.added) + section("Removed "@, '-', d.removed) + section(
        "Modified "@,
        '~',
        Seq::new(d.modified.len(), |i: int| d.modified[i].0),
    );
    if s.len() == 0 {
        "No differences"@
    } else {
        s
    }
}

fn section_exec(out: &mut Vec<char>, title: &str, marker: char, paths: &Vec<String>)
    ensures
        final(out)@ == old(out)@ + section(title@, marker, crate::kdl_parser::strings_view(paths@)),
{
    let ghost pv = crate::kdl_parser::strings_view(paths@);
    if paths.len() == 0 {
        assert(old(out)@ + section(title@, marker, pv) =~= old(out)@);
        return;
    }
    let ghost o0 = out@;
    append_chars(out, &chars_of(title));
    append_chars(out, &u64_to_dec(paths.len() as u64));
    append_chars(out, &chars_of(" paths:\n"));
    let ghost head = out@;
    let mut i: usize = 0;
    while i < paths.len()
        invariant
            i <= paths@.len(),
            pv == crate::kdl_parser::strings_view(paths@),
            out@ == head + path_lines(marker, pv.subrange(0, i as int)),
        decreases paths.len() - i,
    {
        proof {
            assert(pv.subrange(0, i as int + 1).drop_last() =~= pv.subrange(0, i as int));
            assert(pv.subrange(0, i as int + 1).last() == paths@[i as int]@);
        }
        let ghost before = out@;
        out.push(' ');
        out.push(' ');
        out.push(marker);
        out.push(' ');
        append_chars(out, &chars_of(paths[i].as_str()));
        append_chars(out, &chars_of("\n"));
        assert(out@ =~= before + seq![' ', ' ', marker, ' '] + paths@[i as int]@ + "\n"@);
        i = i + 1;
    }
    assert(pv.subrange(0, paths@.len() as int) =~= pv);
    assert(out@ =~= o0 + section(title@, marker, pv));
}

impl StateDiff {
    /// Whether there are no differences.
    pub fn is_empty(&self) -> (r: bool)
        ensures
            r == (self@.added.len() == 0 && self@.removed.len() == 0 && self@.modified.len() == 0),
    {
        self.added.len() == 0 && self.removed.len() == 0 && self.modified.len() == 0
    }

    /// A human-readable summary of the differences.
    pub fn summary(&self) -> (r: String)
        ensures
            r@ == diff_summary(self@),
    {
        let mut out: Vec<char> = Vec::new();
        section_exec(&mut out, "Added ", '+', &self.added);
        section_exec(&mut out, "Removed ", '-', &self.removed);
        let mut paths: Vec<String> = Vec::new();
        let mut i: usize = 0;
        while i < self.modified.len()
            invariant
                i <= self.modified@.len(),
                crate::kdl_parser::strings_view(paths@) =~= Seq::new(i as nat, |k: int| self.modified@[k].0@),
            decreases self.modified.len() - i,
        {
            let ghost before = crate::kdl_parser::strings_view(paths@);
            paths.push(self.modified[i].0.clone());
            assert(crate::kdl_parser::strings_view(paths@) =~= before.push(self.modified@[i as int].0@));
            i = i + 1;
        }
        section_exec(&mut out, "Modified ", '~', &paths);
        assert(crate::kdl_parser::strings_view(paths@) =~= Seq::new(self@.modified.len(), |k: int| self@.modified[k].0));
        if out.len() == 0 {
            let m = "No differences".to_owned();
            m
        } else {
            string_from_chars(&out)
        }
    }
}

/// The differences from `state1` to `state2`.
pub fn diff_states(state1: &SystemState, state2: &SystemState) -> (r: StateDiff)
    ensures
        r@ == diff_into(no_diff(), state1.data@, state2.data@, Seq::empty()),
{
    let mut diff = StateDiff { added: Vec::new(), removed: Vec::new(), modified: Vec::new() };
    assert(diff@.added =~= Seq::<Seq<char>>::empty());
    assert(diff@.removed =~= Seq::<Seq<char>>::empty());
    assert(diff@.modified =~= Seq::<(Seq<char>, JsonV, JsonV)>::empty());
    assert(diff@ =~= no_diff());
    let path: Vec<char> = Vec::new();
    diff_json_recursive(&state1.data, &state2.data, &path, &mut diff);
    diff
}

/// The models of revisions.
pub open spec fn revisions_view(v: Seq<StateRevision>) -> Seq<RevisionV> {
    Seq::new(v.len(), |i: int| v[i]@)
}

/// The cache after a revision is added: the oldest leaves when the cache is full.
pub open spec fn cache_push(c: Seq<RevisionV>, r: RevisionV) -> Seq<RevisionV> {
    if c.len() >= MAX_MEMORY_REVISIONS {
        c.drop_first().push(r)
    } else {
        c.push(r)
    }
}

/// The newest `limit` revisions, newest first.
pub open spec fn history_of(c: Seq<RevisionV>, limit: nat) -> Seq<RevisionV> {
    let n = if limit < c.len() {
        limit
    } else {
        c.len()
    };
    Seq::new(n, |i: int| c[c.len() - 1 - i])
}

/// The position of the first cached revision with identifier `id`.
pub open spec fn cache_index(c: Seq<RevisionV>, id: Seq<char>) -> Option<int>
    decreases c.len(),
{
    if c.len() == 0 {
        None
    } else {
        match cache_index(c.drop_last(), id) {
            Some(i) => Some(i),
            None => if c.last().id == id {
                Some(c.len() - 1)
            } else {
                None
            },
        }
    }
}

/// Keeps the current state and the latest revisions.
#[derive(Debug)]
pub struct StateManager {
    current_state: SystemState,
    state_dir: String,
    revision_cache: VecDeque<StateRevision>,
    current_revision_id: Option<String>,
    auto_persist: bool,
}

impl StateManager {
    pub closed spec fn state_model(&self) -> JsonV {
        self.current_state.data@
    }

    /// The cached revisions, oldest first.
    pub closed spec fn cache(&self) -> Seq<RevisionV> {
        revisions_view(self.revision_cache@)
    }

    pub closed spec fn current_id(&self) -> Option<Seq<char>> {
        crate::kdl_parser::opt_view(self.current_revision_id)
    }

    pub closed spec fn persists(&self) -> bool {
        self.auto_persist
    }

    pub closed spec fn dir(&self) -> Seq<char> {
        self.state_dir@
    }

    /// At most `MAX_MEMORY_REVISIONS` revisions are cached.
    pub open spec fn wf(&self) -> bool {
        self.cache().len() <= MAX_MEMORY_REVISIONS
    }

    /// A manager for the revisions stored in `state_dir`, with the empty state, no
    /// revision yet, and automatic persistence on.
    pub fn new(state_dir: &str) -> (r: StateManager)
        ensures
            r.wf(),
            r.state_model() == JsonV::Object(Seq::empty()),
            r.cache() == Seq::<RevisionV>::empty(),
            r.current_id() is None,
            r.persists(),
            r.dir() == state_dir@,
    {
        let r = StateManager {
            current_state: SystemState::new(),
            state_dir: state_dir.to_owned(),
            revision_cache: VecDeque::new(),
            current_revision_id: None,
            auto_persist: true,
        };
        assert(r.cache() =~= Seq::<RevisionV>::empty());
        r
    }

    /// Sets whether state changes are persisted automatically.
    pub fn set_auto_persist(&mut self, enabled: bool)
        ensures
            final(self).persists() == enabled,
            final(self).state_model() == old(self).state_model(),
            final(self).cache() == old(self).cache(),
            final(self).current_id() == old(self).current_id(),
            final(self).dir() == old(self).dir(),
    {
        self.auto_persist = enabled;
    }

    /// Whether state changes are persisted automatically.
    pub fn auto_persist(&self) -> (r: bool)
        ensures
            r == self.persists(),
    {
        self.auto_persist
    }

    /// The directory where revisions are stored.
    pub fn state_dir(&self) -> (r: &String)
        ensures
            r@ == self.dir(),
    {
        &self.state_dir
    }

    /// The identifier of the current revision.
    pub fn current_revision_id(&self) -> (r: Option<String>)
        ensures
            crate::kdl_parser::opt_view(r) == self.current_id(),
    {
        copy_opt(&self.current_revision_id)
    }

    /// A copy of the current state.
    pub fn get_current_state(&self) -> (r: SystemState)
        ensures
            r.data@ == self.state_model(),
    {
        SystemState { data: self.current_state.data.deep_copy() }
    }

    /// Makes `new_state` the current state, as a
    /// new revision that follows the current one; returns the new revision's
    /// identifier.
    pub fn update_state(
        &mut self,
        new_state: SystemState,
        changed_by: String,
        description: Option<String>,
    ) -> (r: String)
        requires
            old(self).wf(),
        ensures
            final(self).wf(),
            uuid_v4_text(r@),
            final(self).state_model() == new_state.data@,
            final(self).current_id() == Some(r@),
            final(self).cache().len() > 0,
            final(self).cache() == cache_push(old(self).cache(), final(self).cache().last()),
            final(self).cache().last().id == r@,
            final(self).cache().last().state == new_state.data@,
            final(self).cache().last().previous_revision_id == old(self).current_id(),
            final(self).cache().last().changed_by == changed_by@,
            final(self).cache().last().description == crate::kdl_parser::opt_view(description),
            final(self).cache().last().state_hash == state_hash_of(json_text(new_state.data@)),
            final(self).persists() == old(self).persists(),
            final(self).dir() == old(self).dir(),
    {
        let copy = SystemState { data: new_state.data.deep_copy() };
        let mut revision = StateRevision::new(copy, changed_by, description);
        revision.previous_revision_id = copy_opt(&self.current_revision_id);
        let id = revision.id.clone();
        self.current_state = new_state;
        self.current_revision_id = Some(id.clone());
        let ghost c0 = self.cache();
        let ghost rv = revision@;
        if self.revision_cache.len() >= MAX_MEMORY_REVISIONS {
            self.revision_cache.pop_front();
            assert(revisions_view(self.revision_cache@) =~= c0.drop_first());
        }
        let ghost c1 = self.cache();
        self.revision_cache.push_back(revision);
        assert(self.cache() =~= c1.push(rv));
        id
    }

    /// The cached revision with identifier `revision_id`, if it is cached.
    pub fn cached_revision(&self, revision_id: &str) -> (r: Option<StateRevision>)
        ensures
            match cache_index(self.cache(), revision_id@) {
                Some(i) => r is Some && r->0@ == self.cache()[i],
                None => r is None,
            },
    {
        let ghost c = self.cache();
        let mut i: usize = 0;
        while i < self.revision_cache.len()
            invariant
                i <= self.revision_cache@.len(),
                c == self.cache(),
                cache_index(c.subrange(0, i as int), revision_id@) is None,
            decreases self.revision_cache.len() - i,
        {
            proof {
                assert(c.subrange(0, i as int + 1).drop_last() =~= c.subrange(0, i as int));
                assert(c.subrange(0, i as int + 1).last() == self.revision_cache@[i as int]@);
            }
            if crate::text::str_eq(self.revision_cache[i].id.as_str(), revision_id) {
                proof {
                    lemma_cache_index_extends(c, revision_id@, i as int + 1);
                }
                return Some(self.revision_cache[i].duplicate());
            }
            i = i + 1;
        }
        assert(c.subrange(0, c.len() as int) =~= c);
        None
    }

    /// Rolls back to `revision`, the revision with identifier `revision_id`:
    /// refused as not found where `revision` carries another identifier, and
    /// where its state's JSON text does not have the recorded hash; otherwise the
    /// revision's state becomes current, as a new revision made by `system`.
    pub fn rollback_to_revision(&mut self, revision_id: &str, revision: StateRevision) -> (r: Result<
        String,
        Error,
    >)
        requires
            old(self).wf(),
        ensures
            final(self).wf(),
            final(self).persists() == old(self).persists(),
            final(self).dir() == old(self).dir(),
            revision@.id != revision_id@ ==> r is Err && r->Err_0@ == ErrorV::State(
                "Revision "@ + revision_id@ + " not found"@) && final(self).state_model() == old(self).state_model()
                && final(self).cache() == old(self).cache() && final(self).current_id() == old(self).current_id(),
            revision@.id == revision_id@ && !intact(revision@) ==> r is Err && r->Err_0@ == ErrorV::State(
                "Revision "@ + revision_id@ + " failed integrity check"@) && final(self).state_model() == old(self).state_model()
                && final(self).cache() == old(self).cache() && final(self).current_id() == old(self).current_id(),
            revision@.id == revision_id@ && intact(revision@) ==> r is Ok && uuid_v4_text(r->Ok_0@)
                && final(self).state_model() == revision@.state
                && final(self).current_id() == Some(r->Ok_0@)
                && final(self).cache().len() > 0
                && final(self).cache() == cache_push(old(self).cache(), final(self).cache().last())
                && final(self).cache().last().id == r->Ok_0@
                && final(self).cache().last().state == revision@.state
                && final(self).cache().last().state_hash == state_hash_of(json_text(revision@.state))
                && final(self).cache().last().changed_by == "system"@
                && final(self).cache().last().description == Some("Rollback to revision "@ + revision_id@)
                && final(self).cache().last().previous_revision_id == old(self).current_id(),
    {
        if !crate::text::str_eq(revision.id.as_str(), revision_id) {
            let mut t = chars_of(revision_id);
            append_chars(&mut t, &chars_of(" not found"));
            let m = message("Revision ", &t);
            assert(m@ =~= "Revision "@ + revision_id@ + " not found"@);
            return Err(Error::State(m));
        }
        if !revision.verify_integrity() {
            let mut t = chars_of(revision_id);
            append_chars(&mut t, &chars_of(" failed integrity check"));
            let m = message("Revision ", &t);
            assert(m@ =~= "Revision "@ + revision_id@ + " failed integrity check"@);
            return Err(Error::State(m));
        }
        let d = message("Rollback to revision ", &chars_of(revision_id));
        let id = self.update_state(revision.state, "system".to_owned(), Some(d));
        Ok(id)
    }

    /// Takes up `revision`, the latest revision stored on disk: where its state's
    /// JSON text has the recorded hash, its state and
    /// identifier become current and it joins the cache; where not, nothing
    /// changes. Tells whether it was taken up.
    pub fn load_latest_state(&mut self, revision: StateRevision) -> (r: bool)
        requires
            old(self).cache().len() < MAX_MEMORY_REVISIONS,
        ensures
            final(self).wf(),
            r == intact(revision@),
            r ==> final(self).state_model() == revision@.state && final(self).current_id() == Some(revision@.id)
                && final(self).cache() == old(self).cache().push(revision@),
            !r ==> final(self).state_model() == old(self).state_model() && final(self).current_id() == old(self).current_id()
                && final(self).cache() == old(self).cache(),
            final(self).persists() == old(self).persists(),
            final(self).dir() == old(self).dir(),
    {
        if !revision.verify_integrity() {
            return false;
        }
        let ghost c0 = self.cache();
        let ghost rv = revision@;
        self.current_state = SystemState { data: revision.state.data.deep_copy() };
        self.current_revision_id = Some(revision.id.clone());
        self.revision_cache.push_back(revision);
        assert(self.cache() =~= c0.push(rv));
        true
    }

    /// The newest `limit` cached revisions, newest first.
    pub fn get_history(&self, limit: usize) -> (r: Vec<StateRevision>)
        ensures
            revisions_view(r@) == history_of(self.cache(), limit as nat),
    {
        let ghost c = self.cache();
        let n = self.revision_cache.len();
        let mut out: Vec<StateRevision> = Vec::new();
        let mut i: usize = 0;
        while i < n && i < limit
            invariant
                n == c.len(),
                c == self.cache(),
                i <= n,
                i <= limit,
                revisions_view(out@) =~= Seq::new(i as nat, |k: int| c[c.len() - 1 - k]),
            decreases n - i,
        {
            let x = self.revision_cache[n - 1 - i].duplicate();
            let ghost before = revisions_view(out@);
            out.push(x);
            assert(revisions_view(out@) =~= before.push(x@));
            i = i + 1;
        }
        assert(revisions_view(out@) =~= history_of(c, limit as nat));
        out
    }

    /// Replaces the cache with the first `MAX_MEMORY_REVISIONS` revisions of
    /// `history`, in order; refused, with the cache unchanged, where a revision's
    /// state's JSON text does not have its recorded hash.
    pub fn import_history(&mut self, history: Vec<StateRevision>) -> (r: Result<(), Error>)
        requires
            old(self).wf(),
        ensures
            final(self).wf(),
            final(self).state_model() == old(self).state_model(),
            final(self).current_id() == old(self).current_id(),
            (exists|i: int| 0 <= i < history@.len() && !intact(#[trigger] history@[i]@))
                ==> r is Err && final(self).cache() == old(self).cache(),
            (forall|i: int| 0 <= i < history@.len() ==> intact(#[trigger] history@[i]@)) ==> r is Ok
                && final(self).cache() == revisions_view(history@).take(
                if history@.len() < MAX_MEMORY_REVISIONS {
                    history@.len() as int
                } else {
                    MAX_MEMORY_REVISIONS as int
                },
            ),
    {
        let mut i: usize = 0;
        while i < history.len()
            invariant
                i <= history@.len(),
                self.wf(),
                self.cache() == old(self).cache(),
                self.state_model() == old(self).state_model(),
                self.current_id() == old(self).current_id(),
                forall|k: int| 0 <= k < i ==> intact(#[trigger] history@[k]@),
            decreases history.len() - i,
        {
            if !history[i].verify_integrity() {
                let mut t = chars_of(history[i].id.as_str());
                append_chars(&mut t, &chars_of(" failed integrity check during import"));
                return Err(Error::State(message("Revision ", &t)));
            }
            i = i + 1;
        }
        let ghost hv = revisions_view(history@);
        let mut rest = history;
        let mut cache: VecDeque<StateRevision> = VecDeque::new();
        let mut k: usize = 0;
        while rest.len() > 0 && k < MAX_MEMORY_REVISIONS
            invariant
                k <= MAX_MEMORY_REVISIONS,
                k + rest@.len() == hv.len(),
                revisions_view(rest@) == hv.subrange(k as int, hv.len() as int),
                revisions_view(cache@) == hv.take(k as int),
            decreases rest@.len(),
        {
            let ghost r0 = rest@;
            let x = rest.remove(0);
            proof {
                assert(revisions_view(r0)[0] == x@);
                assert(hv.subrange(k as int, hv.len() as int)[0] == hv[k as int]);
                assert(rest@ =~= r0.subrange(1, r0.len() as int));
                assert forall|j: int| 0 <= j < rest@.len() implies revisions_view(rest@)[j] == hv.subrange(k as int + 1, hv.len() as int)[j] by {
                    assert(rest@[j] == r0[j + 1]);
                    assert(revisions_view(r0)[j + 1] == hv.subrange(k as int, hv.len() as int)[j + 1]);
                }
                assert(revisions_view(rest@) =~= hv.subrange(k as int + 1, hv.len() as int));
            }
            let ghost before = revisions_view(cache@);
            let ghost xv = x@;
            assert(xv == hv[k as int]);
            cache.push_back(x);
            assert(revisions_view(cache@) =~= before.push(xv));
            assert(hv.take(k as int + 1) =~= hv.take(k as int).push(hv[k as int]));
            assert(revisions_view(cache@) =~= hv.take(k as int + 1));
            k = k + 1;
        }
        self.revision_cache = cache;
        Ok(())
    }
}

proof fn lemma_cache_index_extends(c: Seq<RevisionV>, id: Seq<char>, k: int)
    requires
        0 < k <= c.len(),
        cache_index(c.subrange(0, k), id) is Some,
    ensures
        cache_index(c, id) == cache_index(c.subrange(0, k), id),
    decreases c.len() - k,
{
    if k < c.len() {
        assert(c.subrange(0, k + 1).drop_last() =~= c.subrange(0, k));
        lemma_cache_index_extends(c, id, k + 1);
    } else {
        assert(c.subrange(0, k) =~= c);
    }
}

/// Every object in the value, at any depth, has no key twice.
pub open spec fn keys_unique(v: JsonV) -> bool
    decreases v, 0nat,
{
    match v {
        JsonV::Object(e) => crate::keyed::names_distinct(e) && members_unique(e, e.len()),
        JsonV::Array(a) => items_unique(a, a.len()),
        _ => true,
    }
}

/// The values of the first `n` members have no key twice in any object.
pub open spec fn members_unique(e: Seq<(Seq<char>, JsonV)>, n: nat) -> bool
    decreases e, n,
{
    if n == 0 || n > e.len() {
        true
    } else {
        members_unique(e, (n - 1) as nat) && keys_unique(e[n - 1].1)
    }
}

/// The first `n` items have no key twice in any object.
pub open spec fn items_unique(a: Seq<JsonV>, n: nat) -> bool
    decreases a, n,
{
    if n == 0 || n > a.len() {
        true
    } else {
        items_unique(a, (n - 1) as nat) && keys_unique(a[n - 1])
    }
}

proof fn lemma_lookup_own_key(e: Seq<(Seq<char>, JsonV)>, i: int)
    requires
        crate::keyed::names_distinct(e),
        0 <= i < e.len(),
    ensures
        lookup(e, e[i].0) == Some(e[i].1),
{
    lemma_find_key_bounds(e, e[i].0);
    match crate::json::find_key(e, e[i].0) {
        Some(j) => {
            if j != i {
                if j < i {
                    assert(e[j].0 != e[i].0);
                } else {
                    assert(e[i].0 != e[j].0);
                }
            }
        },
        None => {
            assert(e[i].0 != e[i].0);
        },
    }
}

proof fn lemma_diff_same(d: DiffV, v: JsonV, path: Seq<char>)
    requires
        keys_unique(v),
    ensures
        diff_into(d, v, v, path) == d,
    decreases v, 0nat,
{
    match v {
        JsonV::Object(e) => {
            lemma_removed_same(d, e, path, e.len());
            lemma_added_same(d, e, path, e.len());
        },
        _ => {},
    }
}

proof fn lemma_removed_same(d: DiffV, e: Seq<(Seq<char>, JsonV)>, path: Seq<char>, n: nat)
    requires
        crate::keyed::names_distinct(e),
        members_unique(e, n),
        n <= e.len(),
    ensures
        removed_members(d, e, e, path, n) == d,
    decreases e, n,
{
    if n > 0 {
        lemma_removed_same(d, e, path, (n - 1) as nat);
        lemma_lookup_own_key(e, n - 1);
        assert(decreases_to!(e => e[n - 1]));
        lemma_diff_same(d, e[n - 1].1, child_path(path, e[n - 1].0));
    }
}

proof fn lemma_added_same(d: DiffV, e: Seq<(Seq<char>, JsonV)>, path: Seq<char>, n: nat)
    requires
        crate::keyed::names_distinct(e),
        n <= e.len(),
    ensures
        added_members(d, e, e, path, n) == d,
    decreases n,
{
    if n > 0 {
        lemma_added_same(d, e, path, (n - 1) as nat);
        lemma_lookup_own_key(e, n - 1);
    }
}

/// A state compared with itself has no differences, where no object in it has a
/// key twice (as holds of every state read from JSON text).
pub proof fn law_diff_with_itself_is_empty(v: JsonV)
    requires
        keys_unique(v),
    ensures
        diff_into(no_diff(), v, v, Seq::empty()) == no_diff(),
{
    lemma_diff_same(no_diff(), v, Seq::empty());
}

/// A state compared with a different scalar or array is one modification at the
/// root, from the old value to the new.
pub proof fn law_diff_of_changed_value(a: JsonV, b: JsonV)
    requires
        a != b,
        !(a is Object && b is Object),
    ensures
        diff_into(no_diff(), a, b, Seq::empty()).modified == seq![(Seq::<char>::empty(), a, b)],
        diff_into(no_diff(), a, b, Seq::empty()).added.len() == 0,
        diff_into(no_diff(), a, b, Seq::empty()).removed.len() == 0,
{
    assert(Seq::<(Seq<char>, JsonV, JsonV)>::empty().push((Seq::<char>::empty(), a, b)) =~= seq![(Seq::<char>::empty(), a, b)]);
}

/// The cache never holds more than `MAX_MEMORY_REVISIONS` revisions, and the
/// newest revision comes first in the history.
pub proof fn law_history_newest_first(c: Seq<RevisionV>, r: RevisionV, limit: nat)
    requires
        c.len() <= MAX_MEMORY_REVISIONS,
        limit > 0,
    ensures
        cache_push(c, r).len() <= MAX_MEMORY_REVISIONS,
        history_of(cache_push(c, r), limit)[0] == r,
        history_of(cache_push(c, r), limit).len() == if limit < cache_push(c, r).len() {
            limit as int
        } else {
            cache_push(c, r).len() as int
        },
{
}

} // verus!

verus! {

proof fn lemma_members_unique_at(e: Seq<(Seq<char>, JsonV)>, n: nat, i: int)
    requires
        members_unique(e, n),
        n <= e.len(),
        0 <= i < n,
    ensures
        keys_unique(e[i].1),
    decreases n,
{
    if i < n - 1 {
        lemma_members_unique_at(e, (n - 1) as nat, i);
    }
}

proof fn lemma_items_unique_at(a: Seq<JsonV>, n: nat, i: int)
    requires
        items_unique(a, n),
        n <= a.len(),
        0 <= i < n,
    ensures
        keys_unique(a[i]),
    decreases n,
{
    if i < n - 1 {
        lemma_items_unique_at(a, (n - 1) as nat, i);
    }
}

/// Every value inside a value whose objects hold no key twice has the same property.
proof fn lemma_get_at_unique(v: JsonV, parts: Seq<Seq<char>>)
    requires
        keys_unique(v),
    ensures
        get_at(v, parts) matches Some(w) ==> keys_unique(w),
    decreases parts.len(),
{
    if parts.len() > 0 {
        match v {
            JsonV::Object(e) => {
                lemma_find_key_bounds(e, parts[0]);
                if let Some(i) = crate::json::find_key(e, parts[0]) {
                    lemma_members_unique_at(e, e.len(), i);
                    lemma_get_at_unique(e[i].1, parts.drop_first());
                }
            },
            JsonV::Array(a) => {
                if let Some(i) = crate::state::parse_index(parts[0]) {
                    if i < a.len() {
                        lemma_items_unique_at(a, a.len(), i as int);
                        lemma_get_at_unique(a[i as int], parts.drop_first());
                    }
                }
            },
            _ => {},
        }
    }
}

/// In a state whose objects hold no key twice, as every state read from JSON
/// text is, a removed path reads as nothing afterwards.
pub proof fn law_get_after_remove_in_read_state(data: JsonV, path: Seq<char>)
    requires
        keys_unique(data),
        path.len() > 0,
        remove_at(data, split_on(path, '.')) is Ok,
        get_at(data, split_on(path, '.').drop_last()) matches Some(JsonV::Object(_)),
    ensures
        state_get(remove_at(data, split_on(path, '.'))->Ok_0, path) is None,
{
    lemma_get_at_unique(data, split_on(path, '.').drop_last());
    crate::state::law_get_after_remove(data, path);
}

} // verus!

verus! {

proof fn lemma_members_unique_all(e: Seq<(Seq<char>, JsonV)>, n: nat)
    requires
        n <= e.len(),
    ensures
        members_unique(e, n) <==> forall|i: int| 0 <= i < n ==> keys_unique(#[trigger] e[i].1),
    decreases n,
{
    if n > 0 {
        lemma_members_unique_all(e, (n - 1) as nat);
    }
}

proof fn lemma_items_unique_all(a: Seq<JsonV>, n: nat)
    requires
        n <= a.len(),
    ensures
        items_unique(a, n) <==> forall|i: int| 0 <= i < n ==> keys_unique(#[trigger] a[i]),
    decreases n,
{
    if n > 0 {
        lemma_items_unique_all(a, (n - 1) as nat);
    }
}

/// Storing a value with no key twice under a key keeps an object's keys distinct.
proof fn lemma_obj_insert_unique(e: Seq<(Seq<char>, JsonV)>, k: Seq<char>, v: JsonV)
    requires
        keys_unique(JsonV::Object(e)),
        keys_unique(v),
    ensures
        keys_unique(JsonV::Object(crate::json::obj_insert(e, k, v))),
{
    let r = crate::json::obj_insert(e, k, v);
    lemma_find_key_bounds(e, k);
    lemma_members_unique_all(e, e.len());
    crate::json::lemma_insert_pos_bounds(e, k);
    match crate::json::find_key(e, k) {
        Some(i) => {
            assert forall|a: int, b: int| 0 <= a < b < r.len() implies r[a].0 != r[b].0 by {
                if a != i && b != i {
                    assert(r[a] == e[a] && r[b] == e[b]);
                } else if a == i {
                    assert(r[b] == e[b]);
                } else {
                    assert(r[a] == e[a]);
                }
            }
            assert forall|j: int| 0 <= j < r.len() implies keys_unique(#[trigger] r[j].1) by {
                if j != i {
                    assert(r[j] == e[j]);
                }
            }
        },
        None => {
            let p = crate::json::insert_pos(e, k);
            assert forall|a: int, b: int| 0 <= a < b < r.len() implies r[a].0 != r[b].0 by {
                if b < p {
                    assert(r[a] == e[a] && r[b] == e[b]);
                } else if b == p {
                    assert(r[a] == e[a]);
                } else if a < p {
                    assert(r[a] == e[a] && r[b] == e[b - 1]);
                } else if a == p {
                    assert(r[b] == e[b - 1]);
                } else {
                    assert(r[a] == e[a - 1] && r[b] == e[b - 1]);
                }
            }
            assert forall|j: int| 0 <= j < r.len() implies keys_unique(#[trigger] r[j].1) by {
                if j < p {
                    assert(r[j] == e[j]);
                } else if j > p {
                    assert(r[j] == e[j - 1]);
                }
            }
        },
    }
    lemma_members_unique_all(r, r.len());
}

/// Dropping a key keeps an object's keys distinct.
proof fn lemma_obj_remove_unique(e: Seq<(Seq<char>, JsonV)>, k: Seq<char>)
    requires
        keys_unique(JsonV::Object(e)),
    ensures
        keys_unique(JsonV::Object(crate::json::obj_remove(e, k))),
{
    let r = crate::json::obj_remove(e, k);
    lemma_find_key_bounds(e, k);
    lemma_members_unique_all(e, e.len());
    if let Some(i) = crate::json::find_key(e, k) {
        assert forall|a: int, b: int| 0 <= a < b < r.len() implies r[a].0 != r[b].0 by {
            if b < i {
                assert(r[a] == e[a] && r[b] == e[b]);
            } else if a < i {
                assert(r[a] == e[a] && r[b] == e[b + 1]);
            } else {
                assert(r[a] == e[a + 1] && r[b] == e[b + 1]);
            }
        }
        assert forall|j: int| 0 <= j < r.len() implies keys_unique(#[trigger] r[j].1) by {
            if j < i {
                assert(r[j] == e[j]);
            } else {
                assert(r[j] == e[j + 1]);
            }
        }
    }
    lemma_members_unique_all(r, r.len());
}

proof fn lemma_array_update_unique(a: Seq<JsonV>, i: int, v: JsonV)
    requires
        keys_unique(JsonV::Array(a)),
        keys_unique(v),
        0 <= i < a.len(),
    ensures
        keys_unique(JsonV::Array(a.update(i, v))),
{
    lemma_items_unique_all(a, a.len());
    assert forall|j: int| 0 <= j < a.len() implies keys_unique(#[trigger] a.update(i, v)[j]) by {
        if j != i {
            assert(a.update(i, v)[j] == a[j]);
        }
    }
    lemma_items_unique_all(a.update(i, v), a.len());
}

proof fn lemma_array_remove_unique(a: Seq<JsonV>, i: int)
    requires
        keys_unique(JsonV::Array(a)),
        0 <= i < a.len(),
    ensures
        keys_unique(JsonV::Array(a.remove(i))),
{
    lemma_items_unique_all(a, a.len());
    assert forall|j: int| 0 <= j < a.len() - 1 implies keys_unique(#[trigger] a.remove(i)[j]) by {
        if j < i {
            assert(a.remove(i)[j] == a[j]);
        } else {
            assert(a.remove(i)[j] == a[j + 1]);
        }
    }
    lemma_items_unique_all(a.remove(i), (a.len() - 1) as nat);
}

proof fn lemma_set_at_unique(v: JsonV, parts: Seq<Seq<char>>, value: JsonV)
    requires
        keys_unique(v),
        keys_unique(value),
    ensures
        crate::state::set_at(v, parts, value) matches Ok(w) ==> keys_unique(w),
    decreases parts.len(),
{
    if parts.len() == 1 {
        match v {
            JsonV::Object(e) => lemma_obj_insert_unique(e, parts[0], value),
            JsonV::Array(a) => {
                if let Some(i) = crate::state::parse_index(parts[0]) {
                    if i < a.len() {
                        lemma_array_update_unique(a, i as int, value);
                    }
                }
            },
            _ => {},
        }
    } else if parts.len() > 1 {
        match v {
            JsonV::Object(e) => {
                let child = match crate::json::lookup(e, parts[0]) {
                    Some(c) => c,
                    None => JsonV::Object(Seq::empty()),
                };
                lemma_find_key_bounds(e, parts[0]);
                if let Some(i) = crate::json::find_key(e, parts[0]) {
                    lemma_members_unique_at(e, e.len(), i);
                }
                lemma_set_at_unique(child, parts.drop_first(), value);
                if let Ok(c2) = crate::state::set_at(child, parts.drop_first(), value) {
                    lemma_obj_insert_unique(e, parts[0], c2);
                }
            },
            JsonV::Array(a) => {
                if let Some(i) = crate::state::parse_index(parts[0]) {
                    if i < a.len() {
                        lemma_items_unique_at(a, a.len(), i as int);
                        lemma_set_at_unique(a[i as int], parts.drop_first(), value);
                        if let Ok(c2) = crate::state::set_at(a[i as int], parts.drop_first(), value) {
                            lemma_array_update_unique(a, i as int, c2);
                        }
                    }
                }
            },
            _ => {},
        }
    }
}

proof fn lemma_remove_at_unique(v: JsonV, parts: Seq<Seq<char>>)
    requires
        keys_unique(v),
    ensures
        remove_at(v, parts) matches Ok(w) ==> keys_unique(w),
    decreases parts.len(),
{
    if parts.len() == 1 {
        match v {
            JsonV::Object(e) => lemma_obj_remove_unique(e, parts[0]),
            JsonV::Array(a) => {
                if let Some(i) = crate::state::parse_index(parts[0]) {
                    if i < a.len() {
                        lemma_array_remove_unique(a, i as int);
                    }
                }
            },
            _ => {},
        }
    } else if parts.len() > 1 {
        match v {
            JsonV::Object(e) => {
                lemma_find_key_bounds(e, parts[0]);
                if let Some(i) = crate::json::find_key(e, parts[0]) {
                    lemma_members_unique_at(e, e.len(), i);
                    lemma_remove_at_unique(e[i].1, parts.drop_first());
                    if let Ok(c2) = remove_at(e[i].1, parts.drop_first()) {
                        lemma_obj_insert_unique(e, parts[0], c2);
                    }
                }
            },
            JsonV::Array(a) => {
                if let Some(i) = crate::state::parse_index(parts[0]) {
                    if i < a.len() {
                        lemma_items_unique_at(a, a.len(), i as int);
                        lemma_remove_at_unique(a[i as int], parts.drop_first());
                        if let Ok(c2) = remove_at(a[i as int], parts.drop_first()) {
                            lemma_array_update_unique(a, i as int, c2);
                        }
                    }
                }
            },
            _ => {},
        }
    }
}

/// Setting a value whose objects hold no key twice, and removing a path, keep a
/// state's objects free of repeated keys: the property that every state read
/// from JSON text has is kept by every change.
pub proof fn law_changes_keep_keys_distinct(data: JsonV, path: Seq<char>, value: JsonV)
    requires
        keys_unique(data),
        keys_unique(value),
    ensures
        crate::state::state_set(data, path, value) matches Ok(w) ==> keys_unique(w),
        path.len() > 0 ==> (remove_at(data, split_on(path, '.')) matches Ok(w) ==> keys_unique(w)),
{
    if path.len() > 0 {
        lemma_set_at_unique(data, split_on(path, '.'), value);
        lemma_remove_at_unique(data, split_on(path, '.'));
    }
}

} // verus!

verus! {

/// `d` followed by the differences of `x`.
pub open spec fn diff_then(d: DiffV, x: DiffV) -> DiffV {
    DiffV { added: d.added + x.added, removed: d.removed + x.removed, modified: d.modified + x.modified }
}

proof fn lemma_diff_then_assoc(d: DiffV, x: DiffV, y: DiffV)
    ensures
        diff_then(diff_then(d, x), y) == diff_then(d, diff_then(x, y)),
{
    assert(diff_then(diff_then(d, x), y).added =~= diff_then(d, diff_then(x, y)).added);
    assert(diff_then(diff_then(d, x), y).removed =~= diff_then(d, diff_then(x, y)).removed);
    assert(diff_then(diff_then(d, x), y).modified =~= diff_then(d, diff_then(x, y)).modified);
}

proof fn lemma_diff_then_empty(d: DiffV)
    ensures
        diff_then(d, no_diff()) == d,
        diff_then(no_diff(), d) == d,
{
    assert(diff_then(d, no_diff()).added =~= d.added);
    assert(diff_then(d, no_diff()).removed =~= d.removed);
    assert(diff_then(d, no_diff()).modified =~= d.modified);
    assert(diff_then(no_diff(), d).added =~= d.added);
    assert(diff_then(no_diff(), d).removed =~= d.removed);
    assert(diff_then(no_diff(), d).modified =~= d.modified);
}

/// What a comparison adds does not depend on what came before it.
proof fn lemma_diff_frame(d: DiffV, a: JsonV, b: JsonV, path: Seq<char>)
    ensures
        diff_into(d, a, b, path) == diff_then(d, diff_into(no_diff(), a, b, path)),
    decreases a, 0nat,
{
    match (a, b) {
        (JsonV::Object(e1), JsonV::Object(e2)) => {
            lemma_removed_frame(d, e1, e2, path, e1.len());
            let r0 = removed_members(no_diff(), e1, e2, path, e1.len());
            lemma_added_frame(removed_members(d, e1, e2, path, e1.len()), e1, e2, path, e2.len());
            lemma_added_frame(r0, e1, e2, path, e2.len());
            lemma_diff_then_assoc(d, r0, added_members(no_diff(), e1, e2, path, e2.len()));
        },
        _ => {
            if a != b {
                let nd = no_diff();
                assert(diff_into(d, a, b, path).modified =~= d.modified + nd.modified.push((path, a, b)));
                assert(diff_into(d, a, b, path).added =~= d.added + nd.added);
                assert(diff_into(d, a, b, path).removed =~= d.removed + nd.removed);
            } else {
                lemma_diff_then_empty(d);
            }
        },
    }
}

proof fn lemma_removed_frame(d: DiffV, e1: Seq<(Seq<char>, JsonV)>, e2: Seq<(Seq<char>, JsonV)>, path: Seq<char>, n: nat)
    ensures
        removed_members(d, e1, e2, path, n) == diff_then(d, removed_members(no_diff(), e1, e2, path, n)),
    decreases e1, n,
{
    if n == 0 || n > e1.len() {
        lemma_diff_then_empty(d);
    } else {
        lemma_removed_frame(d, e1, e2, path, (n - 1) as nat);
        let acc = removed_members(d, e1, e2, path, (n - 1) as nat);
        let acc0 = removed_members(no_diff(), e1, e2, path, (n - 1) as nat);
        let (k, v) = e1[n - 1];
        match lookup(e2, k) {
            None => {
                let x = child_path(path, k);
                assert(removed_members(d, e1, e2, path, n).removed =~= d.removed + acc0.removed.push(x));
                assert(removed_members(d, e1, e2, path, n).added =~= d.added + acc0.added);
                assert(removed_members(d, e1, e2, path, n).modified =~= d.modified + acc0.modified);
            },
            Some(w) => {
                assert(decreases_to!(e1 => e1[n - 1]));
                let q = child_path(path, k);
                lemma_diff_frame(acc, v, w, q);
                lemma_diff_frame(acc0, v, w, q);
                lemma_diff_then_assoc(d, acc0, diff_into(no_diff(), v, w, q));
            },
        }
    }
}

proof fn lemma_added_frame(d: DiffV, e1: Seq<(Seq<char>, JsonV)>, e2: Seq<(Seq<char>, JsonV)>, path: Seq<char>, n: nat)
    ensures
        added_members(d, e1, e2, path, n) == diff_then(d, added_members(no_diff(), e1, e2, path, n)),
        added_members(no_diff(), e1, e2, path, n).removed.len() == 0,
    decreases n,
{
    if n == 0 || n > e2.len() {
        lemma_diff_then_empty(d);
    } else {
        lemma_added_frame(d, e1, e2, path, (n - 1) as nat);
        let acc0 = added_members(no_diff(), e1, e2, path, (n - 1) as nat);
        let k = e2[n - 1].0;
        if lookup(e1, k) is None {
            let x = child_path(path, k);
            assert(added_members(d, e1, e2, path, n).added =~= d.added + acc0.added.push(x));
            assert(added_members(d, e1, e2, path, n).removed =~= d.removed + acc0.removed);
            assert(added_members(d, e1, e2, path, n).modified =~= d.modified + acc0.modified);
        }
    }
}

/// The value reached from `v` by following the member keys `ks` in turn.
pub open spec fn member_at(v: JsonV, ks: Seq<Seq<char>>) -> Option<JsonV>
    decreases ks.len(),
{
    if ks.len() == 0 {
        Some(v)
    } else {
        match v {
            JsonV::Object(e) => match lookup(e, ks[0]) {
                Some(w) => member_at(w, ks.drop_first()),
                None => None,
            },
            _ => None,
        }
    }
}

/// The dotted path of the member reached by the keys `ks` below `p`: each key
/// joined to the path before it with a dot, or alone after an empty path.
pub open spec fn dotted(p: Seq<char>, ks: Seq<Seq<char>>) -> Seq<char>
    decreases ks.len(),
{
    if ks.len() == 0 {
        p
    } else {
        dotted(
            if p.len() == 0 {
                ks[0]
            } else {
                p + "."@ + ks[0]
            },
            ks.drop_first(),
        )
    }
}

proof fn lemma_removed_lists_member(e1: Seq<(Seq<char>, JsonV)>, e2: Seq<(Seq<char>, JsonV)>, path: Seq<char>, n: nat, j: int)
    requires
        0 <= j < n <= e1.len(),
        forall|i: int| 0 <= i < e2.len() ==> e2[i].0 != e1[j].0,
    ensures
        removed_members(no_diff(), e1, e2, path, n).removed.contains(child_path(path, e1[j].0)),
    decreases n,
{
    let acc0 = removed_members(no_diff(), e1, e2, path, (n - 1) as nat);
    let (k, v) = e1[n - 1];
    if j == n - 1 {
        lemma_find_key_bounds(e2, k);
        assert(removed_members(no_diff(), e1, e2, path, n).removed == acc0.removed.push(child_path(path, k)));
        assert(acc0.removed.push(child_path(path, k))[acc0.removed.len() as int] == child_path(path, k));
    } else {
        lemma_removed_lists_member(e1, e2, path, (n - 1) as nat, j);
        let x = child_path(path, e1[j].0);
        let i = choose|i: int| 0 <= i < acc0.removed.len() && acc0.removed[i] == x;
        match lookup(e2, k) {
            None => {
                assert(removed_members(no_diff(), e1, e2, path, n).removed[i] == x);
            },
            Some(w) => {
                lemma_diff_frame(acc0, v, w, child_path(path, k));
                assert(removed_members(no_diff(), e1, e2, path, n).removed[i] == x);
            },
        }
    }
}

proof fn lemma_added_lists_member(e1: Seq<(Seq<char>, JsonV)>, e2: Seq<(Seq<char>, JsonV)>, path: Seq<char>, n: nat, j: int)
    requires
        0 <= j < n <= e2.len(),
        forall|i: int| 0 <= i < e1.len() ==> e1[i].0 != e2[j].0,
    ensures
        added_members(no_diff(), e1, e2, path, n).added.contains(child_path(path, e2[j].0)),
    decreases n,
{
    let acc0 = added_members(no_diff(), e1, e2, path, (n - 1) as nat);
    let k = e2[n - 1].0;
    if j == n - 1 {
        lemma_find_key_bounds(e1, k);
        assert(added_members(no_diff(), e1, e2, path, n).added == acc0.added.push(child_path(path, k)));
        assert(acc0.added.push(child_path(path, k))[acc0.added.len() as int] == child_path(path, k));
    } else {
        lemma_added_lists_member(e1, e2, path, (n - 1) as nat, j);
        let x = child_path(path, e2[j].0);
        let i = choose|i: int| 0 <= i < acc0.added.len() && acc0.added[i] == x;
        assert(added_members(no_diff(), e1, e2, path, n).added[i] == x);
    }
}

proof fn lemma_removed_keeps_nested(
    e1: Seq<(Seq<char>, JsonV)>,
    e2: Seq<(Seq<char>, JsonV)>,
    path: Seq<char>,
    n: nat,
    j: int,
    w: JsonV,
    x: Seq<char>,
)
    requires
        0 <= j < n <= e1.len(),
        lookup(e2, e1[j].0) == Some(w),
    ensures
        diff_into(no_diff(), e1[j].1, w, child_path(path, e1[j].0)).removed.contains(x) ==> removed_members(
            no_diff(),
            e1,
            e2,
            path,
            n,
        ).removed.contains(x),
        diff_into(no_diff(), e1[j].1, w, child_path(path, e1[j].0)).added.contains(x) ==> removed_members(
            no_diff(),
            e1,
            e2,
            path,
            n,
        ).added.contains(x),
    decreases n,
{
    let acc0 = removed_members(no_diff(), e1, e2, path, (n - 1) as nat);
    let (k, v) = e1[n - 1];
    let r = removed_members(no_diff(), e1, e2, path, n);
    let dj = diff_into(no_diff(), e1[j].1, w, child_path(path, e1[j].0));
    if j == n - 1 {
        lemma_diff_frame(acc0, v, w, child_path(path, k));
        if dj.removed.contains(x) {
            let i = choose|i: int| 0 <= i < dj.removed.len() && dj.removed[i] == x;
            assert(r.removed[acc0.removed.len() + i] == x);
        }
        if dj.added.contains(x) {
            let i = choose|i: int| 0 <= i < dj.added.len() && dj.added[i] == x;
            assert(r.added[acc0.added.len() + i] == x);
        }
    } else {
        lemma_removed_keeps_nested(e1, e2, path, (n - 1) as nat, j, w, x);
        match lookup(e2, k) {
            None => {},
            Some(w2) => {
                lemma_diff_frame(acc0, v, w2, child_path(path, k));
            },
        }
        if dj.removed.contains(x) {
            let i = choose|i: int| 0 <= i < acc0.removed.len() && acc0.removed[i] == x;
            assert(r.removed[i] == x);
        }
        if dj.added.contains(x) {
            let i = choose|i: int| 0 <= i < acc0.added.len() && acc0.added[i] == x;
            assert(r.added[i] == x);
        }
    }
}

proof fn lemma_child_is_dotted(p: Seq<char>, k: Seq<char>)
    ensures
        child_path(p, k) == (if p.len() == 0 {
            k
        } else {
            p + "."@ + k
        }),
{
}

/// Comparing two states reports a member that only the old one has as removed,
/// and one that only the new one has as added, each under its full dotted path,
/// at any depth: `ks` leads, in both states, to the objects that hold or lack
/// the member `k`.
pub proof fn law_diff_reports_members_under_full_path(a: JsonV, b: JsonV, p: Seq<char>, ks: Seq<Seq<char>>, k: Seq<char>)
    requires
        member_at(a, ks) matches Some(JsonV::Object(e1)),
        member_at(b, ks) matches Some(JsonV::Object(e2)),
    ensures
        (member_at(a, ks) matches Some(JsonV::Object(e1)) && member_at(b, ks) matches Some(JsonV::Object(e2))
            && (exists|j: int| 0 <= j < e1.len() && e1[j].0 == k) && (forall|j: int| 0 <= j < e2.len() ==> e2[j].0 != k))
            ==> diff_into(no_diff(), a, b, p).removed.contains(dotted(p, ks.push(k))),
        (member_at(a, ks) matches Some(JsonV::Object(e1)) && member_at(b, ks) matches Some(JsonV::Object(e2))
            && (exists|j: int| 0 <= j < e2.len() && e2[j].0 == k) && (forall|j: int| 0 <= j < e1.len() ==> e1[j].0 != k))
            ==> diff_into(no_diff(), a, b, p).added.contains(dotted(p, ks.push(k))),
    decreases ks.len(),
{
    let t = dotted(p, ks.push(k));
    if ks.len() == 0 {
        let e1 = a->Object_0;
        let e2 = b->Object_0;
        assert(ks.push(k) =~= seq![k]);
        assert(seq![k].drop_first() =~= Seq::<Seq<char>>::empty());
        assert(ks.push(k)[0] == k);
        let c = if p.len() == 0 {
            k
        } else {
            p + "."@ + k
        };
        assert(t == dotted(c, ks.push(k).drop_first()));
        assert(dotted(c, Seq::<Seq<char>>::empty()) == c);
        assert(t == child_path(p, k));
        let r = removed_members(no_diff(), e1, e2, p, e1.len());
        lemma_added_frame(r, e1, e2, p, e2.len());
        let am = added_members(no_diff(), e1, e2, p, e2.len());
        assert(diff_into(no_diff(), a, b, p) == diff_then(r, am));
        if (exists|j: int| 0 <= j < e1.len() && e1[j].0 == k) && (forall|j: int| 0 <= j < e2.len() ==> e2[j].0 != k) {
            let j = choose|j: int| 0 <= j < e1.len() && e1[j].0 == k;
            lemma_removed_lists_member(e1, e2, p, e1.len(), j);
            let i = choose|i: int| 0 <= i < r.removed.len() && r.removed[i] == t;
            assert(diff_then(r, am).removed[i] == t);
        }
        if (exists|j: int| 0 <= j < e2.len() && e2[j].0 == k) && (forall|j: int| 0 <= j < e1.len() ==> e1[j].0 != k) {
            let j = choose|j: int| 0 <= j < e2.len() && e2[j].0 == k;
            lemma_added_frame(no_diff(), e1, e2, p, e2.len());
            lemma_added_lists_member(e1, e2, p, e2.len(), j);
            let i = choose|i: int| 0 <= i < am.added.len() && am.added[i] == t;
            assert(diff_then(r, am).added[r.added.len() + i] == t);
        }
    } else {
        let e1 = a->Object_0;
        let e2 = b->Object_0;
        let k0 = ks[0];
        let v = lookup(e1, k0)->Some_0;
        let w = lookup(e2, k0)->Some_0;
        let q = child_path(p, k0);
        let rest = ks.drop_first();
        assert(member_at(v, rest) == member_at(a, ks));
        assert(member_at(w, rest) == member_at(b, ks));
        law_diff_reports_members_under_full_path(v, w, q, rest, k);
        lemma_child_is_dotted(p, k0);
        assert(ks.push(k).drop_first() =~= rest.push(k));
        assert(ks.push(k)[0] == k0);
        assert(t == dotted(q, rest.push(k)));
        lemma_find_key_bounds(e1, k0);
        let j = crate::json::find_key(e1, k0)->Some_0;
        assert(e1[j].1 == v && e1[j].0 == k0);
        let dd = diff_into(no_diff(), v, w, q);
        let r = removed_members(no_diff(), e1, e2, p, e1.len());
        lemma_added_frame(r, e1, e2, p, e2.len());
        let am = added_members(no_diff(), e1, e2, p, e2.len());
        assert(diff_into(no_diff(), a, b, p) == diff_then(r, am));
        lemma_removed_keeps_nested(e1, e2, p, e1.len(), j, w, t);
        if dd.removed.contains(t) {
            let i = choose|i: int| 0 <= i < r.removed.len() && r.removed[i] == t;
            assert(diff_then(r, am).removed[i] == t);
        }
        if dd.added.contains(t) {
            let i = choose|i: int| 0 <= i < r.added.len() && r.added[i] == t;
            assert(diff_then(r, am).added[i] == t);
        }
    }
}

proof fn lemma_removed_keeps_nested_change(
    e1: Seq<(Seq<char>, JsonV)>,
    e2: Seq<(Seq<char>, JsonV)>,
    path: Seq<char>,
    n: nat,
    j: int,
    w: JsonV,
    z: (Seq<char>, JsonV, JsonV),
)
    requires
        0 <= j < n <= e1.len(),
        lookup(e2, e1[j].0) == Some(w),
        diff_into(no_diff(), e1[j].1, w, child_path(path, e1[j].0)).modified.contains(z),
    ensures
        removed_members(no_diff(), e1, e2, path, n).modified.contains(z),
    decreases n,
{
    let acc0 = removed_members(no_diff(), e1, e2, path, (n - 1) as nat);
    let (k, v) = e1[n - 1];
    let r = removed_members(no_diff(), e1, e2, path, n);
    let dj = diff_into(no_diff(), e1[j].1, w, child_path(path, e1[j].0));
    if j == n - 1 {
        lemma_diff_frame(acc0, v, w, child_path(path, k));
        let i = choose|i: int| 0 <= i < dj.modified.len() && dj.modified[i] == z;
        assert(r.modified[acc0.modified.len() + i] == z);
    } else {
        lemma_removed_keeps_nested_change(e1, e2, path, (n - 1) as nat, j, w, z);
        match lookup(e2, k) {
            None => {},
            Some(w2) => {
                lemma_diff_frame(acc0, v, w2, child_path(path, k));
            },
        }
        let i = choose|i: int| 0 <= i < acc0.modified.len() && acc0.modified[i] == z;
        assert(r.modified[i] == z);
    }
}

/// Comparing two states reports a value that differs, where it is not an object
/// on both sides, as modified under its full dotted path, with its old and its
/// new value, at any depth: `ks` leads to the value in both states.
pub proof fn law_diff_reports_changed_value_under_full_path(a: JsonV, b: JsonV, p: Seq<char>, ks: Seq<Seq<char>>)
    requires
        member_at(a, ks) is Some,
        member_at(b, ks) is Some,
        member_at(a, ks) != member_at(b, ks),
        !(member_at(a, ks)->Some_0 is Object && member_at(b, ks)->Some_0 is Object),
    ensures
        diff_into(no_diff(), a, b, p).modified.contains((dotted(p, ks), member_at(a, ks)->Some_0, member_at(b, ks)->Some_0)),
    decreases ks.len(),
{
    let z = (dotted(p, ks), member_at(a, ks)->Some_0, member_at(b, ks)->Some_0);
    if ks.len() == 0 {
        assert(diff_into(no_diff(), a, b, p).modified == no_diff().modified.push((p, a, b)));
        assert(diff_into(no_diff(), a, b, p).modified[0] == z);
    } else {
        let e1 = a->Object_0;
        let e2 = b->Object_0;
        let k0 = ks[0];
        let v = lookup(e1, k0)->Some_0;
        let w = lookup(e2, k0)->Some_0;
        let q = child_path(p, k0);
        let rest = ks.drop_first();
        law_diff_reports_changed_value_under_full_path(v, w, q, rest);
        lemma_child_is_dotted(p, k0);
        assert(dotted(p, ks) == dotted(q, rest));
        lemma_find_key_bounds(e1, k0);
        let j = crate::json::find_key(e1, k0)->Some_0;
        lemma_removed_keeps_nested_change(e1, e2, p, e1.len(), j, w, z);
        let r = removed_members(no_diff(), e1, e2, p, e1.len());
        lemma_added_frame(r, e1, e2, p, e2.len());
        let am = added_members(no_diff(), e1, e2, p, e2.len());
        let i = choose|i: int| 0 <= i < r.modified.len() && r.modified[i] == z;
        assert(diff_then(r, am).modified[i] == z);
    }
}

} // verus!

verus! {

proof fn lemma_substring_within(a: Seq<char>, x: Seq<char>, b: Seq<char>, t: Seq<char>)
    requires
        crate::text::has_substring(x, t),
    ensures
        crate::text::has_substring(a + x + b, t),
{
    let i = choose|i: int| 0 <= i && i + t.len() <= x.len() && #[trigger] x.subrange(i, i + t.len()) == t;
    assert((a + x + b).subrange(a.len() + i, a.len() + i + t.len()) =~= x.subrange(i, i + t.len()));
}

/// The summary line of a path.
pub open spec fn summary_line(marker: char, p: Seq<char>) -> Seq<char> {
    seq![' ', ' ', marker, ' '] + p + seq!['\n']
}

proof fn lemma_path_lines_hold(marker: char, paths: Seq<Seq<char>>, k: int)
    requires
        0 <= k < paths.len(),
    ensures
        crate::text::has_substring(path_lines(marker, paths), summary_line(marker, paths[k])),
    decreases paths.len(),
{
    reveal_strlit("\n");
    let pre = path_lines(marker, paths.drop_last());
    let last = seq![' ', ' ', marker, ' '] + paths.last() + "\n"@;
    assert(path_lines(marker, paths) == pre + last);
    if k == paths.len() - 1 {
        assert(last =~= summary_line(marker, paths[k]));
        assert((pre + last).subrange(pre.len() as int, (pre + last).len() as int) =~= last);
    } else {
        assert(paths.drop_last()[k] == paths[k]);
        lemma_path_lines_hold(marker, paths.drop_last(), k);
        lemma_substring_within(Seq::empty(), pre, last, summary_line(marker, paths[k]));
        assert(Seq::<char>::empty() + pre + last =~= pre + last);
    }
}

/// The summary lists every added path after `+`, every removed path after `-`
/// and every modified path after `~`, each on a line of its own; with no
/// difference it is `No differences`.
pub proof fn law_summary_lists_every_path(d: DiffV, k: int)
    ensures
        0 <= k < d.added.len() ==> crate::text::has_substring(diff_summary(d), summary_line('+', d.added[k])),
        0 <= k < d.removed.len() ==> crate::text::has_substring(diff_summary(d), summary_line('-', d.removed[k])),
        0 <= k < d.modified.len() ==> crate::text::has_substring(diff_summary(d), summary_line('~', d.modified[k].0)),
        (d.added.len() == 0 && d.removed.len() == 0 && d.modified.len() == 0) ==> diff_summary(d) == "No differences"@,
{
    let sa = section("Added "@, '+', d.added);
    let sr = section("Removed "@, '-', d.removed);
    let mp = Seq::new(d.modified.len(), |i: int| d.modified[i].0);
    let sm = section("Modified "@, '~', mp);
    let s = sa + sr + sm;
    if 0 <= k < d.added.len() {
        lemma_path_lines_hold('+', d.added, k);
        let h = "Added "@ + dec_digits(d.added.len()) + " paths:\n"@;
        lemma_substring_within(h, path_lines('+', d.added), Seq::empty(), summary_line('+', d.added[k]));
        assert(h + path_lines('+', d.added) + Seq::<char>::empty() =~= sa);
        lemma_substring_within(Seq::empty(), sa, sr + sm, summary_line('+', d.added[k]));
        assert(Seq::<char>::empty() + sa + (sr + sm) =~= s);
        assert(s.len() > 0);
    }
    if 0 <= k < d.removed.len() {
        lemma_path_lines_hold('-', d.removed, k);
        let h = "Removed "@ + dec_digits(d.removed.len()) + " paths:\n"@;
        lemma_substring_within(h, path_lines('-', d.removed), Seq::empty(), summary_line('-', d.removed[k]));
        assert(h + path_lines('-', d.removed) + Seq::<char>::empty() =~= sr);
        lemma_substring_within(sa, sr, sm, summary_line('-', d.removed[k]));
        assert(s.len() > 0);
    }
    if 0 <= k < d.modified.len() {
        lemma_path_lines_hold('~', mp, k);
        let h = "Modified "@ + dec_digits(mp.len()) + " paths:\n"@;
        lemma_substring_within(h, path_lines('~', mp), Seq::empty(), summary_line('~', mp[k]));
        assert(h + path_lines('~', mp) + Seq::<char>::empty() =~= sm);
        lemma_substring_within(sa + sr, sm, Seq::empty(), summary_line('~', d.modified[k].0));
        assert(sa + sr + sm + Seq::<char>::empty() =~= s);
        assert(s.len() > 0);
    }
    if d.added.len() == 0 && d.removed.len() == 0 && d.modified.len() == 0 {
        assert(s =~= Seq::<char>::empty());
    }
}

} // verus!

verus! {

/// Whether `v` is an object that has a member `k`.
pub open spec fn holds_key(v: Option<JsonV>, k: Seq<char>) -> bool {
    v is Some && v->0 is Object && exists|j: int| 0 <= j < v->0->Object_0.len() && v->0->Object_0[j].0 == k
}

/// Whether `v` is an object without a member `k`.
pub open spec fn lacks_key(v: Option<JsonV>, k: Seq<char>) -> bool {
    v is Some && v->0 is Object && forall|j: int| 0 <= j < v->0->Object_0.len() ==> v->0->Object_0[j].0 != k
}

/// `x` is the dotted path below `p` of a member that `a` has and `b` lacks.
pub open spec fn only_in_first(a: JsonV, b: JsonV, p: Seq<char>, x: Seq<char>) -> bool {
    exists|ks: Seq<Seq<char>>, k: Seq<char>|
        #![trigger dotted(p, ks.push(k))]
        holds_key(member_at(a, ks), k) && lacks_key(member_at(b, ks), k) && x == dotted(p, ks.push(k))
}

proof fn lemma_member_unique_at(e: Seq<(Seq<char>, JsonV)>, n: nat, j: int)
    requires
        members_unique(e, n),
        0 <= j < n <= e.len(),
    ensures
        keys_unique(e[j].1),
    decreases n,
{
    if j < n - 1 {
        lemma_member_unique_at(e, (n - 1) as nat, j);
    }
}

proof fn lemma_only_in_first_step(a: JsonV, b: JsonV, p: Seq<char>, k0: Seq<char>, v: JsonV, w: JsonV, x: Seq<char>)
    requires
        a is Object,
        b is Object,
        lookup(a->Object_0, k0) == Some(v),
        lookup(b->Object_0, k0) == Some(w),
        only_in_first(v, w, child_path(p, k0), x),
    ensures
        only_in_first(a, b, p, x),
{
    let q = child_path(p, k0);
    let (ks1, k1) = choose|ks: Seq<Seq<char>>, k: Seq<char>|
        #![trigger dotted(q, ks.push(k))]
        holds_key(member_at(v, ks), k) && lacks_key(member_at(w, ks), k) && x == dotted(q, ks.push(k));
    let ks = seq![k0] + ks1;
    assert(ks[0] == k0);
    assert(ks.drop_first() =~= ks1);
    assert(member_at(a, ks) == member_at(v, ks1));
    assert(member_at(b, ks) == member_at(w, ks1));
    assert(ks.push(k1)[0] == k0);
    assert(ks.push(k1).drop_first() =~= ks1.push(k1));
    lemma_child_is_dotted(p, k0);
    assert(dotted(p, ks.push(k1)) == dotted(q, ks1.push(k1)));
    assert(holds_key(member_at(a, ks), k1) && lacks_key(member_at(b, ks), k1) && x == dotted(p, ks.push(k1)));
}

proof fn lemma_only_in_first_top(a: JsonV, b: JsonV, p: Seq<char>, k: Seq<char>)
    requires
        holds_key(Some(a), k),
        lacks_key(Some(b), k),
    ensures
        only_in_first(a, b, p, child_path(p, k)),
{
    let ks = Seq::<Seq<char>>::empty();
    assert(member_at(a, ks) == Some(a));
    assert(member_at(b, ks) == Some(b));
    assert(ks.push(k) =~= seq![k]);
    assert(seq![k][0] == k);
    assert(seq![k].drop_first() =~= Seq::<Seq<char>>::empty());
    let c = if p.len() == 0 {
        k
    } else {
        p + "."@ + k
    };
    assert(dotted(p, ks.push(k)) == dotted(c, seq![k].drop_first()));
    assert(dotted(c, Seq::<Seq<char>>::empty()) == c);
    lemma_child_is_dotted(p, k);
    assert(holds_key(member_at(a, ks), k) && lacks_key(member_at(b, ks), k) && child_path(p, k) == dotted(p, ks.push(k)));
}

proof fn lemma_diff_sound(a: JsonV, b: JsonV, p: Seq<char>)
    requires
        keys_unique(a),
    ensures
        forall|x: Seq<char>| #[trigger] diff_into(no_diff(), a, b, p).removed.contains(x) ==> only_in_first(a, b, p, x),
        forall|x: Seq<char>| #[trigger] diff_into(no_diff(), a, b, p).added.contains(x) ==> only_in_first(b, a, p, x),
    decreases a, 1nat,
{
    match (a, b) {
        (JsonV::Object(e1), JsonV::Object(e2)) => {
            lemma_rm_sound(e1, e2, p, e1.len());
            let r = removed_members(no_diff(), e1, e2, p, e1.len());
            lemma_added_frame(r, e1, e2, p, e2.len());
            lemma_added_frame(no_diff(), e1, e2, p, e2.len());
            lemma_am_sound(e1, e2, p, e2.len());
            let am = added_members(no_diff(), e1, e2, p, e2.len());
            let dd = diff_into(no_diff(), a, b, p);
            assert(dd == diff_then(r, am));
            assert forall|x: Seq<char>| #[trigger] dd.removed.contains(x) implies only_in_first(a, b, p, x) by {
                let i = choose|i: int| 0 <= i < dd.removed.len() && dd.removed[i] == x;
                assert(dd.removed[i] == r.removed[i]);
                assert(r.removed.contains(x));
            }
            assert forall|x: Seq<char>| #[trigger] dd.added.contains(x) implies only_in_first(b, a, p, x) by {
                let i = choose|i: int| 0 <= i < dd.added.len() && dd.added[i] == x;
                if i < r.added.len() {
                    assert(r.added.contains(x));
                } else {
                    assert(am.added[i - r.added.len()] == x);
                    assert(am.added.contains(x));
                }
            }
        },
        _ => {},
    }
}

proof fn lemma_rm_sound(e1: Seq<(Seq<char>, JsonV)>, e2: Seq<(Seq<char>, JsonV)>, p: Seq<char>, n: nat)
    requires
        crate::keyed::names_distinct(e1),
        members_unique(e1, e1.len()),
        n <= e1.len(),
    ensures
        forall|x: Seq<char>| #[trigger] removed_members(no_diff(), e1, e2, p, n).removed.contains(x) ==> only_in_first(
            JsonV::Object(e1),
            JsonV::Object(e2),
            p,
            x,
        ),
        forall|x: Seq<char>| #[trigger] removed_members(no_diff(), e1, e2, p, n).added.contains(x) ==> only_in_first(
            JsonV::Object(e2),
            JsonV::Object(e1),
            p,
            x,
        ),
    decreases e1, n,
{
    let a = JsonV::Object(e1);
    let b = JsonV::Object(e2);
    if n > 0 {
        lemma_rm_sound(e1, e2, p, (n - 1) as nat);
        let acc0 = removed_members(no_diff(), e1, e2, p, (n - 1) as nat);
        let (k, v) = e1[n - 1];
        let r = removed_members(no_diff(), e1, e2, p, n);
        lemma_find_key_bounds(e2, k);
        match lookup(e2, k) {
            None => {
                assert(holds_key(Some(a), k)) by {
                    assert(Some(a)->0->Object_0 == e1);
                    assert(Some(a)->0->Object_0[n - 1].0 == k);
                }
                lemma_only_in_first_top(a, b, p, k);
                assert forall|x: Seq<char>| #[trigger] r.removed.contains(x) implies only_in_first(a, b, p, x) by {
                    let i = choose|i: int| 0 <= i < r.removed.len() && r.removed[i] == x;
                    if i < acc0.removed.len() {
                        assert(acc0.removed[i] == x);
                        assert(acc0.removed.contains(x));
                    }
                }
                assert forall|x: Seq<char>| #[trigger] r.added.contains(x) implies only_in_first(b, a, p, x) by {
                    assert(r.added == acc0.added);
                }
            },
            Some(w) => {
                assert(decreases_to!(e1 => e1[n - 1]));
                let q = child_path(p, k);
                lemma_diff_frame(acc0, v, w, q);
                lemma_member_unique_at(e1, e1.len(), n - 1);
                lemma_diff_sound(v, w, q);
                lemma_lookup_own_key(e1, n - 1);
                let dd = diff_into(no_diff(), v, w, q);
                assert(lookup(e2, k) == Some(w));
                assert forall|x: Seq<char>| #[trigger] r.removed.contains(x) implies only_in_first(a, b, p, x) by {
                    let i = choose|i: int| 0 <= i < r.removed.len() && r.removed[i] == x;
                    if i < acc0.removed.len() {
                        assert(acc0.removed[i] == x);
                        assert(acc0.removed.contains(x));
                    } else {
                        assert(dd.removed[i - acc0.removed.len()] == x);
                        assert(dd.removed.contains(x));
                        lemma_only_in_first_step(a, b, p, k, v, w, x);
                    }
                }
                assert forall|x: Seq<char>| #[trigger] r.added.contains(x) implies only_in_first(b, a, p, x) by {
                    let i = choose|i: int| 0 <= i < r.added.len() && r.added[i] == x;
                    if i < acc0.added.len() {
                        assert(acc0.added[i] == x);
                        assert(acc0.added.contains(x));
                    } else {
                        assert(dd.added[i - acc0.added.len()] == x);
                        assert(dd.added.contains(x));
                        lemma_only_in_first_step(b, a, p, k, w, v, x);
                    }
                }
            },
        }
    }
}

proof fn lemma_am_sound(e1: Seq<(Seq<char>, JsonV)>, e2: Seq<(Seq<char>, JsonV)>, p: Seq<char>, n: nat)
    requires
        n <= e2.len(),
    ensures
        forall|x: Seq<char>| #[trigger] added_members(no_diff(), e1, e2, p, n).added.contains(x) ==> only_in_first(
            JsonV::Object(e2),
            JsonV::Object(e1),
            p,
            x,
        ),
    decreases n,
{
    if n > 0 {
        lemma_am_sound(e1, e2, p, (n - 1) as nat);
        let acc0 = added_members(no_diff(), e1, e2, p, (n - 1) as nat);
        let k = e2[n - 1].0;
        let r = added_members(no_diff(), e1, e2, p, n);
        lemma_find_key_bounds(e1, k);
        if lookup(e1, k) is None {
            assert(holds_key(Some(JsonV::Object(e2)), k)) by {
                assert(Some(JsonV::Object(e2))->0->Object_0 == e2);
                assert(Some(JsonV::Object(e2))->0->Object_0[n - 1].0 == k);
            }
            lemma_only_in_first_top(JsonV::Object(e2), JsonV::Object(e1), p, k);
        }
        assert forall|x: Seq<char>| #[trigger] r.added.contains(x) implies only_in_first(JsonV::Object(e2), JsonV::Object(e1), p, x) by {
            let i = choose|i: int| 0 <= i < r.added.len() && r.added[i] == x;
            if i < acc0.added.len() {
                assert(acc0.added[i] == x);
                assert(acc0.added.contains(x));
            }
        }
    }
}

/// Comparing two states reports nothing that is not there: every removed path is
/// the full dotted path of a member that the old state has and the new one lacks
/// (below objects that both have at the same place), and every added path one
/// that the new state has and the old one lacks; where no object of the old
/// state has a key twice, as holds of every state read from JSON text.
pub proof fn law_diff_reports_only_real_members(a: JsonV, b: JsonV, p: Seq<char>, x: Seq<char>)
    requires
        keys_unique(a),
    ensures
        diff_into(no_diff(), a, b, p).removed.contains(x) ==> only_in_first(a, b, p, x),
        diff_into(no_diff(), a, b, p).added.contains(x) ==> only_in_first(b, a, p, x),
{
    lemma_diff_sound(a, b, p);
}

} // verus!
