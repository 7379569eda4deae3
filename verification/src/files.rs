//! The files task: files with static content, mode and ownership. The task
//! decides from what it finds on disk; the caller reads the disk and performs
//! the writes that the task asks for.
use vstd::prelude::*;
use crate::json::{entries_view, lemma_object_view, Json, JsonV};
use crate::json_access::{get, jget};
use crate::kdl_parser::opt_view;
use crate::provisioning::{TaskChange, TaskChangeType};
use crate::tasks::{change_view, changes_view};
use crate::text::{chars_eq, chars_of, string_from_chars};

verus! {

/// Whether a file should exist.
#[derive(Debug, Clone, Copy, PartialEq, Eq, Structural)]
pub enum Ensure {
    Present,
    Absent,
}

/// The desired state of one file.
#[derive(Debug)]
pub struct FileSpec {
    /// Absolute path of the file.
    pub path: String,
    /// Whether the file should exist.
    pub ensure: Ensure,
    /// The text the file should hold.
    pub content: Option<String>,
    /// The file mode, as octal digits such as "0644" or "644".
    pub mode: Option<String>,
    /// The owner's user id.
    pub uid: Option<u32>,
    /// The owner's group id.
    pub gid: Option<u32>,
}

pub struct FileSpecV {
    pub path: Seq<char>,
    pub ensure: Ensure,
    pub content: Option<Seq<char>>,
    pub mode: Option<Seq<char>>,
    pub uid: Option<u32>,
    pub gid: Option<u32>,
}

impl View for FileSpec {
    type V = FileSpecV;

    open spec fn view(&self) -> FileSpecV {
        FileSpecV {
            path: self.path@,
            ensure: self.ensure,
            content: opt_view(self.content),
            mode: opt_view(self.mode),
            uid: self.uid,
            gid: self.gid,
        }
    }
}

/// What was found on disk for one file.
#[derive(Debug)]
pub struct FileObservation {
    /// Whether the path exists.
    pub exists: bool,
    /// The file's text, where it could be read.
    pub content: Option<String>,
    /// The file's whole `st_mode` as its metadata gives it (the file-type bits
    /// included, such as 0o100644 for a regular file), where the metadata could
    /// be read. It is compared with the requested mode as it stands, so for a
    /// regular file a requested permission mode such as 0o644 differs from it.
    pub mode: Option<u32>,
    /// The file's user and group ids, where its metadata could be read.
    pub owner: Option<(u32, u32)>,
}

pub struct FileObservationV {
    pub exists: bool,
    pub content: Option<Seq<char>>,
    pub mode: Option<u32>,
    pub owner: Option<(u32, u32)>,
}

impl View for FileObservation {
    type V = FileObservationV;

    open spec fn view(&self) -> FileObservationV {
        FileObservationV {
            exists: self.exists,
            content: opt_view(self.content),
            mode: self.mode,
            owner: self.owner,
        }
    }
}

/// Octal digits of a natural number, most significant first, as `{:o}` writes them.
pub open spec fn oct_digits(n: nat) -> Seq<char>
    decreases n,
{
    if n < 8 {
        seq![(('0' as u32) + n) as char]
    } else {
        oct_digits(n / 8).push((('0' as u32) + n % 8) as char)
    }
}

/// Formats a number in octal, as `format!("{:o}", n)` does.
pub fn u32_to_oct(n: u32) -> (r: String)
    ensures
        r@ == oct_digits(n as nat),
{
    let v = oct_chars(n);
    string_from_chars(&v)
}

fn oct_chars(n: u32) -> (r: Vec<char>)
    ensures
        r@ == oct_digits(n as nat),
    decreases n,
{
    if n < 8 {
        let mut r = Vec::new();
        r.push(((('0' as u32) + n) as u8) as char);
        assert(r@ =~= oct_digits(n as nat));
        r
    } else {
        let mut r = oct_chars(n / 8);
        let d = n % 8;
        r.push(((('0' as u32) + d) as u8) as char);
        r
    }
}

/// The text after every leading `0o` is removed.
pub open spec fn strip_0o(s: Seq<char>) -> Seq<char>
    decreases s.len(),
{
    if s.len() >= 2 && s[0] == '0' && s[1] == 'o' {
        strip_0o(s.subrange(2, s.len() as int))
    } else {
        s
    }
}

/// The text after every leading `0` is removed.
pub open spec fn strip_zeros(s: Seq<char>) -> Seq<char>
    decreases s.len(),
{
    if s.len() > 0 && s[0] == '0' {
        strip_zeros(s.drop_first())
    } else {
        s
    }
}

/// Whether every character is an octal digit.
pub open spec fn all_octal(d: Seq<char>) -> bool {
    forall|i: int| 0 <= i < d.len() ==> '0' <= #[trigger] d[i] && d[i] <= '7'
}

/// The value of octal digits.
pub open spec fn octal_value(d: Seq<char>) -> nat
    decreases d.len(),
{
    if d.len() == 0 {
        0
    } else {
        octal_value(d.drop_last()) * 8 + ((d.last() as u32) - ('0' as u32)) as nat
    }
}

/// The file mode a text gives: after leading `0o` and zeros are removed (an empty
/// rest standing for `0`), an optional `+` and octal digits whose value fits in
/// 32 bits, as `u32::from_str_radix` reads them in base 8.
pub open spec fn parse_mode_spec(s: Seq<char>) -> Option<u32> {
    let t = strip_zeros(strip_0o(s));
    let u = if t.len() == 0 {
        seq!['0']
    } else {
        t
    };
    let body = if u[0] == '+' {
        u.drop_first()
    } else {
        u
    };
    octal_mode(body)
}

/// The mode that octal digits give, where they are some and their value fits in
/// 32 bits.
pub open spec fn octal_mode(body: Seq<char>) -> Option<u32> {
    if body.len() > 0 && all_octal(body) && octal_value(body) <= u32::MAX {
        Some(octal_value(body) as u32)
    } else {
        None
    }
}

proof fn lemma_octal_value_prefix(d: Seq<char>, k: int)
    requires
        0 <= k <= d.len(),
        all_octal(d),
    ensures
        octal_value(d.subrange(0, k)) <= octal_value(d),
    decreases d.len() - k,
{
    if k < d.len() {
        lemma_octal_value_prefix(d, k + 1);
        let p = d.subrange(0, k + 1);
        assert(p.drop_last() =~= d.subrange(0, k));
        assert('0' <= p.last() && p.last() <= '7');
    } else {
        assert(d.subrange(0, k) =~= d);
    }
}

/// Reads a file mode, as `parse_mode_spec` says.
pub fn parse_mode(s: &str) -> (r: Option<u32>)
    ensures
        r == parse_mode_spec(s@),
{
    let v = chars_of(s);
    let n = v.len();
    let mut i: usize = 0;
    assert(v@.subrange(0, n as int) =~= v@);
    while n - i > 1 && v[i] == '0' && v[i + 1] == 'o'
        invariant
            i <= n,
            n == v@.len(),
            strip_0o(v@) == strip_0o(v@.subrange(i as int, n as int)),
        decreases n - i,
    {
        proof {
            let w = v@.subrange(i as int, n as int);
            assert(w.subrange(2, w.len() as int) =~= v@.subrange(i as int + 2, n as int));
        }
        i = i + 2;
    }
    proof {
        assert(strip_0o(v@.subrange(i as int, n as int)) == v@.subrange(i as int, n as int));
    }
    while i < n && v[i] == '0'
        invariant
            i <= n,
            n == v@.len(),
            strip_zeros(strip_0o(v@)) == strip_zeros(v@.subrange(i as int, n as int)),
        decreases n - i,
    {
        proof {
            assert(v@.subrange(i as int, n as int).drop_first() =~= v@.subrange(i as int + 1, n as int));
        }
        i = i + 1;
    }
    let ghost t = v@.subrange(i as int, n as int);
    assert(strip_zeros(t) == t);
    assert(strip_zeros(strip_0o(s@)) == t);
    let ghost u = if t.len() == 0 {
        seq!['0']
    } else {
        t
    };
    if i == n {
        assert(u[0] != '+');
        assert(u =~= seq!['0']);
        assert(octal_value(u) == 0) by {
            reveal_with_fuel(octal_value, 2);
            assert(u.drop_last() =~= Seq::<char>::empty());
        }
        return Some(0);
    }
    if v[i] == '+' {
        i = i + 1;
    }
    let ghost body = v@.subrange(i as int, n as int);
    assert(body =~= (if u[0] == '+' {
        u.drop_first()
    } else {
        u
    }));
    if i == n {
        return None;
    }
    let start = i;
    let mut value: u64 = 0;
    while i < n
        invariant
            start <= i <= n,
            n == v@.len(),
            body == v@.subrange(start as int, n as int),
            parse_mode_spec(s@) == octal_mode(body),
            all_octal(v@.subrange(start as int, i as int)),
            value == octal_value(v@.subrange(start as int, i as int)),
            value <= u32::MAX,
        decreases n - i,
    {
        let c = v[i];
        if c < '0' || c > '7' {
            proof {
                assert(body[i - start] == c);
            }
            return None;
        }
        proof {
            let p = v@.subrange(start as int, i as int + 1);
            assert(p.drop_last() =~= v@.subrange(start as int, i as int));
            assert(p.last() == c);
        }
        let digit = (c as u32 - '0' as u32) as u64;
        value = value * 8 + digit;
        if value > 4294967295u64 {
            proof {
                let p = v@.subrange(start as int, i as int + 1);
                if all_octal(body) {
                    assert(p =~= body.subrange(0, i - start + 1));
                    lemma_octal_value_prefix(body, i - start + 1);
                }
            }
            return None;
        }
        i = i + 1;
    }
    assert(v@.subrange(start as int, n as int) =~= body);
    Some(value as u32)
}


/// The model of a change: its kind, path, old and new value, and whether it is
/// verbose.
pub type ChangeV = (TaskChangeType, Seq<char>, Option<JsonV>, Option<JsonV>, bool);

/// A JSON number for an id, or `null` where there is none.
pub open spec fn id_json(o: Option<u32>) -> JsonV {
    match o {
        Some(n) => JsonV::PosInt(n as u64),
        None => JsonV::Null,
    }
}

/// A JSON text, or `null` where there is none.
pub open spec fn text_json(o: Option<Seq<char>>) -> JsonV {
    match o {
        Some(t) => JsonV::Str(t),
        None => JsonV::Null,
    }
}

/// The change that removes a file.
pub open spec fn delete_change(path: Seq<char>) -> ChangeV {
    (TaskChangeType::Delete, path, Some(JsonV::Object(seq![("exists"@, JsonV::Bool(true))])), None, false)
}

/// What a file that does not exist yet is created with.
pub open spec fn create_value(s: FileSpecV) -> JsonV {
    JsonV::Object(
        seq![
            ("content"@, JsonV::Str(match s.content {
                Some(c) => c,
                None => Seq::empty(),
            })),
            ("gid"@, id_json(s.gid)),
            ("mode"@, text_json(s.mode)),
            ("uid"@, id_json(s.uid)),
        ],
    )
}

/// The change that creates a file that does not exist yet.
pub open spec fn create_change(s: FileSpecV) -> ChangeV {
    (TaskChangeType::Create, s.path, None, Some(create_value(s)), s.content is Some)
}

/// A JSON object with one member.
pub open spec fn single(key: Seq<char>, v: JsonV) -> JsonV {
    JsonV::Object(seq![(key, v)])
}

/// The content change of an existing file: where the file could be read and
/// differs, or could not be read.
pub open spec fn content_diff(s: FileSpecV, o: FileObservationV) -> Seq<ChangeV> {
    match s.content {
        None => Seq::empty(),
        Some(d) => match o.content {
            Some(cur) => if cur != d {
                seq![(TaskChangeType::Update, s.path, Some(single("content"@, JsonV::Str(cur))), Some(single("content"@, JsonV::Str(d))), true)]
            } else {
                Seq::empty()
            },
            None => seq![(TaskChangeType::Update, s.path, None, Some(single("content"@, JsonV::Str(d))), true)],
        },
    }
}

/// The mode change of an existing file: where the mode read differs from the
/// desired one (a mode that cannot be read as octal counts as unchanged), or
/// could not be read.
pub open spec fn mode_diff(s: FileSpecV, o: FileObservationV) -> Seq<ChangeV> {
    match s.mode {
        None => Seq::empty(),
        Some(m) => match o.mode {
            Some(cur) => if (match parse_mode_spec(m) {
                Some(x) => x,
                None => cur,
            }) != cur {
                seq![(TaskChangeType::Update, s.path, Some(single("mode"@, JsonV::Str(oct_digits(cur as nat)))), Some(single("mode"@, JsonV::Str(m))), false)]
            } else {
                Seq::empty()
            },
            None => seq![(TaskChangeType::Update, s.path, None, Some(single("mode"@, JsonV::Str(m))), false)],
        },
    }
}

/// The ownership change of an existing file, wherever an owner is asked for;
/// ids that could not be read show as `u32::MAX`.
pub open spec fn owner_diff(s: FileSpecV, o: FileObservationV) -> Seq<ChangeV> {
    if s.uid is Some || s.gid is Some {
        let (ou, og) = match o.owner {
            Some(p) => p,
            None => (u32::MAX, u32::MAX),
        };
        seq![(
            TaskChangeType::Update,
            s.path,
            Some(JsonV::Object(seq![("gid"@, JsonV::PosInt(og as u64)), ("uid"@, JsonV::PosInt(ou as u64))])),
            Some(JsonV::Object(seq![("gid"@, id_json(s.gid)), ("uid"@, id_json(s.uid))])),
            false,
        )]
    } else {
        Seq::empty()
    }
}

/// The changes that one file needs.
pub open spec fn file_diff(s: FileSpecV, o: FileObservationV) -> Seq<ChangeV> {
    match s.ensure {
        Ensure::Absent => if o.exists {
            seq![delete_change(s.path)]
        } else {
            Seq::empty()
        },
        Ensure::Present => if !o.exists {
            seq![create_change(s)]
        } else {
            content_diff(s, o) + mode_diff(s, o) + owner_diff(s, o)
        },
    }
}

/// The changes that all files need, file after file.
pub open spec fn files_diff(s: Seq<FileSpecV>, o: Seq<FileObservationV>) -> Seq<ChangeV>
    decreases s.len(),
{
    if s.len() == 0 {
        Seq::empty()
    } else {
        files_diff(s.drop_last(), o) + file_diff(s.last(), o[s.len() - 1])
    }
}


/// The change of a step, where it has one.
pub open spec fn step_changes(c: Option<ChangeV>) -> Seq<ChangeV> {
    match c {
        Some(x) => seq![x],
        None => Seq::empty(),
    }
}

/// The changes that a dry run of applying one file reports, given what was found
/// on disk: the removal of a file that should be absent, else the content, mode
/// and ownership steps in turn.
pub open spec fn file_dry_apply(s: FileSpecV, o: FileObservationV) -> Seq<ChangeV> {
    match s.ensure {
        Ensure::Absent => step_changes(absent_step(s, o.exists, true).0),
        Ensure::Present => step_changes(content_step(s, o.exists, o.content, true).0) + step_changes(
            mode_step(s, o.mode, true).0,
        ) + step_changes(owner_step(s, o.owner, true).0),
    }
}

/// The changes that a dry run of applying all files reports, file after file.
pub open spec fn files_dry_apply(s: Seq<FileSpecV>, o: Seq<FileObservationV>) -> Seq<ChangeV>
    decreases s.len(),
{
    if s.len() == 0 {
        Seq::empty()
    } else {
        files_dry_apply(s.drop_last(), o) + file_dry_apply(s.last(), o[s.len() - 1])
    }
}

/// The model of a change that may be absent.
pub open spec fn opt_change_view(c: Option<TaskChange>) -> Option<ChangeV> {
    match c {
        Some(x) => Some(change_view(x)),
        None => None,
    }
}

/// Applying a file that should be absent: where it exists, the change that
/// removes it, and whether it is removed (not in a dry run).
pub open spec fn absent_step(s: FileSpecV, exists: bool, dry_run: bool) -> (Option<ChangeV>, bool) {
    if exists {
        (Some(delete_change(s.path)), !dry_run)
    } else {
        (None, false)
    }
}

/// Applying a file's content: where content is asked for and the file's text
/// differs or could not be read, the change and the text to write; where none
/// is asked for and the file does not exist, an empty file. Nothing is written
/// in a dry run.
pub open spec fn content_step(s: FileSpecV, exists: bool, current: Option<Seq<char>>, dry_run: bool) -> (Option<ChangeV>, Option<Seq<char>>) {
    match s.content {
        Some(c) => {
            let needed = match current {
                Some(cur) => cur != c,
                None => true,
            };
            if needed {
                (
                    Some((
                        if exists {
                            TaskChangeType::Update
                        } else {
                            TaskChangeType::Create
                        },
                        s.path,
                        None,
                        Some(single("content"@, JsonV::Str(c))),
                        true,
                    )),
                    if dry_run {
                        None
                    } else {
                        Some(c)
                    },
                )
            } else {
                (None, None)
            }
        },
        None => if !exists {
            (
                Some((TaskChangeType::Create, s.path, None, Some(single("content"@, JsonV::Str(Seq::empty()))), false)),
                if dry_run {
                    None
                } else {
                    Some(Seq::empty())
                },
            )
        } else {
            (None, None)
        },
    }
}

/// Applying a file's mode: where a mode that reads as octal is asked for and
/// differs from the current one (0 where it could not be read), the change and
/// the mode to set (not in a dry run).
pub open spec fn mode_step(s: FileSpecV, current: Option<u32>, dry_run: bool) -> (Option<ChangeV>, Option<u32>) {
    match s.mode {
        Some(m) => match parse_mode_spec(m) {
            Some(mode) => {
                let cur = match current {
                    Some(c) => c,
                    None => 0,
                };
                if cur != mode {
                    (
                        Some((
                            TaskChangeType::Update,
                            s.path,
                            Some(single("mode"@, JsonV::Str(oct_digits(cur as nat)))),
                            Some(single("mode"@, JsonV::Str(oct_digits(mode as nat)))),
                            false,
                        )),
                        if dry_run {
                            None
                        } else {
                            Some(mode)
                        },
                    )
                } else {
                    (None, None)
                }
            },
            None => (None, None),
        },
        None => (None, None),
    }
}

/// Applying a file's ownership: wherever an owner is asked for, the change and
/// the ids to set, `u32::MAX` keeping the current one (not in a dry run).
pub open spec fn owner_step(s: FileSpecV, current: Option<(u32, u32)>, dry_run: bool) -> (Option<ChangeV>, Option<(u32, u32)>) {
    if s.uid is Some || s.gid is Some {
        let o = FileObservationV { exists: true, content: None, mode: None, owner: current };
        (
            Some(owner_diff(s, o)[0]),
            if dry_run {
                None
            } else {
                Some(
                    (
                        match s.uid {
                            Some(u) => u,
                            None => u32::MAX,
                        },
                        match s.gid {
                            Some(g) => g,
                            None => u32::MAX,
                        },
                    ),
                )
            },
        )
    } else {
        (None, None)
    }
}

/// The value that holds the file specs: the desired value itself where it is an
/// array, else its member `files`; refused where it has neither.
pub open spec fn specs_source(desired: JsonV) -> Result<JsonV, Seq<char>> {
    match desired {
        JsonV::Array(_) => Ok(desired),
        _ => match jget(desired, "files"@) {
            Some(v) => Ok(v),
            None => Err("files must be an array of file specs"@),
        },
    }
}

/// The value that holds the file specs, as `specs_source` says.
pub fn specs_value(desired: &Json) -> (r: Result<Json, String>)
    ensures
        match specs_source(desired@) {
            Ok(v) => r is Ok && r->Ok_0@ == v,
            Err(m) => r is Err && r->Err_0@ == m,
        },
{
    match desired {
        Json::Array(_) => Ok(desired.deep_copy()),
        _ => match get(desired, "files") {
            Some(v) => Ok(v.deep_copy()),
            None => Err("files must be an array of file specs".to_owned()),
        },
    }
}

pub(crate) fn one_member(key: &str, v: Json) -> (r: Json)
    ensures
        r@ == single(key@, v@),
{
    let mut m: Vec<(String, Json)> = Vec::new();
    m.push((key.to_owned(), v));
    proof {
        lemma_object_view(m);
        assert(entries_view(m@) =~= seq![(key@, v@)]);
    }
    Json::Object(m)
}

pub(crate) fn two_members(k1: &str, v1: Json, k2: &str, v2: Json) -> (r: Json)
    ensures
        r@ == JsonV::Object(seq![(k1@, v1@), (k2@, v2@)]),
{
    let mut m: Vec<(String, Json)> = Vec::new();
    m.push((k1.to_owned(), v1));
    m.push((k2.to_owned(), v2));
    proof {
        lemma_object_view(m);
        assert(entries_view(m@) =~= seq![(k1@, v1@), (k2@, v2@)]);
    }
    Json::Object(m)
}

fn id_value(o: Option<u32>) -> (r: Json)
    ensures
        r@ == id_json(o),
{
    match o {
        Some(n) => Json::PosInt(n as u64),
        None => Json::Null,
    }
}

fn text_value(o: &Option<String>) -> (r: Json)
    ensures
        r@ == text_json(opt_view(*o)),
{
    match o {
        Some(t) => Json::Str(t.clone()),
        None => Json::Null,
    }
}

fn change(change_type: TaskChangeType, path: &String, old_value: Option<Json>, new_value: Option<Json>, verbose: bool) -> (r: TaskChange)
    ensures
        change_view(r) == (
            change_type,
            path@,
            match old_value {
                Some(v) => Some(v@),
                None => None,
            },
            match new_value {
                Some(v) => Some(v@),
                None => None,
            },
            verbose,
        ),
{
    TaskChange { change_type, path: path.clone(), old_value, new_value, verbose }
}

fn push_change(out: &mut Vec<TaskChange>, c: TaskChange)
    ensures
        changes_view(final(out)@) == changes_view(old(out)@).push(change_view(c)),
{
    let ghost before = changes_view(out@);
    out.push(c);
    assert(changes_view(out@) =~= before.push(change_view(c)));
}

fn create_value_of(f: &FileSpec) -> (r: Json)
    ensures
        r@ == create_value(f@),
{
    let content = match &f.content {
        Some(c) => c.clone(),
        None => String::new(),
    };
    let mut m: Vec<(String, Json)> = Vec::new();
    m.push(("content".to_owned(), Json::Str(content)));
    m.push(("gid".to_owned(), id_value(f.gid)));
    m.push(("mode".to_owned(), text_value(&f.mode)));
    m.push(("uid".to_owned(), id_value(f.uid)));
    proof {
        lemma_object_view(m);
        assert(entries_view(m@) =~= seq![
            ("content"@, JsonV::Str(match f@.content {
                Some(c) => c,
                None => Seq::empty(),
            })),
            ("gid"@, id_json(f@.gid)),
            ("mode"@, text_json(f@.mode)),
            ("uid"@, id_json(f@.uid)),
        ]);
        assert(entries_view(m@) =~= match create_value(f@) {
            JsonV::Object(e) => e,
            _ => Seq::empty(),
        });
    }
    Json::Object(m)
}

/// The files task.
#[derive(Default)]
pub struct Files;

impl Files {
    /// Appends the changes that one file needs, given what was found on disk.
    pub fn diff_file(f: &FileSpec, observed: &FileObservation, out: &mut Vec<TaskChange>)
        ensures
            changes_view(final(out)@) == changes_view(old(out)@) + file_diff(f@, observed@),
    {
        let ghost before = changes_view(out@);
        match f.ensure {
            Ensure::Absent => {
                if observed.exists {
                    let old_value = one_member("exists", Json::Bool(true));
                    push_change(out, change(TaskChangeType::Delete, &f.path, Some(old_value), None, false));
                }
                assert(changes_view(out@) =~= before + file_diff(f@, observed@));
                return;
            },
            Ensure::Present => {},
        }
        if !observed.exists {
            let v = create_value_of(f);
            push_change(out, change(TaskChangeType::Create, &f.path, None, Some(v), f.content.is_some()));
            assert(changes_view(out@) =~= before + file_diff(f@, observed@));
            return;
        }
        match &f.content {
            Some(d) => match &observed.content {
                Some(cur) => {
                    if !chars_eq(&chars_of(cur.as_str()), &chars_of(d.as_str())) {
                        let o = one_member("content", Json::Str(cur.clone()));
                        let n = one_member("content", Json::Str(d.clone()));
                        push_change(out, change(TaskChangeType::Update, &f.path, Some(o), Some(n), true));
                    }
                },
                None => {
                    let n = one_member("content", Json::Str(d.clone()));
                    push_change(out, change(TaskChangeType::Update, &f.path, None, Some(n), true));
                },
            },
            None => {},
        }
        assert(changes_view(out@) =~= before + content_diff(f@, observed@));
        let ghost mid = changes_view(out@);
        match &f.mode {
            Some(m) => match observed.mode {
                Some(cur) => {
                    let desired = match parse_mode(m.as_str()) {
                        Some(x) => x,
                        None => cur,
                    };
                    if desired != cur {
                        let o = one_member("mode", Json::Str(u32_to_oct(cur)));
                        let n = one_member("mode", Json::Str(m.clone()));
                        push_change(out, change(TaskChangeType::Update, &f.path, Some(o), Some(n), false));
                    }
                },
                None => {
                    let n = one_member("mode", Json::Str(m.clone()));
                    push_change(out, change(TaskChangeType::Update, &f.path, None, Some(n), false));
                },
            },
            None => {},
        }
        assert(changes_view(out@) =~= mid + mode_diff(f@, observed@));
        let ghost mid2 = changes_view(out@);
        if f.uid.is_some() || f.gid.is_some() {
            let (ou, og) = match observed.owner {
                Some(p) => p,
                None => (u32::MAX, u32::MAX),
            };
            let o = two_members("gid", Json::PosInt(og as u64), "uid", Json::PosInt(ou as u64));
            let n = two_members("gid", id_value(f.gid), "uid", id_value(f.uid));
            push_change(out, change(TaskChangeType::Update, &f.path, Some(o), Some(n), false));
        }
        assert(changes_view(out@) =~= mid2 + owner_diff(f@, observed@));
        assert(changes_view(out@) =~= before + file_diff(f@, observed@));
    }

    /// Applying a file that should be absent, as `absent_step` says.
    pub fn apply_absent(f: &FileSpec, exists: bool, dry_run: bool) -> (r: (Option<TaskChange>, bool))
        ensures
            (opt_change_view(r.0), r.1) == absent_step(f@, exists, dry_run),
    {
        if exists {
            let old_value = one_member("exists", Json::Bool(true));
            (Some(change(TaskChangeType::Delete, &f.path, Some(old_value), None, false)), !dry_run)
        } else {
            (None, false)
        }
    }

    /// Applying a file's content, as `content_step` says.
    pub fn apply_content(f: &FileSpec, exists: bool, current: &Option<String>, dry_run: bool) -> (r: (Option<TaskChange>, Option<String>))
        ensures
            (opt_change_view(r.0), opt_view(r.1)) == content_step(f@, exists, opt_view(*current), dry_run),
    {
        match &f.content {
            Some(c) => {
                let needed = match current {
                    Some(cur) => !chars_eq(&chars_of(cur.as_str()), &chars_of(c.as_str())),
                    None => true,
                };
                if needed {
                    let kind = if exists {
                        TaskChangeType::Update
                    } else {
                        TaskChangeType::Create
                    };
                    let n = one_member("content", Json::Str(c.clone()));
                    let w = if dry_run {
                        None
                    } else {
                        Some(c.clone())
                    };
                    (Some(change(kind, &f.path, None, Some(n), true)), w)
                } else {
                    (None, None)
                }
            },
            None => if !exists {
                let n = one_member("content", Json::Str(String::new()));
                let w = if dry_run {
                    None
                } else {
                    Some(String::new())
                };
                (Some(change(TaskChangeType::Create, &f.path, None, Some(n), false)), w)
            } else {
                (None, None)
            },
        }
    }

    /// Applying a file's mode, as `mode_step` says.
    pub fn apply_mode(f: &FileSpec, current: Option<u32>, dry_run: bool) -> (r: (Option<TaskChange>, Option<u32>))
        ensures
            (opt_change_view(r.0), r.1) == mode_step(f@, current, dry_run),
    {
        match &f.mode {
            Some(m) => match parse_mode(m.as_str()) {
                Some(mode) => {
                    let cur = match current {
                        Some(c) => c,
                        None => 0,
                    };
                    if cur != mode {
                        let o = one_member("mode", Json::Str(u32_to_oct(cur)));
                        let n = one_member("mode", Json::Str(u32_to_oct(mode)));
                        let set = if dry_run {
                            None
                        } else {
                            Some(mode)
                        };
                        (Some(change(TaskChangeType::Update, &f.path, Some(o), Some(n), false)), set)
                    } else {
                        (None, None)
                    }
                },
                None => (None, None),
            },
            None => (None, None),
        }
    }

    /// Applying a file's ownership, as `owner_step` says.
    pub fn apply_owner(f: &FileSpec, current: Option<(u32, u32)>, dry_run: bool) -> (r: (Option<TaskChange>, Option<(u32, u32)>))
        ensures
            (opt_change_view(r.0), r.1) == owner_step(f@, current, dry_run),
    {
        if f.uid.is_some() || f.gid.is_some() {
            let (ou, og) = match current {
                Some(p) => p,
                None => (u32::MAX, u32::MAX),
            };
            let o = two_members("gid", Json::PosInt(og as u64), "uid", Json::PosInt(ou as u64));
            let n = two_members("gid", id_value(f.gid), "uid", id_value(f.uid));
            let c = change(TaskChangeType::Update, &f.path, Some(o), Some(n), false);
            let ids = if dry_run {
                None
            } else {
                Some(
                    (
                        match f.uid {
                            Some(u) => u,
                            None => u32::MAX,
                        },
                        match f.gid {
                            Some(g) => g,
                            None => u32::MAX,
                        },
                    ),
                )
            };
            (Some(c), ids)
        } else {
            (None, None)
        }
    }

    /// The changes that applying the files reports in a dry run, given what was
    /// found on disk for each of them; nothing is written, removed or changed.
    pub fn apply_dry_run(&self, specs: &Vec<FileSpec>, observed: &Vec<FileObservation>) -> (r: Vec<TaskChange>)
        requires
            specs@.len() == observed@.len(),
        ensures
            changes_view(r@) == files_dry_apply(specs_view(specs@), observations_view(observed@)),
    {
        let mut out: Vec<TaskChange> = Vec::new();
        let ghost sv = specs_view(specs@);
        let ghost ov = observations_view(observed@);
        let mut i: usize = 0;
        assert(changes_view(out@) =~= files_dry_apply(sv.subrange(0, 0), ov));
        while i < specs.len()
            invariant
                i <= specs@.len(),
                specs@.len() == observed@.len(),
                sv == specs_view(specs@),
                ov == observations_view(observed@),
                changes_view(out@) == files_dry_apply(sv.subrange(0, i as int), ov),
            decreases specs.len() - i,
        {
            proof {
                assert(sv.subrange(0, i as int + 1).drop_last() =~= sv.subrange(0, i as int));
                assert(sv.subrange(0, i as int + 1).last() == specs@[i as int]@);
                assert(ov[i as int] == observed@[i as int]@);
            }
            let f = &specs[i];
            let o = &observed[i];
            let ghost before = changes_view(out@);
            match f.ensure {
                Ensure::Absent => {
                    let (c, _) = Self::apply_absent(f, o.exists, true);
                    push_step(&mut out, c);
                },
                Ensure::Present => {
                    let (c1, _) = Self::apply_content(f, o.exists, &o.content, true);
                    push_step(&mut out, c1);
                    let (c2, _) = Self::apply_mode(f, o.mode, true);
                    push_step(&mut out, c2);
                    let (c3, _) = Self::apply_owner(f, o.owner, true);
                    push_step(&mut out, c3);
                },
            }
            assert(changes_view(out@) =~= before + file_dry_apply(f@, o@));
            i = i + 1;
        }
        assert(sv.subrange(0, specs@.len() as int) =~= sv);
        out
    }

    /// The changes that the files need, given what was found on disk for each
    /// of them, file after file.
    pub fn diff(&self, specs: &Vec<FileSpec>, observed: &Vec<FileObservation>) -> (r: Vec<TaskChange>)
        requires
            specs@.len() == observed@.len(),
        ensures
            changes_view(r@) == files_diff(specs_view(specs@), observations_view(observed@)),
    {
        let mut out: Vec<TaskChange> = Vec::new();
        let ghost sv = specs_view(specs@);
        let ghost ov = observations_view(observed@);
        let mut i: usize = 0;
        assert(changes_view(out@) =~= files_diff(sv.subrange(0, 0), ov));
        while i < specs.len()
            invariant
                i <= specs@.len(),
                specs@.len() == observed@.len(),
                sv == specs_view(specs@),
                ov == observations_view(observed@),
                changes_view(out@) == files_diff(sv.subrange(0, i as int), ov),
            decreases specs.len() - i,
        {
            proof {
                assert(sv.subrange(0, i as int + 1).drop_last() =~= sv.subrange(0, i as int));
                assert(sv.subrange(0, i as int + 1).last() == specs@[i as int]@);
                assert(ov[i as int] == observed@[i as int]@);
            }
            Self::diff_file(&specs[i], &observed[i], &mut out);
            i = i + 1;
        }
        assert(sv.subrange(0, specs@.len() as int) =~= sv);
        out
    }
}

/// Adds a step's change, where it has one.
fn push_step(out: &mut Vec<TaskChange>, c: Option<TaskChange>)
    ensures
        changes_view(final(out)@) == changes_view(old(out)@) + step_changes(opt_change_view(c)),
{
    match c {
        Some(x) => {
            let ghost before = changes_view(out@);
            out.push(x);
            assert(changes_view(out@) =~= before + seq![change_view(x)]);
        },
        None => {
            assert(changes_view(out@) =~= changes_view(out@) + Seq::<ChangeV>::empty());
        },
    }
}

/// The models of file specs.
pub open spec fn specs_view(v: Seq<FileSpec>) -> Seq<FileSpecV> {
    Seq::new(v.len(), |i: int| v[i]@)
}

/// The models of observations.
pub open spec fn observations_view(v: Seq<FileObservation>) -> Seq<FileObservationV> {
    Seq::new(v.len(), |i: int| v[i]@)
}



/// In a dry run, applying a file performs nothing: no removal, write, mode or
/// ownership is asked for, whatever was found on disk.
pub proof fn law_dry_run_performs_nothing(
    s: FileSpecV,
    exists: bool,
    content: Option<Seq<char>>,
    mode: Option<u32>,
    owner: Option<(u32, u32)>,
)
    ensures
        !absent_step(s, exists, true).1,
        content_step(s, exists, content, true).1 is None,
        mode_step(s, mode, true).1 is None,
        owner_step(s, owner, true).1 is None,
{
}

/// A file that should exist and already holds the desired content and mode,
/// with no owner asked for, needs no change.
pub proof fn law_file_in_sync_needs_nothing(s: FileSpecV, o: FileObservationV)
    requires
        s.ensure == Ensure::Present,
        o.exists,
        s.content is Some ==> o.content == s.content,
        s.mode is Some ==> o.mode is Some && parse_mode_spec(s.mode->0) == o.mode,
        s.uid is None,
        s.gid is None,
    ensures
        file_diff(s, o) == Seq::<ChangeV>::empty(),
{
    assert(content_diff(s, o) =~= Seq::<ChangeV>::empty());
    assert(mode_diff(s, o) =~= Seq::<ChangeV>::empty());
    assert(owner_diff(s, o) =~= Seq::<ChangeV>::empty());
    assert(file_diff(s, o) =~= Seq::<ChangeV>::empty());
}

/// For a file that should be absent, applying reports exactly the change that
/// the diff reports.
pub proof fn law_absent_apply_matches_diff(s: FileSpecV, o: FileObservationV, dry_run: bool)
    requires
        s.ensure == Ensure::Absent,
    ensures
        match absent_step(s, o.exists, dry_run).0 {
            Some(c) => file_diff(s, o) == seq![c],
            None => file_diff(s, o) == Seq::<ChangeV>::empty(),
        },
{
}
} // verus!
