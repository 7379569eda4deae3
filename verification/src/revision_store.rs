//! Where revisions of the state are kept on disk, which stored revision is the
//! latest, and which old ones are removed.
use vstd::prelude::*;
use crate::kdl_parser::strings_view;
use crate::text::{chars_of, has_prefix, opt_str, str_eq, string_from_chars};

verus! {

/// How many revision files are kept on disk.
pub const MAX_DISK_REVISIONS: usize = 1000;

/// A relative path joined to a base, as `Path::join` joins them: a separator
/// between the two unless the base is empty or already ends with one.
pub open spec fn path_join(base: Seq<char>, rel: Seq<char>) -> Seq<char> {
    if base.len() == 0 {
        rel
    } else if base.last() == '/' {
        base + rel
    } else {
        base + "/"@ + rel
    }
}

/// Where the service keeps its state revisions: under /var/lib for root; else
/// under the state home, the data home or the home directory, each where it is
/// set, and in /tmp where none is.
pub open spec fn revision_dir_spec(
    is_root: bool,
    state_home: Option<Seq<char>>,
    data_home: Option<Seq<char>>,
    home: Option<Seq<char>>,
) -> Seq<char> {
    if is_root {
        "/var/lib/sysconfig"@
    } else {
        match state_home {
            Some(d) => path_join(d, "sysconfig"@),
            None => match data_home {
                Some(d) => path_join(d, "sysconfig"@),
                None => match home {
                    Some(h) => path_join(h, ".local/state/sysconfig"@),
                    None => "/tmp/sysconfig-state"@,
                },
            },
        }
    }
}

fn join(base: &str, rel: &str) -> (r: String)
    ensures
        r@ == path_join(base@, rel@),
{
    let mut v = chars_of(base);
    if v.len() > 0 && v[v.len() - 1] != '/' {
        v.push('/');
    }
    let ghost b = v@;
    let w = chars_of(rel);
    crate::text::append_chars(&mut v, &w);
    proof {
        reveal_strlit("/");
    }
    assert(v@ =~= path_join(base@, rel@));
    string_from_chars(&v)
}

/// Where the service keeps its state revisions, as `revision_dir_spec` says.
pub fn state_revision_dir(is_root: bool, state_home: Option<&str>, data_home: Option<&str>, home: Option<&str>) -> (r: String)
    ensures
        r@ == revision_dir_spec(is_root, opt_str(state_home), opt_str(data_home), opt_str(home)),
{
    if is_root {
        return "/var/lib/sysconfig".to_owned();
    }
    match state_home {
        Some(d) => join(d, "sysconfig"),
        None => match data_home {
            Some(d) => join(d, "sysconfig"),
            None => match home {
                Some(h) => join(h, ".local/state/sysconfig"),
                None => "/tmp/sysconfig-state".to_owned(),
            },
        },
    }
}

/// The position of the latest of the stored revisions, by modification time: the
/// first of those modified last.
pub open spec fn latest_index(modified: Seq<u64>) -> Option<int>
    decreases modified.len(),
{
    if modified.len() == 0 {
        None
    } else {
        match latest_index(modified.drop_last()) {
            Some(i) => if modified.last() <= modified[i] {
                Some(i)
            } else {
                Some(modified.len() - 1)
            },
            None => Some(modified.len() - 1),
        }
    }
}

proof fn lemma_latest_index_bounds(modified: Seq<u64>)
    ensures
        modified.len() == 0 <==> latest_index(modified) is None,
        latest_index(modified) is Some ==> 0 <= latest_index(modified)->0 < modified.len(),
    decreases modified.len(),
{
    if modified.len() > 0 {
        lemma_latest_index_bounds(modified.drop_last());
    }
}

/// The position of the latest stored revision, as `latest_index` says.
pub fn latest_revision(modified: &Vec<u64>) -> (r: Option<usize>)
    ensures
        match latest_index(modified@) {
            Some(i) => r is Some && r->0 as int == i,
            None => r is None,
        },
{
    let mut best: Option<usize> = None;
    let mut k: usize = 0;
    while k < modified.len()
        invariant
            k <= modified@.len(),
            match latest_index(modified@.subrange(0, k as int)) {
                Some(i) => best is Some && best->0 as int == i,
                None => best is None,
            },
        decreases modified.len() - k,
    {
        proof {
            assert(modified@.subrange(0, k as int + 1).drop_last() =~= modified@.subrange(0, k as int));
            lemma_latest_index_bounds(modified@.subrange(0, k as int));
        }
        match best {
            Some(b) => {
                assert(modified@.subrange(0, k as int)[b as int] == modified@[b as int]);
                if modified[k] > modified[b] {
                    best = Some(k);
                }
            },
            None => {
                best = Some(k);
            },
        }
        k = k + 1;
    }
    assert(modified@.subrange(0, modified@.len() as int) =~= modified@);
    best
}

/// Whether a file in the state directory holds a stored revision: a `.json`
/// file other than `latest.json`.
pub open spec fn is_revision_file(name: Seq<char>) -> bool {
    name.len() >= 5 && name.subrange(name.len() - 5, name.len() as int) == ".json"@ && name != "latest.json"@
}

/// The revision files among the entries, in order.
pub open spec fn revision_files(entries: Seq<(Seq<char>, u64)>) -> Seq<(Seq<char>, u64)>
    decreases entries.len(),
{
    if entries.len() == 0 {
        Seq::empty()
    } else if is_revision_file(entries.last().0) {
        revision_files(entries.drop_last()).push(entries.last())
    } else {
        revision_files(entries.drop_last())
    }
}

/// Where an entry goes among entries ordered by modification time: before the
/// first one modified later.
pub open spec fn time_insert_pos(s: Seq<(Seq<char>, u64)>, t: u64) -> int
    decreases s.len(),
{
    if s.len() == 0 {
        0
    } else if t < s[0].1 {
        0
    } else {
        1 + time_insert_pos(s.drop_first(), t)
    }
}

/// The entries ordered by modification time, oldest first, entries modified at
/// the same time kept in their order.
pub open spec fn by_time(s: Seq<(Seq<char>, u64)>) -> Seq<(Seq<char>, u64)>
    decreases s.len(),
{
    if s.len() == 0 {
        Seq::empty()
    } else {
        let o = by_time(s.drop_last());
        o.insert(time_insert_pos(o, s.last().1), s.last())
    }
}

/// The revision files to remove so that at most `MAX_DISK_REVISIONS` stay: the
/// oldest ones.
pub open spec fn revisions_to_remove_spec(entries: Seq<(Seq<char>, u64)>) -> Seq<Seq<char>> {
    let files = by_time(revision_files(entries));
    if files.len() <= MAX_DISK_REVISIONS {
        Seq::empty()
    } else {
        let n = files.len() - MAX_DISK_REVISIONS;
        Seq::new(n as nat, |i: int| files[i].0)
    }
}


/// The models of directory entries: a name and a modification time.
pub open spec fn entries_seq(v: Seq<(String, u64)>) -> Seq<(Seq<char>, u64)> {
    Seq::new(v.len(), |i: int| (v[i].0@, v[i].1))
}

proof fn lemma_time_insert_pos_bounds(s: Seq<(Seq<char>, u64)>, t: u64)
    ensures
        0 <= time_insert_pos(s, t) <= s.len(),
    decreases s.len(),
{
    if s.len() > 0 {
        lemma_time_insert_pos_bounds(s.drop_first(), t);
    }
}

fn is_revision_file_of(name: &str) -> (r: bool)
    ensures
        r == is_revision_file(name@),
{
    let v = chars_of(name);
    let n = v.len();
    if n < 5 {
        return false;
    }
    let suffix = v[n - 5] == '.' && v[n - 4] == 'j' && v[n - 3] == 's' && v[n - 2] == 'o' && v[n - 1] == 'n';
    proof {
        reveal_strlit(".json");
        if suffix {
            assert(v@.subrange(n - 5, n as int) =~= ".json"@);
        } else {
            assert(v@.subrange(n - 5, n as int) != ".json"@) by {
                let w = v@.subrange(n - 5, n as int);
                if w == ".json"@ {
                    assert(w[0] == '.' && w[1] == 'j' && w[2] == 's' && w[3] == 'o' && w[4] == 'n');
                }
            }
        }
    }
    suffix && !str_eq(name, "latest.json")
}

fn time_insert_pos_of(s: &Vec<(String, u64)>, t: u64) -> (r: usize)
    ensures
        r as int == time_insert_pos(entries_seq(s@), t),
        r <= s@.len(),
{
    let ghost sv = entries_seq(s@);
    let mut i: usize = 0;
    assert(sv.subrange(0, sv.len() as int) =~= sv);
    while i < s.len() && !(t < s[i].1)
        invariant
            i <= s@.len(),
            sv == entries_seq(s@),
            time_insert_pos(sv, t) == i + time_insert_pos(sv.subrange(i as int, sv.len() as int), t),
        decreases s.len() - i,
    {
        assert(sv.subrange(i as int, sv.len() as int).drop_first() =~= sv.subrange(i as int + 1, sv.len() as int));
        i = i + 1;
    }
    i
}

/// The entries ordered by modification time, as `by_time` says.
fn by_time_of(files: &Vec<(String, u64)>) -> (r: Vec<(String, u64)>)
    ensures
        entries_seq(r@) == by_time(entries_seq(files@)),
{
    let ghost fv = entries_seq(files@);
    let mut out: Vec<(String, u64)> = Vec::new();
    let mut k: usize = 0;
    assert(entries_seq(out@) =~= by_time(fv.subrange(0, 0)));
    while k < files.len()
        invariant
            k <= files@.len(),
            fv == entries_seq(files@),
            entries_seq(out@) == by_time(fv.subrange(0, k as int)),
        decreases files.len() - k,
    {
        proof {
            assert(fv.subrange(0, k as int + 1).drop_last() =~= fv.subrange(0, k as int));
            lemma_time_insert_pos_bounds(entries_seq(out@), files@[k as int].1);
        }
        let ghost o = entries_seq(out@);
        let p = time_insert_pos_of(&out, files[k].1);
        let e = (files[k].0.clone(), files[k].1);
        out.insert(p, e);
        assert(entries_seq(out@) =~= o.insert(p as int, (files@[k as int].0@, files@[k as int].1)));
        k = k + 1;
    }
    assert(fv.subrange(0, files@.len() as int) =~= fv);
    out
}

/// The revision files to remove so that at most `MAX_DISK_REVISIONS` stay, as
/// `revisions_to_remove_spec` says.
pub fn revisions_to_remove(entries: &Vec<(String, u64)>) -> (r: Vec<String>)
    ensures
        strings_view(r@) == revisions_to_remove_spec(entries_seq(entries@)),
{
    let ghost ev = entries_seq(entries@);
    let mut files: Vec<(String, u64)> = Vec::new();
    let mut k: usize = 0;
    assert(entries_seq(files@) =~= revision_files(ev.subrange(0, 0)));
    while k < entries.len()
        invariant
            k <= entries@.len(),
            ev == entries_seq(entries@),
            entries_seq(files@) == revision_files(ev.subrange(0, k as int)),
        decreases entries.len() - k,
    {
        proof {
            assert(ev.subrange(0, k as int + 1).drop_last() =~= ev.subrange(0, k as int));
        }
        if is_revision_file_of(entries[k].0.as_str()) {
            let ghost before = entries_seq(files@);
            files.push((entries[k].0.clone(), entries[k].1));
            assert(entries_seq(files@) =~= before.push((entries@[k as int].0@, entries@[k as int].1)));
        }
        k = k + 1;
    }
    assert(ev.subrange(0, entries@.len() as int) =~= ev);
    let sorted = by_time_of(&files);
    let mut out: Vec<String> = Vec::new();
    if sorted.len() <= MAX_DISK_REVISIONS {
        assert(strings_view(out@) =~= Seq::<Seq<char>>::empty());
        return out;
    }
    let n = sorted.len() - MAX_DISK_REVISIONS;
    let ghost sv = entries_seq(sorted@);
    let mut i: usize = 0;
    while i < n
        invariant
            i <= n,
            n < sorted@.len(),
            sv == entries_seq(sorted@),
            strings_view(out@) =~= Seq::new(i as nat, |j: int| sv[j].0),
        decreases n - i,
    {
        let ghost before = strings_view(out@);
        out.push(sorted[i].0.clone());
        assert(strings_view(out@) =~= before.push(sv[i as int].0));
        i = i + 1;
    }
    out
}

proof fn lemma_time_insert_pos_before(s: Seq<(Seq<char>, u64)>, t: u64)
    ensures
        forall|k: int| 0 <= k < time_insert_pos(s, t) ==> s[k].1 <= t,
        time_insert_pos(s, t) < s.len() ==> t < s[time_insert_pos(s, t)].1,
    decreases s.len(),
{
    lemma_time_insert_pos_bounds(s, t);
    if s.len() > 0 && !(t < s[0].1) {
        let d = s.drop_first();
        lemma_time_insert_pos_before(d, t);
        lemma_time_insert_pos_bounds(d, t);
        assert forall|k: int| 0 <= k < time_insert_pos(s, t) implies s[k].1 <= t by {
            if k > 0 {
                assert(s[k] == d[k - 1]);
            }
        }
        if time_insert_pos(s, t) < s.len() {
            assert(s[time_insert_pos(s, t)] == d[time_insert_pos(d, t)]);
        }
    }
}

/// Entries ordered by modification time, oldest first.
pub open spec fn time_ordered(s: Seq<(Seq<char>, u64)>) -> bool {
    forall|i: int, j: int| 0 <= i < j < s.len() ==> s[i].1 <= s[j].1
}

proof fn lemma_by_time(s: Seq<(Seq<char>, u64)>)
    ensures
        time_ordered(by_time(s)),
        by_time(s).len() == s.len(),
        by_time(s).to_multiset() == s.to_multiset(),
    decreases s.len(),
{
    if s.len() == 0 {
        assert(s =~= Seq::<(Seq<char>, u64)>::empty());
    } else {
        let o = by_time(s.drop_last());
        lemma_by_time(s.drop_last());
        let t = s.last().1;
        let p = time_insert_pos(o, t);
        lemma_time_insert_pos_bounds(o, t);
        lemma_time_insert_pos_before(o, t);
        let r = o.insert(p, s.last());
        assert forall|i: int, j: int| 0 <= i < j < r.len() implies r[i].1 <= r[j].1 by {
            if j < p {
                assert(r[i] == o[i] && r[j] == o[j]);
            } else if j == p {
                assert(r[i] == o[i]);
            } else if i < p {
                assert(r[i] == o[i] && r[j] == o[j - 1]);
                assert(o[i].1 <= t);
                assert(t < o[p].1);
                assert(o[p].1 <= o[j - 1].1);
            } else if i == p {
                assert(r[j] == o[j - 1]);
                assert(t < o[p].1);
                if j - 1 > p {
                    assert(o[p].1 <= o[j - 1].1);
                }
            } else {
                assert(r[i] == o[i - 1] && r[j] == o[j - 1]);
            }
        }
        assert(s =~= s.drop_last().push(s.last()));
        vstd::seq_lib::to_multiset_insert(o, p, s.last());
        vstd::seq_lib::to_multiset_build(s.drop_last(), s.last());
    }
}

/// The files removed are the oldest revision files: as many as exceed
/// `MAX_DISK_REVISIONS`, each no newer than any file kept, and together with
/// the kept ones exactly the revision files of the directory.
pub proof fn law_removed_revisions_are_the_oldest(entries: Seq<(Seq<char>, u64)>)
    ensures
        ({
            let files = by_time(revision_files(entries));
            let removed = revisions_to_remove_spec(entries);
            &&& files.to_multiset() == revision_files(entries).to_multiset()
            &&& time_ordered(files)
            &&& files.len() <= MAX_DISK_REVISIONS ==> removed.len() == 0
            &&& files.len() > MAX_DISK_REVISIONS ==> removed.len() == files.len() - MAX_DISK_REVISIONS
            &&& forall|i: int| 0 <= i < removed.len() ==> removed[i] == files[i].0
            &&& forall|i: int, j: int| 0 <= i < removed.len() <= j < files.len() ==> files[i].1 <= files[j].1
        }),
{
    lemma_by_time(revision_files(entries));
}
} // verus!
