//! Task handlers of the base plugins: each manages one part of the machine, with
//! a JSON-in, JSON-out interface.
use vstd::prelude::*;
use crate::json::{entries_view, items_view, lemma_array_view, lemma_object_view, Json, JsonV};
use crate::kdl_parser::{opt_view, strings_view};
use crate::provisioning::{TaskChange, TaskChangeType};
use crate::text::{chars_of, string_from_chars, trim, trim_chars};

verus! {

/// What a task module implements: a diff between current and desired state, the
/// application of a desired state, and imperative actions.
pub trait TaskHandler {
    /// The changes that would bring the current state to the desired one.
    /// A module that does not say otherwise needs no change.
    fn diff(&self, current: &Json, desired: &Json) -> (r: Result<Vec<TaskChange>, String>)
        default_ensures
            r is Ok && r->Ok_0@.len() == 0,
    {
        Ok(Vec::new())
    }

    /// Applies the desired state; returns the changes made. A module that does
    /// not say otherwise applies nothing and reports no change.
    fn apply(&self, desired: &Json, dry_run: bool) -> (r: Result<Vec<TaskChange>, String>)
        default_ensures
            r is Ok && r->Ok_0@.len() == 0,
    {
        Ok(Vec::new())
    }

    /// Runs an imperative action. A module that does not say otherwise answers
    /// every action with the empty text.
    fn exec(&self, action: &str, params: &Json) -> (r: Result<String, String>)
        default_ensures
            r is Ok && r->Ok_0@ == Seq::<char>::empty(),
    {
        Ok(String::new())
    }
}

/// Illumos zones.
#[derive(Default)]
pub struct ContainerZones;

/// FreeBSD jails.
#[derive(Default)]
pub struct ContainerJails;

/// Docker containers.
#[derive(Default)]
pub struct ContainerDocker;

/// Podman containers.
#[derive(Default)]
pub struct ContainerPodman;

/// Firewall rules.
#[derive(Default)]
pub struct Firewall;

/// Network links (MTU, VLANs, up and down).
#[derive(Default)]
pub struct NetworkLinks;

/// ZFS pools, datasets and volumes.
#[derive(Default)]
pub struct StorageZfs;

/// UFS file systems.
#[derive(Default)]
pub struct StorageUfs;

/// ext4 file systems.
#[derive(Default)]
pub struct StorageExt4;

/// XFS file systems.
#[derive(Default)]
pub struct StorageXfs;

/// Btrfs file systems.
#[derive(Default)]
pub struct StorageBtrfs;

/// LVM volumes.
#[derive(Default)]
pub struct StorageLvm;

impl TaskHandler for ContainerZones {
    fn diff(&self, current: &Json, desired: &Json) -> (r: Result<Vec<TaskChange>, String>)
        ensures
            r is Ok && r->Ok_0@.len() == 0,
    {
        Ok(Vec::new())
    }

    fn apply(&self, desired: &Json, dry_run: bool) -> (r: Result<Vec<TaskChange>, String>)
        ensures
            r is Ok && r->Ok_0@.len() == 0,
    {
        Ok(Vec::new())
    }

    fn exec(&self, action: &str, params: &Json) -> (r: Result<String, String>)
        ensures
            r is Ok && r->Ok_0@.len() == 0,
    {
        Ok(String::new())
    }
}

impl TaskHandler for ContainerJails {
    fn diff(&self, current: &Json, desired: &Json) -> (r: Result<Vec<TaskChange>, String>)
        ensures
            r is Ok && r->Ok_0@.len() == 0,
    {
        Ok(Vec::new())
    }

    fn apply(&self, desired: &Json, dry_run: bool) -> (r: Result<Vec<TaskChange>, String>)
        ensures
            r is Ok && r->Ok_0@.len() == 0,
    {
        Ok(Vec::new())
    }

    fn exec(&self, action: &str, params: &Json) -> (r: Result<String, String>)
        ensures
            r is Ok && r->Ok_0@.len() == 0,
    {
        Ok(String::new())
    }
}

impl TaskHandler for ContainerDocker {
    fn diff(&self, current: &Json, desired: &Json) -> (r: Result<Vec<TaskChange>, String>)
        ensures
            r is Ok && r->Ok_0@.len() == 0,
    {
        Ok(Vec::new())
    }

    fn apply(&self, desired: &Json, dry_run: bool) -> (r: Result<Vec<TaskChange>, String>)
        ensures
            r is Ok && r->Ok_0@.len() == 0,
    {
        Ok(Vec::new())
    }

    fn exec(&self, action: &str, params: &Json) -> (r: Result<String, String>)
        ensures
            r is Ok && r->Ok_0@.len() == 0,
    {
        Ok(String::new())
    }
}

impl TaskHandler for ContainerPodman {
    fn diff(&self, current: &Json, desired: &Json) -> (r: Result<Vec<TaskChange>, String>)
        ensures
            r is Ok && r->Ok_0@.len() == 0,
    {
        Ok(Vec::new())
    }

    fn apply(&self, desired: &Json, dry_run: bool) -> (r: Result<Vec<TaskChange>, String>)
        ensures
            r is Ok && r->Ok_0@.len() == 0,
    {
        Ok(Vec::new())
    }

    fn exec(&self, action: &str, params: &Json) -> (r: Result<String, String>)
        ensures
            r is Ok && r->Ok_0@.len() == 0,
    {
        Ok(String::new())
    }
}

impl TaskHandler for Firewall {
    fn diff(&self, current: &Json, desired: &Json) -> (r: Result<Vec<TaskChange>, String>)
        ensures
            r is Ok && r->Ok_0@.len() == 0,
    {
        Ok(Vec::new())
    }

    fn apply(&self, desired: &Json, dry_run: bool) -> (r: Result<Vec<TaskChange>, String>)
        ensures
            r is Ok && r->Ok_0@.len() == 0,
    {
        Ok(Vec::new())
    }

    fn exec(&self, action: &str, params: &Json) -> (r: Result<String, String>)
        ensures
            r is Ok && r->Ok_0@.len() == 0,
    {
        Ok(String::new())
    }
}

impl TaskHandler for NetworkLinks {
    fn diff(&self, current: &Json, desired: &Json) -> (r: Result<Vec<TaskChange>, String>)
        ensures
            r is Ok && r->Ok_0@.len() == 0,
    {
        Ok(Vec::new())
    }

    fn apply(&self, desired: &Json, dry_run: bool) -> (r: Result<Vec<TaskChange>, String>)
        ensures
            r is Ok && r->Ok_0@.len() == 0,
    {
        Ok(Vec::new())
    }

    fn exec(&self, action: &str, params: &Json) -> (r: Result<String, String>)
        ensures
            r is Ok && r->Ok_0@.len() == 0,
    {
        Ok(String::new())
    }
}

impl TaskHandler for StorageZfs {
    fn diff(&self, current: &Json, desired: &Json) -> (r: Result<Vec<TaskChange>, String>)
        ensures
            r is Ok && r->Ok_0@.len() == 0,
    {
        Ok(Vec::new())
    }

    fn apply(&self, desired: &Json, dry_run: bool) -> (r: Result<Vec<TaskChange>, String>)
        ensures
            r is Ok && r->Ok_0@.len() == 0,
    {
        Ok(Vec::new())
    }

    fn exec(&self, action: &str, params: &Json) -> (r: Result<String, String>)
        ensures
            r is Ok && r->Ok_0@.len() == 0,
    {
        Ok(String::new())
    }
}

impl TaskHandler for StorageUfs {
    fn diff(&self, current: &Json, desired: &Json) -> (r: Result<Vec<TaskChange>, String>)
        ensures
            r is Ok && r->Ok_0@.len() == 0,
    {
        Ok(Vec::new())
    }

    fn apply(&self, desired: &Json, dry_run: bool) -> (r: Result<Vec<TaskChange>, String>)
        ensures
            r is Ok && r->Ok_0@.len() == 0,
    {
        Ok(Vec::new())
    }

    fn exec(&self, action: &str, params: &Json) -> (r: Result<String, String>)
        ensures
            r is Ok && r->Ok_0@.len() == 0,
    {
        Ok(String::new())
    }
}

impl TaskHandler for StorageExt4 {
    fn diff(&self, current: &Json, desired: &Json) -> (r: Result<Vec<TaskChange>, String>)
        ensures
            r is Ok && r->Ok_0@.len() == 0,
    {
        Ok(Vec::new())
    }

    fn apply(&self, desired: &Json, dry_run: bool) -> (r: Result<Vec<TaskChange>, String>)
        ensures
            r is Ok && r->Ok_0@.len() == 0,
    {
        Ok(Vec::new())
    }

    fn exec(&self, action: &str, params: &Json) -> (r: Result<String, String>)
        ensures
            r is Ok && r->Ok_0@.len() == 0,
    {
        Ok(String::new())
    }
}

impl TaskHandler for StorageXfs {
    fn diff(&self, current: &Json, desired: &Json) -> (r: Result<Vec<TaskChange>, String>)
        ensures
            r is Ok && r->Ok_0@.len() == 0,
    {
        Ok(Vec::new())
    }

    fn apply(&self, desired: &Json, dry_run: bool) -> (r: Result<Vec<TaskChange>, String>)
        ensures
            r is Ok && r->Ok_0@.len() == 0,
    {
        Ok(Vec::new())
    }

    fn exec(&self, action: &str, params: &Json) -> (r: Result<String, String>)
        ensures
            r is Ok && r->Ok_0@.len() == 0,
    {
        Ok(String::new())
    }
}

impl TaskHandler for StorageBtrfs {
    fn diff(&self, current: &Json, desired: &Json) -> (r: Result<Vec<TaskChange>, String>)
        ensures
            r is Ok && r->Ok_0@.len() == 0,
    {
        Ok(Vec::new())
    }

    fn apply(&self, desired: &Json, dry_run: bool) -> (r: Result<Vec<TaskChange>, String>)
        ensures
            r is Ok && r->Ok_0@.len() == 0,
    {
        Ok(Vec::new())
    }

    fn exec(&self, action: &str, params: &Json) -> (r: Result<String, String>)
        ensures
            r is Ok && r->Ok_0@.len() == 0,
    {
        Ok(String::new())
    }
}

impl TaskHandler for StorageLvm {
    fn diff(&self, current: &Json, desired: &Json) -> (r: Result<Vec<TaskChange>, String>)
        ensures
            r is Ok && r->Ok_0@.len() == 0,
    {
        Ok(Vec::new())
    }

    fn apply(&self, desired: &Json, dry_run: bool) -> (r: Result<Vec<TaskChange>, String>)
        ensures
            r is Ok && r->Ok_0@.len() == 0,
    {
        Ok(Vec::new())
    }

    fn exec(&self, action: &str, params: &Json) -> (r: Result<String, String>)
        ensures
            r is Ok && r->Ok_0@.len() == 0,
    {
        Ok(String::new())
    }
}

/// Sets the hostname where the platform supports it; on Windows it does not, and
/// nothing is applied.
pub fn apply_hostname(hostname: &str, dry_run: bool) -> (r: Result<bool, String>)
    ensures
        r == Ok::<bool, String>(false),
{
    Ok(false)
}

/// Sets the DNS servers and search domains where the platform supports it; on
/// Windows it does not, and nothing is applied.
pub fn apply_dns(nameservers: &Vec<String>, search: &Vec<String>, dry_run: bool) -> (r: Result<bool, String>)
    ensures
        r == Ok::<bool, String>(false),
{
    Ok(false)
}

/// Hostname and DNS settings.
#[derive(Default)]
pub struct NetworkSettings;

/// Desired DNS settings.
#[derive(Debug)]
pub struct DesiredDns {
    pub nameservers: Vec<String>,
    pub search: Vec<String>,
}

/// Desired hostname and DNS settings.
#[derive(Debug)]
pub struct DesiredSettings {
    pub hostname: Option<String>,
    pub dns: Option<DesiredDns>,
}

pub struct DesiredSettingsV {
    pub hostname: Option<Seq<char>>,
    pub dns: Option<(Seq<Seq<char>>, Seq<Seq<char>>)>,
}

impl View for DesiredSettings {
    type V = DesiredSettingsV;

    open spec fn view(&self) -> DesiredSettingsV {
        DesiredSettingsV {
            hostname: opt_view(self.hostname),
            dns: match self.dns {
                Some(d) => Some((strings_view(d.nameservers@), strings_view(d.search@))),
                None => None,
            },
        }
    }
}

/// The texts trimmed, without those that are empty after trimming.
pub open spec fn trimmed_nonempty(v: Seq<Seq<char>>) -> Seq<Seq<char>>
    decreases v.len(),
{
    if v.len() == 0 {
        Seq::empty()
    } else if trim(v.last()).len() > 0 {
        trimmed_nonempty(v.drop_last()).push(trim(v.last()))
    } else {
        trimmed_nonempty(v.drop_last())
    }
}

/// The settings with the hostname trimmed (and dropped where empty), the DNS lists
/// trimmed without empty entries, and the DNS settings dropped where both lists
/// are then empty.
pub open spec fn sanitized(s: DesiredSettingsV) -> DesiredSettingsV {
    DesiredSettingsV {
        hostname: match s.hostname {
            Some(h) => if trim(h).len() > 0 {
                Some(trim(h))
            } else {
                None
            },
            None => None,
        },
        dns: match s.dns {
            Some((ns, search)) => if trimmed_nonempty(ns).len() == 0 && trimmed_nonempty(search).len() == 0 {
                None
            } else {
                Some((trimmed_nonempty(ns), trimmed_nonempty(search)))
            },
            None => None,
        },
    }
}

fn trim_all(v: &Vec<String>) -> (r: Vec<String>)
    ensures
        strings_view(r@) == trimmed_nonempty(strings_view(v@)),
{
    let ghost sv = strings_view(v@);
    let mut out: Vec<String> = Vec::new();
    let mut i: usize = 0;
    assert(strings_view(out@) =~= trimmed_nonempty(sv.subrange(0, 0)));
    while i < v.len()
        invariant
            i <= v@.len(),
            sv == strings_view(v@),
            strings_view(out@) == trimmed_nonempty(sv.subrange(0, i as int)),
        decreases v.len() - i,
    {
        proof {
            assert(sv.subrange(0, i as int + 1).drop_last() =~= sv.subrange(0, i as int));
            assert(sv.subrange(0, i as int + 1).last() == v@[i as int]@);
        }
        let t = trim_chars(&chars_of(v[i].as_str()));
        if t.len() > 0 {
            let ghost before = strings_view(out@);
            out.push(string_from_chars(&t));
            assert(strings_view(out@) =~= before.push(t@));
        }
        i = i + 1;
    }
    assert(sv.subrange(0, v@.len() as int) =~= sv);
    out
}

/// The settings as they are applied, as `sanitized` says.
pub fn sanitize(s: DesiredSettings) -> (r: DesiredSettings)
    ensures
        r@ == sanitized(s@),
{
    let hostname = match &s.hostname {
        Some(h) => {
            let t = trim_chars(&chars_of(h.as_str()));
            if t.len() > 0 {
                Some(string_from_chars(&t))
            } else {
                None
            }
        },
        None => None,
    };
    let dns = match &s.dns {
        Some(d) => {
            let ns = trim_all(&d.nameservers);
            let search = trim_all(&d.search);
            if ns.len() == 0 && search.len() == 0 {
                None
            } else {
                Some(DesiredDns { nameservers: ns, search })
            }
        },
        None => None,
    };
    DesiredSettings { hostname, dns }
}

/// The JSON array of some texts.
pub open spec fn strings_json(v: Seq<Seq<char>>) -> JsonV {
    JsonV::Array(Seq::new(v.len(), |i: int| JsonV::Str(v[i])))
}

/// The change that sets the hostname.
pub open spec fn hostname_change_v(h: Seq<char>) -> (TaskChangeType, Seq<char>, Option<JsonV>, Option<JsonV>, bool) {
    (TaskChangeType::Update, "network.settings.hostname"@, None, Some(JsonV::Str(h)), false)
}

/// The change that sets the DNS servers and search domains.
pub open spec fn dns_change_v(ns: Seq<Seq<char>>, search: Seq<Seq<char>>) -> (TaskChangeType, Seq<char>, Option<JsonV>, Option<JsonV>, bool) {
    (
        TaskChangeType::Update,
        "network.settings.dns"@,
        None,
        Some(JsonV::Object(seq![("nameservers"@, strings_json(ns)), ("search"@, strings_json(search))])),
        false,
    )
}

/// The model of a change.
pub open spec fn change_view(c: TaskChange) -> (TaskChangeType, Seq<char>, Option<JsonV>, Option<JsonV>, bool) {
    (
        c.change_type,
        c.path@,
        match c.old_value {
            Some(v) => Some(v@),
            None => None,
        },
        match c.new_value {
            Some(v) => Some(v@),
            None => None,
        },
        c.verbose,
    )
}

/// The models of changes.
pub open spec fn changes_view(v: Seq<TaskChange>) -> Seq<(TaskChangeType, Seq<char>, Option<JsonV>, Option<JsonV>, bool)> {
    Seq::new(v.len(), |i: int| change_view(v[i]))
}

/// The changes that desired settings ask for: the hostname, then the DNS settings,
/// each where given.
pub open spec fn settings_changes(s: DesiredSettingsV) -> Seq<(TaskChangeType, Seq<char>, Option<JsonV>, Option<JsonV>, bool)> {
    (match s.hostname {
        Some(h) => seq![hostname_change_v(h)],
        None => Seq::empty(),
    }) + (match s.dns {
        Some((ns, search)) => seq![dns_change_v(ns, search)],
        None => Seq::empty(),
    })
}

pub(crate) fn strings_to_json(v: &Vec<String>) -> (r: Json)
    ensures
        r@ == strings_json(strings_view(v@)),
{
    let mut items: Vec<Json> = Vec::new();
    let mut i: usize = 0;
    while i < v.len()
        invariant
            i <= v@.len(),
            items_view(items@) =~= Seq::new(i as nat, |k: int| JsonV::Str(v@[k]@)),
        decreases v.len() - i,
    {
        let ghost before = items_view(items@);
        let x = Json::Str(v[i].clone());
        items.push(x);
        assert(items_view(items@) =~= before.push(x@));
        i = i + 1;
    }
    proof {
        lemma_array_view(items);
        assert(items_view(items@) =~= Seq::new(strings_view(v@).len(), |k: int| JsonV::Str(strings_view(v@)[k])));
    }
    Json::Array(items)
}

impl NetworkSettings {
    /// The change that sets the hostname.
    pub fn hostname_change(h: &String) -> (r: TaskChange)
        ensures
            change_view(r) == hostname_change_v(h@),
    {
        TaskChange {
            change_type: TaskChangeType::Update,
            path: "network.settings.hostname".to_owned(),
            old_value: None,
            new_value: Some(Json::Str(h.clone())),
            verbose: false,
        }
    }

    /// The change that sets the DNS servers and search domains.
    pub fn dns_change(dns: &DesiredDns) -> (r: TaskChange)
        ensures
            change_view(r) == dns_change_v(strings_view(dns.nameservers@), strings_view(dns.search@)),
    {
        let mut members: Vec<(String, Json)> = Vec::new();
        members.push(("nameservers".to_owned(), strings_to_json(&dns.nameservers)));
        members.push(("search".to_owned(), strings_to_json(&dns.search)));
        proof {
            lemma_object_view(members);
            assert(entries_view(members@) =~= seq![
                ("nameservers"@, strings_json(strings_view(dns.nameservers@))),
                ("search"@, strings_json(strings_view(dns.search@))),
            ]);
        }
        TaskChange {
            change_type: TaskChangeType::Update,
            path: "network.settings.dns".to_owned(),
            old_value: None,
            new_value: Some(Json::Object(members)),
            verbose: false,
        }
    }

    /// The changes that sanitized desired settings ask for.
    pub fn changes_for(s: &DesiredSettings) -> (r: Vec<TaskChange>)
        ensures
            changes_view(r@) == settings_changes(s@),
    {
        let mut out: Vec<TaskChange> = Vec::new();
        match &s.hostname {
            Some(h) => {
                out.push(Self::hostname_change(h));
            },
            None => {},
        }
        let ghost mid = changes_view(out@);
        match &s.dns {
            Some(d) => {
                out.push(Self::dns_change(d));
            },
            None => {},
        }
        assert(changes_view(out@) =~= settings_changes(s@));
        out
    }
}

} // verus!
