//! Data-source selection and configuration merging for the provisioning plugin.
use vstd::prelude::*;
use crate::error::Error;
use crate::json::{
    entries_view, find_member, lemma_find_key_bounds, lemma_lookup_insert_other,
    lemma_lookup_insert_same, lemma_object_view, lookup, members_insert, obj_insert, Json, JsonV,
};
use crate::text::{
    chars_eq, chars_of, split_chars, split_on, trim, trim_chars, views_of,
};

verus! {

/// The value after laying `overlay` over `base`: objects merge member by member,
/// anything else in the overlay replaces what was there.
pub open spec fn merge(base: JsonV, overlay: JsonV) -> JsonV
    decreases overlay, 0nat,
{
    match (base, overlay) {
        (JsonV::Object(b), JsonV::Object(o)) => JsonV::Object(merge_members(b, o, o.len())),
        _ => overlay,
    }
}

/// The members of `b` after laying the first `n` members of `o` over them, in order.
pub open spec fn merge_members(b: Seq<(Seq<char>, JsonV)>, o: Seq<(Seq<char>, JsonV)>, n: nat) -> Seq<(Seq<char>, JsonV)>
    decreases o, n,
{
    if n == 0 || n > o.len() {
        b
    } else {
        let acc = merge_members(b, o, (n - 1) as nat);
        let (k, v) = o[n - 1];
        match lookup(acc, k) {
            Some(bv) => obj_insert(acc, k, merge(bv, v)),
            None => obj_insert(acc, k, v),
        }
    }
}

/// Merges two configurations, the overlay taking precedence.
#[verifier::loop_isolation(false)]
pub fn merge_configurations(base: &mut Json, overlay: Json) -> (r: Result<(), Error>)
    ensures
        r is Ok,
        final(base)@ == merge(old(base)@, overlay@),
    decreases overlay,
{
    let ghost ov = overlay;
    match overlay {
        Json::Object(mut o) => {
            let ghost o0 = o;
            proof {
                lemma_object_view(o);
            }
            let ghost oe = entries_view(o@);
            let mut taken = Json::Null;
            std::mem::swap(&mut taken, base);
            let ghost bv = taken@;
            match taken {
                Json::Object(mut b) => {
                    proof {
                        lemma_object_view(b);
                    }
                    let ghost be = entries_view(b@);
                    let ghost o_all = o@;
                    let mut n: usize = 0;
                    let total = o.len();
                    while o.len() > 0
                        invariant
                            total == o_all.len(),
                            n + o.len() == total,
                            o@ == o_all.subrange(n as int, total as int),
                            oe == entries_view(o_all),
                            entries_view(b@) == merge_members(be, oe, n as nat),
                            ov == Json::Object(o0),
                            o0@ == o_all,
                        decreases o.len(),
                    {
                        let (k, v) = o.remove(0);
                        proof {
                            assert(o_all[n as int] == (k, v));
                            assert(oe[n as int] == (k@, v@));
                            assert(ov->Object_0 == o0);
                            assert(decreases_to!(ov => ov->Object_0));
                            assert(decreases_to!(o0 => o0@));
                            assert(decreases_to!(o0@ => o0@[n as int]));
                            assert(decreases_to!(o0@[n as int] => o0@[n as int].1));
                            assert(o0@[n as int].1 == v);
                            assert(decreases_to!(ov => v));
                        }
                        let key = chars_of(k.as_str());
                        match find_member(&b, &key) {
                            Some(idx) => {
                                let ghost b0 = b@;
                                let (bk, mut child) = b.remove(idx);
                                proof {
                                    lemma_find_key_bounds(entries_view(b0), key@);
                                    assert(entries_view(b0)[idx as int] == (bk@, child@));
                                    assert(lookup(entries_view(b0), k@) == Some(child@));
                                }
                                let _ = merge_configurations(&mut child, v);
                                b.insert(idx, (bk, child));
                                proof {
                                    assert(b@ =~= b0.update(idx as int, (bk, child)));
                                    assert(entries_view(b@) =~= entries_view(b0).update(idx as int, (k@, child@)));
                                }
                            },
                            None => {
                                members_insert(&mut b, &key, v);
                            },
                        }
                        proof {
                            assert(o@ =~= o_all.subrange(n as int + 1, total as int));
                        }
                        n = n + 1;
                    }
                    proof {
                        lemma_object_view(b);
                    }
                    *base = Json::Object(b);
                },
                other => {
                    *base = Json::Object(o);
                    proof {
                        lemma_object_view(o);
                    }
                },
            }
        },
        other => {
            *base = other;
        },
    }
    Ok(())
}

/// Law: laying an empty object over an object leaves it unchanged.
pub proof fn law_merge_empty_overlay(b: Seq<(Seq<char>, JsonV)>)
    ensures
        merge(JsonV::Object(b), JsonV::Object(Seq::empty())) == JsonV::Object(b),
{
}

/// Law: an overlay that is not an object replaces the base entirely.
pub proof fn law_merge_scalar_overlay(base: JsonV, overlay: JsonV)
    requires
        !(overlay is Object),
    ensures
        merge(base, overlay) == overlay,
{
}

proof fn lemma_merge_members_other(b: Seq<(Seq<char>, JsonV)>, o: Seq<(Seq<char>, JsonV)>, n: nat, k: Seq<char>)
    requires
        n <= o.len(),
        forall|j: int| 0 <= j < n ==> o[j].0 != k,
    ensures
        lookup(merge_members(b, o, n), k) == lookup(b, k),
    decreases n,
{
    if n > 0 {
        lemma_merge_members_other(b, o, (n - 1) as nat, k);
        let acc = merge_members(b, o, (n - 1) as nat);
        let (kk, v) = o[n - 1];
        match lookup(acc, kk) {
            Some(bv) => lemma_lookup_insert_other(acc, kk, merge(bv, v), k),
            None => lemma_lookup_insert_other(acc, kk, v, k),
        }
    }
}

proof fn lemma_merge_members_scalar(b: Seq<(Seq<char>, JsonV)>, o: Seq<(Seq<char>, JsonV)>, n: nat, j: int)
    requires
        n <= o.len(),
        0 <= j < n,
        forall|x: int, y: int| 0 <= x < y < o.len() ==> o[x].0 != o[y].0,
        !(o[j].1 is Object),
    ensures
        lookup(merge_members(b, o, n), o[j].0) == Some(o[j].1),
    decreases n,
{
    let acc = merge_members(b, o, (n - 1) as nat);
    let (kk, v) = o[n - 1];
    if j == n - 1 {
        match lookup(acc, kk) {
            Some(bv) => lemma_lookup_insert_same(acc, kk, merge(bv, v)),
            None => lemma_lookup_insert_same(acc, kk, v),
        }
    } else {
        lemma_merge_members_scalar(b, o, (n - 1) as nat, j);
        match lookup(acc, kk) {
            Some(bv) => lemma_lookup_insert_other(acc, kk, merge(bv, v), o[j].0),
            None => lemma_lookup_insert_other(acc, kk, v, o[j].0),
        }
    }
}

/// Law: when an object is laid over an object, every member of the overlay that
/// is not itself an object is found in the result with the overlay's value, and
/// every key the overlay does not name keeps the base's value.
pub proof fn law_merge_overlay_wins(b: Seq<(Seq<char>, JsonV)>, o: Seq<(Seq<char>, JsonV)>, k: Seq<char>)
    requires
        forall|x: int, y: int| 0 <= x < y < o.len() ==> o[x].0 != o[y].0,
    ensures
        merge(JsonV::Object(b), JsonV::Object(o)) is Object,
        forall|j: int| 0 <= j < o.len() && !(o[j].1 is Object) ==>
            lookup(#[trigger] merge(JsonV::Object(b), JsonV::Object(o))->Object_0, o[j].0) == Some(o[j].1),
        (forall|j: int| 0 <= j < o.len() ==> o[j].0 != k) ==>
            lookup(merge(JsonV::Object(b), JsonV::Object(o))->Object_0, k) == lookup(b, k),
{
    assert forall|j: int| 0 <= j < o.len() && !(o[j].1 is Object) implies
        lookup(#[trigger] merge(JsonV::Object(b), JsonV::Object(o))->Object_0, o[j].0) == Some(o[j].1) by {
        lemma_merge_members_scalar(b, o, o.len(), j);
    }
    if forall|j: int| 0 <= j < o.len() ==> o[j].0 != k {
        lemma_merge_members_other(b, o, o.len(), k);
    }
}

/// Data source for provisioning configuration.
#[derive(Debug)]
pub enum DataSource {
    /// A local file, by path.
    Local(String),
    /// Cloud-init files.
    CloudInit(CloudInitPaths),
    /// The EC2 metadata service.
    Ec2,
    /// The GCP metadata service.
    Gcp,
    /// The Azure metadata service.
    Azure,
}

/// Paths of the cloud-init files.
#[derive(Debug)]
pub struct CloudInitPaths {
    pub meta_data: String,
    pub user_data: String,
    pub network_config: String,
}

/// A data source with its priority (lower number = higher priority).
#[derive(Debug)]
pub struct PrioritizedSource {
    pub source: DataSource,
    pub priority: u32,
}

/// The model of a data source.
pub enum DataSourceV {
    Local(Seq<char>),
    CloudInit(Seq<char>, Seq<char>, Seq<char>),
    Ec2,
    Gcp,
    Azure,
}

impl DataSource {
    pub open spec fn model(&self) -> DataSourceV {
        match self {
            DataSource::Local(p) => DataSourceV::Local(p@),
            DataSource::CloudInit(c) => DataSourceV::CloudInit(c.meta_data@, c.user_data@, c.network_config@),
            DataSource::Ec2 => DataSourceV::Ec2,
            DataSource::Gcp => DataSourceV::Gcp,
            DataSource::Azure => DataSourceV::Azure,
        }
    }
}

/// The model of a list of prioritized sources.
pub open spec fn sources_model(v: Seq<PrioritizedSource>) -> Seq<(DataSourceV, nat)> {
    Seq::new(v.len(), |i: int| (v[i].source.model(), v[i].priority as nat))
}

/// The source a (trimmed) name selects, if any: `local` only when a
/// configuration file is given, and unknown names select nothing.
pub open spec fn source_for(name: Seq<char>, config_file: Option<Seq<char>>, md: Seq<char>, ud: Seq<char>, nc: Seq<char>) -> Option<DataSourceV> {
    if name == "local"@ {
        match config_file {
            Some(f) => Some(DataSourceV::Local(f)),
            None => None,
        }
    } else if name == "cloud-init"@ {
        Some(DataSourceV::CloudInit(md, ud, nc))
    } else if name == "ec2"@ {
        Some(DataSourceV::Ec2)
    } else if name == "gcp"@ {
        Some(DataSourceV::Gcp)
    } else if name == "azure"@ {
        Some(DataSourceV::Azure)
    } else {
        None
    }
}

/// The selected sources for the comma-separated names: the `i`-th name (from
/// one) gets priority `10 * i` whether or not it selects a source.
pub open spec fn sources_for(names: Seq<Seq<char>>, config_file: Option<Seq<char>>, md: Seq<char>, ud: Seq<char>, nc: Seq<char>) -> Seq<(DataSourceV, nat)>
    decreases names.len(),
{
    if names.len() == 0 {
        Seq::empty()
    } else {
        let prior = sources_for(names.drop_last(), config_file, md, ud, nc);
        match source_for(trim(names.last()), config_file, md, ud, nc) {
            Some(s) => prior.push((s, 10 * names.len())),
            None => prior,
        }
    }
}

fn is_name(name: &Vec<char>, lit: &str) -> (r: bool)
    ensures
        r == (name@ == lit@),
{
    let l = chars_of(lit);
    chars_eq(name, &l)
}

proof fn lemma_sources_for_priorities(names: Seq<Seq<char>>, config_file: Option<Seq<char>>, md: Seq<char>, ud: Seq<char>, nc: Seq<char>)
    ensures
        forall|i: int| 0 <= i < sources_for(names, config_file, md, ud, nc).len() ==>
            #[trigger] sources_for(names, config_file, md, ud, nc)[i].1 <= 10 * names.len(),
        forall|i: int, j: int| 0 <= i < j < sources_for(names, config_file, md, ud, nc).len() ==>
            #[trigger] sources_for(names, config_file, md, ud, nc)[i].1 < #[trigger] sources_for(names, config_file, md, ud, nc)[j].1,
    decreases names.len(),
{
    if names.len() > 0 {
        let prior = sources_for(names.drop_last(), config_file, md, ud, nc);
        lemma_sources_for_priorities(names.drop_last(), config_file, md, ud, nc);
        let cur = sources_for(names, config_file, md, ud, nc);
        assert forall|i: int| 0 <= i < cur.len() implies #[trigger] cur[i].1 <= 10 * names.len() by {
            if i < prior.len() {
                assert(cur[i] == prior[i]);
                assert(prior[i].1 <= 10 * names.drop_last().len());
            }
        }
        assert forall|i: int, j: int| 0 <= i < j < cur.len() implies #[trigger] cur[i].1 < #[trigger] cur[j].1 by {
            assert(cur[i] == prior[i]);
            if j < prior.len() {
                assert(cur[j] == prior[j]);
            } else {
                assert(prior[i].1 <= 10 * names.drop_last().len());
            }
        }
    }
}

/// Parses a comma-separated list of source names into prioritized sources,
/// ordered by priority.
pub fn parse_data_sources(
    sources_str: &str,
    config_file: Option<&str>,
    cloud_init_meta_data: &str,
    cloud_init_user_data: &str,
    cloud_init_network_config: &str,
) -> (r: Result<Vec<PrioritizedSource>, Error>)
    requires
        10 * split_on(sources_str@, ',').len() <= u32::MAX,
    ensures
        r is Ok,
        sources_model(r->Ok_0@) == sources_for(
            split_on(sources_str@, ','),
            match config_file {
                Some(f) => Some(f@),
                None => None,
            },
            cloud_init_meta_data@,
            cloud_init_user_data@,
            cloud_init_network_config@,
        ),
        forall|i: int, j: int| 0 <= i < j < r->Ok_0@.len() ==> r->Ok_0@[i].priority < r->Ok_0@[j].priority,
{
    let ghost cf = match config_file {
        Some(f) => Some(f@),
        None => None,
    };
    let chars = chars_of(sources_str);
    let names = split_chars(&chars, ',');
    let ghost ns = views_of(names@);
    let mut sources: Vec<PrioritizedSource> = Vec::new();
    let mut priority: u32 = 0;
    let mut i: usize = 0;
    while i < names.len()
        invariant
            i <= names.len(),
            ns == views_of(names@),
            ns == split_on(sources_str@, ','),
            cf == match config_file {
                Some(f) => Some(f@),
                None => None::<Seq<char>>,
            },
            10 * ns.len() <= u32::MAX,
            priority == 10 * i,
            sources_model(sources@) == sources_for(ns.subrange(0, i as int), cf, cloud_init_meta_data@, cloud_init_user_data@, cloud_init_network_config@),
        decreases names.len() - i,
    {
        proof {
            assert(ns.subrange(0, i as int + 1).drop_last() =~= ns.subrange(0, i as int));
            assert(ns.subrange(0, i as int + 1).last() == names@[i as int]@);
        }
        priority = priority + 10;
        let name = trim_chars(&names[i]);
        let ghost before = sources_model(sources@);
        let source = if is_name(&name, "local") {
            match config_file {
                Some(f) => Some(DataSource::Local(f.to_owned())),
                None => None,
            }
        } else if is_name(&name, "cloud-init") {
            Some(DataSource::CloudInit(CloudInitPaths {
                meta_data: cloud_init_meta_data.to_owned(),
                user_data: cloud_init_user_data.to_owned(),
                network_config: cloud_init_network_config.to_owned(),
            }))
        } else if is_name(&name, "ec2") {
            Some(DataSource::Ec2)
        } else if is_name(&name, "gcp") {
            Some(DataSource::Gcp)
        } else if is_name(&name, "azure") {
            Some(DataSource::Azure)
        } else {
            None
        };
        proof {
            broadcast use vstd::string::group_string_axioms;
            reveal_strlit("local");
            reveal_strlit("cloud-init");
            reveal_strlit("ec2");
            reveal_strlit("gcp");
            reveal_strlit("azure");
            assert("ec2"@.len() == 3 && "ec2"@[0] == 'e');
            assert("gcp"@.len() == 3 && "gcp"@[0] == 'g');
            assert("local"@.len() == 5 && "local"@[0] == 'l');
            assert("azure"@.len() == 5 && "azure"@[0] == 'a');
            assert("cloud-init"@.len() == 10);
        }
        assert(match source_for(name@, cf, cloud_init_meta_data@, cloud_init_user_data@, cloud_init_network_config@) {
            Some(m) => source is Some && source->0.model() == m,
            None => source is None,
        });
        match source {
            Some(s) => {
                sources.push(PrioritizedSource { source: s, priority });
                assert(sources_model(sources@) =~= before.push((sources@.last().source.model(), priority as nat)));
            },
            None => {},
        }
        i = i + 1;
    }
    proof {
        assert(ns.subrange(0, names.len() as int) =~= ns);
        lemma_sources_for_priorities(ns, cf, cloud_init_meta_data@, cloud_init_user_data@, cloud_init_network_config@);
        assert forall|a: int, b: int| 0 <= a < b < sources@.len() implies sources@[a].priority < sources@[b].priority by {
            assert(sources_model(sources@)[a].1 == sources@[a].priority);
            assert(sources_model(sources@)[b].1 == sources@[b].priority);
        }
    }
    Ok(sources)
}

/// The kind of a structured change produced by a task handler.
#[derive(Debug, Clone, Copy, PartialEq, Eq, Structural)]
pub enum TaskChangeType {
    Create,
    Update,
    Delete,
}

impl TaskChangeType {
    /// The lowercase name of the change kind.
    pub fn as_str(&self) -> (r: &'static str)
        ensures
            r@ == match self {
                TaskChangeType::Create => "create"@,
                TaskChangeType::Update => "update"@,
                TaskChangeType::Delete => "delete"@,
            },
    {
        match self {
            TaskChangeType::Create => "create",
            TaskChangeType::Update => "update",
            TaskChangeType::Delete => "delete",
        }
    }
}

/// A structured change produced by a task handler.
#[derive(Debug)]
pub struct TaskChange {
    pub change_type: TaskChangeType,
    pub path: String,
    pub old_value: Option<Json>,
    pub new_value: Option<Json>,
    /// Whether this change may contain verbose or large data that clients can omit.
    pub verbose: bool,
}

} // verus!
