//! Merging the configurations of several sources by priority: a lower priority
//! number takes precedence over a higher one.
use vstd::prelude::*;
use std::collections::BTreeMap;
use vstd::std_specs::iter::IteratorSpec;
use vstd::std_specs::cmp::OrdSpec;
use crate::keyed::{lemma_insert_all_union, pairs_view, put_all};
use crate::prov_config::{
    add_routes, add_unique, add_users, empty_config, has_route, has_user, prefer, push_routes, push_unique, push_users,
    ProvisioningConfig, ProvisioningConfigV, RouteConfigV, UserConfigV,
};

verus! {

/// The first merging pass over one configuration: scalar settings are taken
/// where none is set yet, list items where new, users where no user of that name
/// exists, and interfaces and metadata replace those under the same name.
pub open spec fn take_lower(r: ProvisioningConfigV, c: ProvisioningConfigV) -> ProvisioningConfigV {
    ProvisioningConfigV {
        hostname: if c.hostname is Some && r.hostname is None { c.hostname } else { r.hostname },
        nameservers: add_unique(r.nameservers, c.nameservers),
        search_domains: add_unique(r.search_domains, c.search_domains),
        interfaces: r.interfaces.union_prefer_right(c.interfaces),
        ssh_authorized_keys: add_unique(r.ssh_authorized_keys, c.ssh_authorized_keys),
        users: add_users(r.users, c.users),
        user_data: if c.user_data is Some && r.user_data is None { c.user_data } else { r.user_data },
        user_data_base64: if c.user_data_base64 is Some && r.user_data_base64 is None {
            c.user_data_base64
        } else {
            r.user_data_base64
        },
        metadata: r.metadata.union_prefer_right(c.metadata),
        routes: add_routes(r.routes, c.routes),
        ntp_servers: add_unique(r.ntp_servers, c.ntp_servers),
        timezone: if c.timezone is Some && r.timezone is None { c.timezone } else { r.timezone },
    }
}

/// The second merging pass over one configuration: its scalar settings, its
/// interfaces and its metadata override.
pub open spec fn take_override(r: ProvisioningConfigV, c: ProvisioningConfigV) -> ProvisioningConfigV {
    ProvisioningConfigV {
        hostname: prefer(r.hostname, c.hostname),
        user_data: prefer(r.user_data, c.user_data),
        user_data_base64: prefer(r.user_data_base64, c.user_data_base64),
        timezone: prefer(r.timezone, c.timezone),
        interfaces: r.interfaces.union_prefer_right(c.interfaces),
        metadata: r.metadata.union_prefer_right(c.metadata),
        ..r
    }
}

/// The first pass over configurations in order.
pub open spec fn pass_lower(r: ProvisioningConfigV, cs: Seq<ProvisioningConfigV>) -> ProvisioningConfigV
    decreases cs.len(),
{
    if cs.len() == 0 {
        r
    } else {
        take_lower(pass_lower(r, cs.drop_last()), cs.last())
    }
}

/// The second pass over configurations in order.
pub open spec fn pass_override(r: ProvisioningConfigV, cs: Seq<ProvisioningConfigV>) -> ProvisioningConfigV
    decreases cs.len(),
{
    if cs.len() == 0 {
        r
    } else {
        take_override(pass_override(r, cs.drop_last()), cs.last())
    }
}

/// The configurations from the highest priority number down to the lowest.
pub open spec fn descending(s: Seq<(u32, ProvisioningConfigV)>) -> Seq<ProvisioningConfigV> {
    Seq::new(s.len(), |i: int| s[s.len() - 1 - i].1)
}

/// The merge of configurations held in increasing priority number: both passes
/// run from the highest number down, so that the lowest number is applied last.
pub open spec fn merged(s: Seq<(u32, ProvisioningConfigV)>) -> ProvisioningConfigV {
    pass_override(pass_lower(empty_config(), descending(s)), descending(s))
}

/// Priority numbers strictly increase.
pub open spec fn increasing(s: Seq<(u32, ProvisioningConfigV)>) -> bool {
    forall|i: int, j: int| 0 <= i < j < s.len() ==> s[i].0 < s[j].0
}

/// The position where priority `p` belongs.
pub open spec fn lower_bound(s: Seq<(u32, ProvisioningConfigV)>, p: u32) -> int
    decreases s.len(),
{
    if s.len() == 0 {
        0
    } else if s.last().0 < p {
        s.len() as int
    } else {
        lower_bound(s.drop_last(), p)
    }
}

/// The configurations after adding `c` under priority `p`, which replaces one of
/// that priority.
pub open spec fn with_config(s: Seq<(u32, ProvisioningConfigV)>, p: u32, c: ProvisioningConfigV) -> Seq<
    (u32, ProvisioningConfigV),
> {
    let i = lower_bound(s, p);
    if i < s.len() && s[i].0 == p {
        s.update(i, (p, c))
    } else {
        s.insert(i, (p, c))
    }
}

/// Merges configurations held by priority.
#[derive(Debug)]
pub struct ConfigMerger {
    /// Configurations by priority number.
    configs: BTreeMap<u32, ProvisioningConfig>,
}

/// The models of configurations held by priority number.
pub open spec fn views_by_priority(m: Map<u32, ProvisioningConfig>) -> Map<u32, ProvisioningConfigV> {
    Map::new(|k: u32| m.contains_key(k), |k: u32| m[k]@)
}

/// `s` lists the entries of `m` in increasing priority number.
pub open spec fn enumerates(s: Seq<(u32, ProvisioningConfigV)>, m: Map<u32, ProvisioningConfigV>) -> bool {
    &&& increasing(s)
    &&& forall|i: int| 0 <= i < s.len() ==> #[trigger] m.contains_key(s[i].0) && m[s[i].0] == s[i].1
    &&& forall|k: u32| #[trigger] m.contains_key(k) ==> exists|i: int| 0 <= i < s.len() && s[i].0 == k
}

/// Without its last entry, an enumeration lists the map without that entry's key.
proof fn lemma_enumerates_drop_last(s: Seq<(u32, ProvisioningConfigV)>, m: Map<u32, ProvisioningConfigV>)
    requires
        enumerates(s, m),
        s.len() > 0,
    ensures
        enumerates(s.drop_last(), m.remove(s.last().0)),
        forall|k: u32| #[trigger] m.contains_key(k) ==> k <= s.last().0,
{
    let k0 = s.last().0;
    let d = s.drop_last();
    let r = m.remove(k0);
    assert forall|i: int| 0 <= i < d.len() implies #[trigger] r.contains_key(d[i].0) && r[d[i].0] == d[i].1 by {
        assert(d[i] == s[i]);
        assert(s[i].0 < k0);
        assert(m.contains_key(s[i].0));
    }
    assert forall|k: u32| #[trigger] r.contains_key(k) implies exists|i: int| 0 <= i < d.len() && d[i].0 == k by {
        assert(m.contains_key(k));
        let i = choose|i: int| 0 <= i < s.len() && s[i].0 == k;
        assert(i != s.len() - 1);
        assert(d[i] == s[i]);
    }
    assert forall|k: u32| #[trigger] m.contains_key(k) implies k <= s.last().0 by {
        let i = choose|i: int| 0 <= i < s.len() && s[i].0 == k;
        if i < s.len() - 1 {
            assert(s[i].0 < s[s.len() - 1].0);
        }
    }
}

/// A map has one enumeration only.
proof fn lemma_enumeration_unique(s1: Seq<(u32, ProvisioningConfigV)>, s2: Seq<(u32, ProvisioningConfigV)>, m: Map<u32, ProvisioningConfigV>)
    requires
        enumerates(s1, m),
        enumerates(s2, m),
    ensures
        s1 == s2,
    decreases s1.len(),
{
    if s1.len() == 0 {
        if s2.len() > 0 {
            assert(m.contains_key(s2[0].0));
        }
        assert(s1 =~= s2);
    } else {
        if s2.len() == 0 {
            assert(m.contains_key(s1[0].0));
        }
        lemma_enumerates_drop_last(s1, m);
        lemma_enumerates_drop_last(s2, m);
        assert(m.contains_key(s1.last().0) && m.contains_key(s2.last().0));
        assert(s1.last().0 == s2.last().0);
        lemma_enumeration_unique(s1.drop_last(), s2.drop_last(), m.remove(s1.last().0));
        assert(s1 =~= s1.drop_last().push(s1.last()));
        assert(s2 =~= s2.drop_last().push(s2.last()));
    }
}

/// An enumeration of a finite map has one entry per key.
proof fn lemma_enumerates_len(s: Seq<(u32, ProvisioningConfigV)>, m: Map<u32, ProvisioningConfigV>)
    requires
        enumerates(s, m),
        m.dom().finite(),
    ensures
        s.len() == m.dom().len(),
    decreases s.len(),
{
    if s.len() == 0 {
        assert forall|k: u32| !m.dom().contains(k) by {
            if m.contains_key(k) {
                let i = choose|i: int| 0 <= i < s.len() && s[i].0 == k;
            }
        }
        assert(m.dom() =~= Set::<u32>::empty());
    } else {
        lemma_enumerates_drop_last(s, m);
        lemma_enumerates_len(s.drop_last(), m.remove(s.last().0));
        assert(m.remove(s.last().0).dom() =~= m.dom().remove(s.last().0));
    }
}

/// The lower bound splits an increasing enumeration at `p`.
proof fn lemma_lower_bound_split(s: Seq<(u32, ProvisioningConfigV)>, p: u32)
    requires
        increasing(s),
    ensures
        0 <= lower_bound(s, p) <= s.len(),
        forall|k: int| 0 <= k < lower_bound(s, p) ==> s[k].0 < p,
        lower_bound(s, p) < s.len() ==> s[lower_bound(s, p)].0 >= p,
    decreases s.len(),
{
    if s.len() > 0 {
        lemma_lower_bound_split(s.drop_last(), p);
        if !(s.last().0 < p) {
            let i = lower_bound(s.drop_last(), p);
            assert forall|k: int| 0 <= k < i implies s[k].0 < p by {
                assert(s[k] == s.drop_last()[k]);
            }
            if i < s.drop_last().len() {
                assert(s[i] == s.drop_last()[i]);
            }
        }
    }
}

/// Adding a configuration under a priority number keeps the enumeration.
proof fn lemma_with_config_enumerates(s: Seq<(u32, ProvisioningConfigV)>, m: Map<u32, ProvisioningConfigV>, p: u32, c: ProvisioningConfigV)
    requires
        enumerates(s, m),
    ensures
        enumerates(with_config(s, p, c), m.insert(p, c)),
{
    lemma_lower_bound_split(s, p);
    let i = lower_bound(s, p);
    let t = with_config(s, p, c);
    let m2 = m.insert(p, c);
    if i < s.len() && s[i].0 == p {
        assert forall|a: int, b: int| 0 <= a < b < t.len() implies t[a].0 < t[b].0 by {
            assert(t[a].0 == s[a].0 && t[b].0 == s[b].0);
        }
        assert forall|j: int| 0 <= j < t.len() implies #[trigger] m2.contains_key(t[j].0) && m2[t[j].0] == t[j].1 by {
            if j != i {
                assert(t[j] == s[j]);
                assert(s[j].0 != p);
            }
        }
        assert forall|k: u32| #[trigger] m2.contains_key(k) implies exists|j: int| 0 <= j < t.len() && t[j].0 == k by {
            if k == p {
                assert(t[i].0 == k);
            } else {
                let j = choose|j: int| 0 <= j < s.len() && s[j].0 == k;
                assert(t[j].0 == k);
            }
        }
    } else {
        assert forall|a: int, b: int| 0 <= a < b < t.len() implies t[a].0 < t[b].0 by {
            if b < i {
                assert(t[a] == s[a] && t[b] == s[b]);
            } else if b == i {
                assert(t[a] == s[a]);
            } else if a < i {
                assert(t[a] == s[a] && t[b] == s[b - 1]);
                assert(s[i].0 > p);
                if b - 1 > i {
                    assert(s[i].0 < s[b - 1].0);
                }
            } else if a == i {
                assert(t[b] == s[b - 1]);
                assert(s[i].0 > p);
                if b - 1 > i {
                    assert(s[i].0 < s[b - 1].0);
                }
            } else {
                assert(t[a] == s[a - 1] && t[b] == s[b - 1]);
            }
        }
        assert forall|j: int| 0 <= j < t.len() implies #[trigger] m2.contains_key(t[j].0) && m2[t[j].0] == t[j].1 by {
            if j < i {
                assert(t[j] == s[j]);
                assert(s[j].0 < p);
                assert(m.contains_key(s[j].0));
            } else if j > i {
                assert(t[j] == s[j - 1]);
                assert(s[i].0 > p);
                if j - 1 > i {
                    assert(s[i].0 < s[j - 1].0);
                }
                assert(s[j - 1].0 != p);
                assert(m.contains_key(s[j - 1].0));
            } else {
                assert(t[j] == (p, c));
            }
        }
        assert forall|k: u32| #[trigger] m2.contains_key(k) implies exists|j: int| 0 <= j < t.len() && t[j].0 == k by {
            if k == p {
                assert(t[i].0 == k);
            } else {
                let j = choose|j: int| 0 <= j < s.len() && s[j].0 == k;
                if j < i {
                    assert(t[j].0 == k);
                } else {
                    assert(t[j + 1].0 == k);
                }
            }
        }
    }
}

fn take_lower_into(r: &mut ProvisioningConfig, c: ProvisioningConfig)
    requires
        old(r).wf(),
        c.wf(),
    ensures
        final(r).wf(),
        final(r)@ == take_lower(old(r)@, c@),
{
    let ghost a = r@;
    let ghost b = c@;
    let ProvisioningConfig {
        hostname,
        nameservers,
        search_domains,
        interfaces,
        ssh_authorized_keys,
        users,
        user_data,
        user_data_base64,
        metadata,
        routes,
        ntp_servers,
        timezone,
    } = c;
    if hostname.is_some() && r.hostname.is_none() {
        r.hostname = hostname;
    }
    push_unique(&mut r.nameservers, nameservers);
    push_unique(&mut r.search_domains, search_domains);
    let ghost ie = pairs_view(interfaces@);
    put_all(&mut r.interfaces, interfaces);
    push_unique(&mut r.ssh_authorized_keys, ssh_authorized_keys);
    push_users(&mut r.users, users);
    if user_data.is_some() && r.user_data.is_none() {
        r.user_data = user_data;
    }
    if user_data_base64.is_some() && r.user_data_base64.is_none() {
        r.user_data_base64 = user_data_base64;
    }
    let ghost me = pairs_view(metadata@);
    put_all(&mut r.metadata, metadata);
    push_routes(&mut r.routes, routes);
    push_unique(&mut r.ntp_servers, ntp_servers);
    if timezone.is_some() && r.timezone.is_none() {
        r.timezone = timezone;
    }
    proof {
        lemma_insert_all_union(a.interfaces, ie);
        lemma_insert_all_union(a.metadata, me);
        assert(r@ =~= take_lower(a, b));
    }
}

fn take_override_into(r: &mut ProvisioningConfig, c: ProvisioningConfig)
    requires
        old(r).wf(),
        c.wf(),
    ensures
        final(r).wf(),
        final(r)@ == take_override(old(r)@, c@),
{
    let ghost a = r@;
    let ghost b = c@;
    let ProvisioningConfig { hostname, interfaces, user_data, user_data_base64, metadata, timezone, .. } = c;
    if hostname.is_some() {
        r.hostname = hostname;
    }
    if user_data.is_some() {
        r.user_data = user_data;
    }
    if user_data_base64.is_some() {
        r.user_data_base64 = user_data_base64;
    }
    if timezone.is_some() {
        r.timezone = timezone;
    }
    let ghost ie = pairs_view(interfaces@);
    put_all(&mut r.interfaces, interfaces);
    let ghost me = pairs_view(metadata@);
    put_all(&mut r.metadata, metadata);
    proof {
        lemma_insert_all_union(a.interfaces, ie);
        lemma_insert_all_union(a.metadata, me);
        assert(r@ =~= take_override(a, b));
    }
}

/// Priority numbers are ordered as integers, and the `BTreeMap` laws hold of them.
proof fn lemma_priority_order()
    ensures
        vstd::std_specs::btree::key_obeys_cmp_spec::<u32>(),
        vstd::laws_cmp::obeys_cmp::<u32>(),
        forall|s: Seq<u32>| #[trigger] vstd::std_specs::btree::increasing_seq(s) ==> forall|i: int, j: int|
            0 <= i < j < s.len() ==> s[i] < s[j],
{
    broadcast use vstd::std_specs::btree::group_btree_axioms, vstd::laws_cmp::group_laws_cmp;

    assert forall|s: Seq<u32>| #[trigger] vstd::std_specs::btree::increasing_seq(s) implies forall|i: int, j: int|
        0 <= i < j < s.len() ==> s[i] < s[j] by {
        vstd::std_specs::btree::axiom_increasing_seq_meaning(s);
        assert forall|i: int, j: int| 0 <= i < j < s.len() implies s[i] < s[j] by {
            assert(s[i].cmp_spec(&s[j]) is Less);
        }
    }
}

impl ConfigMerger {
    /// The configurations, in increasing priority number.
    pub closed spec fn model(&self) -> Seq<(u32, ProvisioningConfigV)> {
        choose|s: Seq<(u32, ProvisioningConfigV)>| enumerates(s, views_by_priority(self.configs@))
    }

    /// The configurations can be listed by priority number, and each is well formed.
    pub closed spec fn wf(&self) -> bool {
        &&& exists|s: Seq<(u32, ProvisioningConfigV)>| enumerates(s, views_by_priority(self.configs@))
        &&& forall|k: u32| #[trigger] self.configs@.contains_key(k) ==> self.configs@[k].wf()
    }

    /// The listing of a merger is its model.
    proof fn lemma_model(&self, s: Seq<(u32, ProvisioningConfigV)>)
        requires
            enumerates(s, views_by_priority(self.configs@)),
        ensures
            self.model() == s,
            increasing(self.model()),
    {
        lemma_enumeration_unique(self.model(), s, views_by_priority(self.configs@));
    }

    /// A merger with no configurations.
    pub fn new() -> (r: ConfigMerger)
        ensures
            r.wf(),
            r.model() == Seq::<(u32, ProvisioningConfigV)>::empty(),
    {
        let r = ConfigMerger { configs: BTreeMap::new() };
        proof {
            let e = Seq::<(u32, ProvisioningConfigV)>::empty();
            assert(views_by_priority(r.configs@) =~= Map::<u32, ProvisioningConfigV>::empty());
            assert(enumerates(e, views_by_priority(r.configs@)));
            r.lemma_model(e);
        }
        r
    }

    /// Adds a configuration under `priority`, replacing one of that priority; lower
    /// numbers take precedence.
    pub fn add_config(&mut self, config: ProvisioningConfig, priority: u32)
        requires
            old(self).wf(),
            config.wf(),
        ensures
            final(self).wf(),
            final(self).model() == with_config(old(self).model(), priority, config@),
    {
        let ghost s = self.model();
        let ghost c = config@;
        let ghost m0 = self.configs@;
        proof {
            lemma_priority_order();
            let w = choose|w: Seq<(u32, ProvisioningConfigV)>| enumerates(w, views_by_priority(m0));
            self.lemma_model(w);
        }
        self.configs.insert(priority, config);
        proof {
            assert(self.configs@ == m0.insert(priority, config));
            assert(views_by_priority(self.configs@) =~= views_by_priority(m0).insert(priority, c));
            lemma_with_config_enumerates(s, views_by_priority(m0), priority, c);
            self.lemma_model(with_config(s, priority, c));
            assert forall|k: u32| #[trigger] self.configs@.contains_key(k) implies self.configs@[k].wf() by {
                if k != priority {
                    assert(m0.contains_key(k));
                }
            }
        }
    }

    /// The configurations, in increasing priority number.
    fn listing(&self) -> (r: Vec<(u32, ProvisioningConfig)>)
        requires
            self.wf(),
        ensures
            Seq::new(r@.len(), |i: int| (r@[i].0, r@[i].1@)) == self.model(),
            forall|i: int| 0 <= i < r@.len() ==> (#[trigger] r@[i]).1.wf(),
    {
        proof {
            lemma_priority_order();
        }
        let ghost m = self.configs@;
        let ghost vm = views_by_priority(m);
        let iter = self.configs.iter();
        let ghost r0 = iter.remaining();
        let ghost keys = r0.map_values(|kv: (&u32, &ProvisioningConfig)| *kv.0);
        proof {
            broadcast use vstd::std_specs::btree::group_btree_axioms;

            assert(vstd::std_specs::btree::increasing_seq(keys));
            assert(r0 == vstd::std_specs::btree::spec_btree_map_iter(&self.configs).remaining());
            assert(r0.len() == m.dom().len());
        }
        let mut out: Vec<(u32, ProvisioningConfig)> = Vec::new();
        for kv in it: iter
            invariant
                m == self.configs@,
                vm == views_by_priority(m),
                self.wf(),
                it.seq() == r0,
                forall|i: int| 0 <= i < r0.len() ==> m.contains_key(*(#[trigger] r0[i]).0) && m[*r0[i].0] == *r0[i].1,
                out@.len() == it.index(),
                forall|i: int| 0 <= i < it.index() ==> (#[trigger] out@[i]).0 == *r0[i].0 && out@[i].1@ == (*r0[i].1)@,
                forall|i: int| 0 <= i < it.index() ==> (#[trigger] out@[i]).1.wf(),
        {
            let (k, v) = kv;
            assert(m[*k] == *v);
            out.push((*k, v.duplicate()));
        }
        let ghost sv = Seq::new(out@.len(), |i: int| (out@[i].0, out@[i].1@));
        proof {
            broadcast use vstd::std_specs::btree::group_btree_axioms;

            assert(out@.len() == r0.len());
            assert forall|a: int, b: int| 0 <= a < b < sv.len() implies sv[a].0 < sv[b].0 by {
                assert(keys[a] == *r0[a].0 && keys[b] == *r0[b].0);
            }
            assert forall|i: int| 0 <= i < sv.len() implies #[trigger] vm.contains_key(sv[i].0) && vm[sv[i].0] == sv[i].1 by {
                assert(m.contains_key(*r0[i].0));
            }
            assert forall|k: u32| #[trigger] vm.contains_key(k) implies exists|i: int| 0 <= i < sv.len() && sv[i].0 == k by {
                assert(m.contains_key(k));
                assert(r0.contains((&k, &m[k])));
                let i = choose|i: int| 0 <= i < r0.len() && r0[i] == (&k, &m[k]);
                assert(sv[i].0 == k);
            }
            self.lemma_model(sv);
        }
        out
    }

    /// The merge of all configurations; a lower priority number takes precedence.
    pub fn merge(&self) -> (r: ProvisioningConfig)
        requires
            self.wf(),
        ensures
            r.wf(),
            r@ == merged(self.model()),
    {
        let list = self.listing();
        let ghost s = self.model();
        let ghost d = descending(s);
        let n = list.len();
        let mut result = ProvisioningConfig::new();
        let mut i: usize = n;
        while i > 0
            invariant
                i <= n,
                n == list@.len(),
                s == Seq::new(list@.len(), |k: int| (list@[k].0, list@[k].1@)),
                d == descending(s),
                forall|k: int| 0 <= k < list@.len() ==> (#[trigger] list@[k]).1.wf(),
                result.wf(),
                result@ == pass_lower(empty_config(), d.subrange(0, (n - i) as int)),
            decreases i,
        {
            let c = list[i - 1].1.duplicate();
            proof {
                assert(list@[i - 1].1.wf());
                assert(d.subrange(0, (n - i) as int + 1).drop_last() =~= d.subrange(0, (n - i) as int));
                assert(d.subrange(0, (n - i) as int + 1).last() == c@);
            }
            take_lower_into(&mut result, c);
            i = i - 1;
        }
        let ghost lower = result@;
        assert(d.subrange(0, n as int) =~= d);
        let mut j: usize = n;
        while j > 0
            invariant
                j <= n,
                n == list@.len(),
                s == Seq::new(list@.len(), |k: int| (list@[k].0, list@[k].1@)),
                d == descending(s),
                forall|k: int| 0 <= k < list@.len() ==> (#[trigger] list@[k]).1.wf(),
                result.wf(),
                result@ == pass_override(lower, d.subrange(0, (n - j) as int)),
            decreases j,
        {
            let c = list[j - 1].1.duplicate();
            proof {
                assert(list@[j - 1].1.wf());
                assert(d.subrange(0, (n - j) as int + 1).drop_last() =~= d.subrange(0, (n - j) as int));
                assert(d.subrange(0, (n - j) as int + 1).last() == c@);
            }
            take_override_into(&mut result, c);
            j = j - 1;
        }
        result
    }

    /// The number of configurations held.
    pub fn len(&self) -> (r: usize)
        requires
            self.wf(),
        ensures
            r == self.model().len(),
    {
        proof {
            lemma_priority_order();
            broadcast use vstd::std_specs::btree::group_btree_axioms;
            let w = choose|w: Seq<(u32, ProvisioningConfigV)>| enumerates(w, views_by_priority(self.configs@));
            self.lemma_model(w);
            assert(views_by_priority(self.configs@).dom() =~= self.configs@.dom());
            lemma_enumerates_len(w, views_by_priority(self.configs@));
        }
        self.configs.len()
    }

    /// Whether no configuration is held.
    pub fn is_empty(&self) -> (r: bool)
        requires
            self.wf(),
        ensures
            r == (self.model().len() == 0),
    {
        self.len() == 0
    }

    /// Removes all configurations.
    pub fn clear(&mut self)
        ensures
            final(self).wf(),
            final(self).model() == Seq::<(u32, ProvisioningConfigV)>::empty(),
    {
        self.configs.clear();
        proof {
            let e = Seq::<(u32, ProvisioningConfigV)>::empty();
            assert(views_by_priority(self.configs@) =~= Map::<u32, ProvisioningConfigV>::empty());
            assert(enumerates(e, views_by_priority(self.configs@)));
            self.lemma_model(e);
        }
    }
}

/// The first value that is set, in order.
pub open spec fn first_some(v: Seq<Option<Seq<char>>>) -> Option<Seq<char>>
    decreases v.len(),
{
    if v.len() == 0 {
        None
    } else if v[0] is Some {
        v[0]
    } else {
        first_some(v.drop_first())
    }
}

pub open spec fn hostnames(s: Seq<(u32, ProvisioningConfigV)>) -> Seq<Option<Seq<char>>> {
    Seq::new(s.len(), |i: int| s[i].1.hostname)
}

pub open spec fn timezones(s: Seq<(u32, ProvisioningConfigV)>) -> Seq<Option<Seq<char>>> {
    Seq::new(s.len(), |i: int| s[i].1.timezone)
}

pub open spec fn user_datas(s: Seq<(u32, ProvisioningConfigV)>) -> Seq<Option<Seq<char>>> {
    Seq::new(s.len(), |i: int| s[i].1.user_data)
}

pub open spec fn user_datas_base64(s: Seq<(u32, ProvisioningConfigV)>) -> Seq<Option<Seq<char>>> {
    Seq::new(s.len(), |i: int| s[i].1.user_data_base64)
}

/// The interfaces of all configurations; where several have one name, the one of
/// the lowest priority number wins.
pub open spec fn interfaces_by_priority(s: Seq<(u32, ProvisioningConfigV)>) -> Map<
    Seq<char>,
    crate::prov_config::InterfaceConfigV,
>
    decreases s.len(),
{
    if s.len() == 0 {
        Map::empty()
    } else {
        interfaces_by_priority(s.drop_first()).union_prefer_right(s[0].1.interfaces)
    }
}

/// The metadata of all configurations; where several have one key, the one of the
/// lowest priority number wins.
pub open spec fn metadata_by_priority(s: Seq<(u32, ProvisioningConfigV)>) -> Map<Seq<char>, crate::json::JsonV>
    decreases s.len(),
{
    if s.len() == 0 {
        Map::empty()
    } else {
        metadata_by_priority(s.drop_first()).union_prefer_right(s[0].1.metadata)
    }
}

proof fn lemma_descending_drop(s: Seq<(u32, ProvisioningConfigV)>)
    requires
        s.len() > 0,
    ensures
        descending(s).drop_last() == descending(s.drop_first()),
        descending(s).last() == s[0].1,
        hostnames(s).drop_first() == hostnames(s.drop_first()),
        timezones(s).drop_first() == timezones(s.drop_first()),
        user_datas(s).drop_first() == user_datas(s.drop_first()),
        user_datas_base64(s).drop_first() == user_datas_base64(s.drop_first()),
{
    assert(descending(s).drop_last() =~= descending(s.drop_first()));
    assert(hostnames(s).drop_first() =~= hostnames(s.drop_first()));
    assert(timezones(s).drop_first() =~= timezones(s.drop_first()));
    assert(user_datas(s).drop_first() =~= user_datas(s.drop_first()));
    assert(user_datas_base64(s).drop_first() =~= user_datas_base64(s.drop_first()));
}

proof fn lemma_pass_override(r: ProvisioningConfigV, s: Seq<(u32, ProvisioningConfigV)>)
    ensures
        pass_override(r, descending(s)).hostname == prefer(r.hostname, first_some(hostnames(s))),
        pass_override(r, descending(s)).timezone == prefer(r.timezone, first_some(timezones(s))),
        pass_override(r, descending(s)).user_data == prefer(r.user_data, first_some(user_datas(s))),
        pass_override(r, descending(s)).user_data_base64 == prefer(r.user_data_base64, first_some(user_datas_base64(s))),
        pass_override(r, descending(s)).interfaces == r.interfaces.union_prefer_right(interfaces_by_priority(s)),
        pass_override(r, descending(s)).metadata == r.metadata.union_prefer_right(metadata_by_priority(s)),
        pass_override(r, descending(s)).nameservers == r.nameservers,
        pass_override(r, descending(s)).search_domains == r.search_domains,
        pass_override(r, descending(s)).ssh_authorized_keys == r.ssh_authorized_keys,
        pass_override(r, descending(s)).ntp_servers == r.ntp_servers,
        pass_override(r, descending(s)).users == r.users,
        pass_override(r, descending(s)).routes == r.routes,
    decreases s.len(),
{
    if s.len() == 0 {
        assert(descending(s) =~= Seq::<ProvisioningConfigV>::empty());
        assert(r.interfaces.union_prefer_right(Map::empty()) =~= r.interfaces);
        assert(r.metadata.union_prefer_right(Map::empty()) =~= r.metadata);
    } else {
        lemma_descending_drop(s);
        lemma_pass_override(r, s.drop_first());
        let p = pass_override(r, descending(s.drop_first()));
        assert(pass_override(r, descending(s)) == take_override(p, s[0].1));
        assert(hostnames(s)[0] == s[0].1.hostname);
        assert(timezones(s)[0] == s[0].1.timezone);
        assert(user_datas(s)[0] == s[0].1.user_data);
        assert(user_datas_base64(s)[0] == s[0].1.user_data_base64);
        assert(r.interfaces.union_prefer_right(interfaces_by_priority(s.drop_first())).union_prefer_right(s[0].1.interfaces)
            =~= r.interfaces.union_prefer_right(interfaces_by_priority(s)));
        assert(r.metadata.union_prefer_right(metadata_by_priority(s.drop_first())).union_prefer_right(s[0].1.metadata)
            =~= r.metadata.union_prefer_right(metadata_by_priority(s)));
    }
}

proof fn lemma_pass_lower(r: ProvisioningConfigV, s: Seq<(u32, ProvisioningConfigV)>)
    ensures
        r.hostname is None && first_some(hostnames(s)) is None ==> pass_lower(r, descending(s)).hostname is None,
        r.timezone is None && first_some(timezones(s)) is None ==> pass_lower(r, descending(s)).timezone is None,
        r.user_data is None && first_some(user_datas(s)) is None ==> pass_lower(r, descending(s)).user_data is None,
        r.user_data_base64 is None && first_some(user_datas_base64(s)) is None ==> pass_lower(
            r,
            descending(s),
        ).user_data_base64 is None,
        pass_lower(r, descending(s)).interfaces == r.interfaces.union_prefer_right(interfaces_by_priority(s)),
        pass_lower(r, descending(s)).metadata == r.metadata.union_prefer_right(metadata_by_priority(s)),
    decreases s.len(),
{
    if s.len() == 0 {
        assert(descending(s) =~= Seq::<ProvisioningConfigV>::empty());
        assert(r.interfaces.union_prefer_right(Map::empty()) =~= r.interfaces);
        assert(r.metadata.union_prefer_right(Map::empty()) =~= r.metadata);
    } else {
        lemma_descending_drop(s);
        lemma_pass_lower(r, s.drop_first());
        assert(hostnames(s)[0] == s[0].1.hostname);
        assert(timezones(s)[0] == s[0].1.timezone);
        assert(user_datas(s)[0] == s[0].1.user_data);
        assert(user_datas_base64(s)[0] == s[0].1.user_data_base64);
        assert(r.interfaces.union_prefer_right(interfaces_by_priority(s.drop_first())).union_prefer_right(s[0].1.interfaces)
            =~= r.interfaces.union_prefer_right(interfaces_by_priority(s)));
        assert(r.metadata.union_prefer_right(metadata_by_priority(s.drop_first())).union_prefer_right(s[0].1.metadata)
            =~= r.metadata.union_prefer_right(metadata_by_priority(s)));
    }
}

/// In the merge, the hostname, time zone and user data are those of the
/// configuration with the lowest priority number that sets them, and each
/// interface and metadata entry is that of the lowest priority number that has it.
pub proof fn law_lowest_priority_number_wins(s: Seq<(u32, ProvisioningConfigV)>)
    ensures
        merged(s).hostname == first_some(hostnames(s)),
        merged(s).timezone == first_some(timezones(s)),
        merged(s).user_data == first_some(user_datas(s)),
        merged(s).user_data_base64 == first_some(user_datas_base64(s)),
        merged(s).interfaces == interfaces_by_priority(s),
        merged(s).metadata == metadata_by_priority(s),
{
    let e = empty_config();
    lemma_pass_lower(e, s);
    let l = pass_lower(e, descending(s));
    lemma_pass_override(l, s);
    assert(Map::<Seq<char>, crate::prov_config::InterfaceConfigV>::empty().union_prefer_right(interfaces_by_priority(s))
        =~= interfaces_by_priority(s));
    assert(interfaces_by_priority(s).union_prefer_right(interfaces_by_priority(s)) =~= interfaces_by_priority(s));
    assert(Map::<Seq<char>, crate::json::JsonV>::empty().union_prefer_right(metadata_by_priority(s)) =~= metadata_by_priority(s));
    assert(metadata_by_priority(s).union_prefer_right(metadata_by_priority(s)) =~= metadata_by_priority(s));
}

pub(crate) proof fn lemma_add_unique_keeps(acc: Seq<Seq<char>>, items: Seq<Seq<char>>)
    ensures
        forall|x: Seq<char>| acc.contains(x) ==> #[trigger] add_unique(acc, items).contains(x),
        forall|x: Seq<char>| items.contains(x) ==> #[trigger] add_unique(acc, items).contains(x),
    decreases items.len(),
{
    if items.len() > 0 {
        lemma_add_unique_keeps(acc, items.drop_last());
        let a = add_unique(acc, items.drop_last());
        let r = add_unique(acc, items);
        assert forall|x: Seq<char>| a.contains(x) implies r.contains(x) by {
            if !a.contains(items.last()) {
                let k = choose|k: int| 0 <= k < a.len() && a[k] == x;
                assert(r[k] == x);
            }
        }
        assert(r.contains(items.last())) by {
            if !a.contains(items.last()) {
                assert(r[a.len() as int] == items.last());
            }
        }
        assert forall|x: Seq<char>| items.contains(x) implies #[trigger] add_unique(acc, items).contains(x) by {
            let k = choose|k: int| 0 <= k < items.len() && items[k] == x;
            if k < items.len() - 1 {
                assert(items.drop_last()[k] == x);
                assert(items.drop_last().contains(x));
                assert(a.contains(x));
            }
        }
        assert forall|x: Seq<char>| acc.contains(x) implies #[trigger] add_unique(acc, items).contains(x) by {
            assert(a.contains(x));
        }
    }
}

proof fn lemma_pass_lower_nameservers(r: ProvisioningConfigV, cs: Seq<ProvisioningConfigV>)
    ensures
        forall|x: Seq<char>| r.nameservers.contains(x) ==> #[trigger] pass_lower(r, cs).nameservers.contains(x),
        forall|i: int, x: Seq<char>| 0 <= i < cs.len() && #[trigger] cs[i].nameservers.contains(x) ==> pass_lower(
            r,
            cs,
        ).nameservers.contains(x),
    decreases cs.len(),
{
    if cs.len() > 0 {
        lemma_pass_lower_nameservers(r, cs.drop_last());
        let p = pass_lower(r, cs.drop_last());
        lemma_add_unique_keeps(p.nameservers, cs.last().nameservers);
        assert forall|i: int, x: Seq<char>| 0 <= i < cs.len() && #[trigger] cs[i].nameservers.contains(x) implies pass_lower(
            r,
            cs,
        ).nameservers.contains(x) by {
            if i < cs.len() - 1 {
                assert(cs.drop_last()[i] == cs[i]);
                assert(p.nameservers.contains(x));
            }
        }
    }
}

/// Every nameserver of every configuration is among the merged nameservers.
pub proof fn law_merge_keeps_every_nameserver(s: Seq<(u32, ProvisioningConfigV)>, i: int, x: Seq<char>)
    requires
        0 <= i < s.len(),
        s[i].1.nameservers.contains(x),
    ensures
        merged(s).nameservers.contains(x),
{
    let e = empty_config();
    let d = descending(s);
    assert(d[s.len() - 1 - i] == s[i].1);
    lemma_pass_lower_nameservers(e, d);
    let l = pass_lower(e, d);
    lemma_pass_override(l, s);
}

proof fn lemma_pass_lower_lists(r: ProvisioningConfigV, cs: Seq<ProvisioningConfigV>)
    ensures
        forall|i: int, x: Seq<char>| 0 <= i < cs.len() && #[trigger] cs[i].ntp_servers.contains(x) ==> pass_lower(
            r,
            cs,
        ).ntp_servers.contains(x),
        forall|i: int, x: Seq<char>| 0 <= i < cs.len() && #[trigger] cs[i].search_domains.contains(x) ==> pass_lower(
            r,
            cs,
        ).search_domains.contains(x),
        forall|i: int, x: Seq<char>| 0 <= i < cs.len() && #[trigger] cs[i].ssh_authorized_keys.contains(x) ==> pass_lower(
            r,
            cs,
        ).ssh_authorized_keys.contains(x),
    decreases cs.len(),
{
    if cs.len() > 0 {
        lemma_pass_lower_lists(r, cs.drop_last());
        let p = pass_lower(r, cs.drop_last());
        lemma_add_unique_keeps(p.ntp_servers, cs.last().ntp_servers);
        lemma_add_unique_keeps(p.search_domains, cs.last().search_domains);
        lemma_add_unique_keeps(p.ssh_authorized_keys, cs.last().ssh_authorized_keys);
        assert forall|i: int, x: Seq<char>| 0 <= i < cs.len() && #[trigger] cs[i].ntp_servers.contains(x) implies pass_lower(
            r,
            cs,
        ).ntp_servers.contains(x) by {
            if i < cs.len() - 1 {
                assert(cs.drop_last()[i] == cs[i]);
                assert(p.ntp_servers.contains(x));
            }
        }
        assert forall|i: int, x: Seq<char>| 0 <= i < cs.len() && #[trigger] cs[i].search_domains.contains(x) implies pass_lower(
            r,
            cs,
        ).search_domains.contains(x) by {
            if i < cs.len() - 1 {
                assert(cs.drop_last()[i] == cs[i]);
                assert(p.search_domains.contains(x));
            }
        }
        assert forall|i: int, x: Seq<char>| 0 <= i < cs.len() && #[trigger] cs[i].ssh_authorized_keys.contains(x) implies pass_lower(
            r,
            cs,
        ).ssh_authorized_keys.contains(x) by {
            if i < cs.len() - 1 {
                assert(cs.drop_last()[i] == cs[i]);
                assert(p.ssh_authorized_keys.contains(x));
            }
        }
    }
}

/// Every NTP server, search domain and SSH key of every merged configuration is
/// among the merged ones: merging keeps the lists of all sources.
pub proof fn law_merge_keeps_every_list_item(s: Seq<(u32, ProvisioningConfigV)>, i: int, x: Seq<char>)
    requires
        0 <= i < s.len(),
    ensures
        s[i].1.ntp_servers.contains(x) ==> merged(s).ntp_servers.contains(x),
        s[i].1.search_domains.contains(x) ==> merged(s).search_domains.contains(x),
        s[i].1.ssh_authorized_keys.contains(x) ==> merged(s).ssh_authorized_keys.contains(x),
{
    let e = empty_config();
    let d = descending(s);
    assert(d[s.len() - 1 - i] == s[i].1);
    lemma_pass_lower_lists(e, d);
    let l = pass_lower(e, d);
    lemma_pass_override(l, s);
}

proof fn lemma_add_users_keeps(acc: Seq<UserConfigV>, items: Seq<UserConfigV>)
    ensures
        forall|n: Seq<char>| has_user(acc, n) ==> #[trigger] has_user(add_users(acc, items), n),
        forall|k: int| 0 <= k < items.len() ==> has_user(add_users(acc, items), #[trigger] items[k].name),
    decreases items.len(),
{
    if items.len() > 0 {
        lemma_add_users_keeps(acc, items.drop_last());
        let a = add_users(acc, items.drop_last());
        let r = add_users(acc, items);
        assert forall|n: Seq<char>| has_user(a, n) implies has_user(r, n) by {
            if !has_user(a, items.last().name) {
                let j = choose|j: int| 0 <= j < a.len() && a[j].name == n;
                assert(r[j].name == n);
            }
        }
        assert(has_user(r, items.last().name)) by {
            if !has_user(a, items.last().name) {
                assert(r[a.len() as int].name == items.last().name);
            }
        }
        assert forall|k: int| 0 <= k < items.len() implies has_user(r, #[trigger] items[k].name) by {
            if k < items.len() - 1 {
                assert(items.drop_last()[k] == items[k]);
                assert(has_user(a, items[k].name));
            }
        }
        assert forall|n: Seq<char>| has_user(acc, n) implies #[trigger] has_user(r, n) by {
            assert(has_user(a, n));
        }
    }
}

proof fn lemma_add_routes_keeps(acc: Seq<RouteConfigV>, items: Seq<RouteConfigV>)
    ensures
        forall|x: RouteConfigV| has_route(acc, x) ==> #[trigger] has_route(add_routes(acc, items), x),
        forall|k: int| 0 <= k < items.len() ==> has_route(add_routes(acc, items), #[trigger] items[k]),
    decreases items.len(),
{
    if items.len() > 0 {
        lemma_add_routes_keeps(acc, items.drop_last());
        let a = add_routes(acc, items.drop_last());
        let r = add_routes(acc, items);
        assert forall|x: RouteConfigV| has_route(a, x) implies has_route(r, x) by {
            if !has_route(a, items.last()) {
                let j = choose|j: int| 0 <= j < a.len() && a[j].destination == x.destination && a[j].gateway == x.gateway;
                assert(r[j] == a[j]);
            }
        }
        assert(has_route(r, items.last())) by {
            if !has_route(a, items.last()) {
                assert(r[a.len() as int] == items.last());
            }
        }
        assert forall|k: int| 0 <= k < items.len() implies has_route(r, #[trigger] items[k]) by {
            if k < items.len() - 1 {
                assert(items.drop_last()[k] == items[k]);
                assert(has_route(a, items[k]));
            }
        }
        assert forall|x: RouteConfigV| has_route(acc, x) implies #[trigger] has_route(r, x) by {
            assert(has_route(a, x));
        }
    }
}

proof fn lemma_pass_lower_people(r: ProvisioningConfigV, cs: Seq<ProvisioningConfigV>)
    ensures
        forall|i: int, k: int| 0 <= i < cs.len() && 0 <= k < cs[i].users.len() ==> has_user(
            pass_lower(r, cs).users,
            #[trigger] cs[i].users[k].name,
        ),
        forall|i: int, k: int| 0 <= i < cs.len() && 0 <= k < cs[i].routes.len() ==> has_route(
            pass_lower(r, cs).routes,
            #[trigger] cs[i].routes[k],
        ),
    decreases cs.len(),
{
    if cs.len() > 0 {
        lemma_pass_lower_people(r, cs.drop_last());
        let p = pass_lower(r, cs.drop_last());
        lemma_add_users_keeps(p.users, cs.last().users);
        lemma_add_routes_keeps(p.routes, cs.last().routes);
        assert forall|i: int, k: int| 0 <= i < cs.len() && 0 <= k < cs[i].users.len() implies has_user(
            pass_lower(r, cs).users,
            #[trigger] cs[i].users[k].name,
        ) by {
            if i < cs.len() - 1 {
                assert(cs.drop_last()[i] == cs[i]);
                assert(has_user(p.users, cs.drop_last()[i].users[k].name));
            } else {
                assert(cs.last().users[k] == cs[i].users[k]);
            }
        }
        assert forall|i: int, k: int| 0 <= i < cs.len() && 0 <= k < cs[i].routes.len() implies has_route(
            pass_lower(r, cs).routes,
            #[trigger] cs[i].routes[k],
        ) by {
            if i < cs.len() - 1 {
                assert(cs.drop_last()[i] == cs[i]);
                assert(has_route(p.routes, cs.drop_last()[i].routes[k]));
            } else {
                assert(cs.last().routes[k] == cs[i].routes[k]);
            }
        }
    }
}

/// Every user of every merged configuration has a user of its name among the
/// merged users, and every route one with its destination and gateway.
pub proof fn law_merge_keeps_every_user_and_route(s: Seq<(u32, ProvisioningConfigV)>, i: int, k: int)
    requires
        0 <= i < s.len(),
    ensures
        0 <= k < s[i].1.users.len() ==> has_user(merged(s).users, s[i].1.users[k].name),
        0 <= k < s[i].1.routes.len() ==> has_route(merged(s).routes, s[i].1.routes[k]),
{
    let e = empty_config();
    let d = descending(s);
    assert(d[s.len() - 1 - i] == s[i].1);
    lemma_pass_lower_people(e, d);
    let l = pass_lower(e, d);
    lemma_pass_override(l, s);
    if 0 <= k < s[i].1.users.len() {
        assert(d[s.len() - 1 - i].users[k] == s[i].1.users[k]);
    }
    if 0 <= k < s[i].1.routes.len() {
        assert(d[s.len() - 1 - i].routes[k] == s[i].1.routes[k]);
    }
}

/// After a configuration is added under a priority, it is the one held under that
/// priority, and the priorities still increase.
pub proof fn law_add_then_held(s: Seq<(u32, ProvisioningConfigV)>, p: u32, c: ProvisioningConfigV)
    requires
        increasing(s),
    ensures
        exists|i: int| 0 <= i < with_config(s, p, c).len() && with_config(s, p, c)[i] == (p, c),
        forall|i: int| 0 <= i < s.len() && s[i].0 != p ==> with_config(s, p, c).contains(#[trigger] s[i]),
{
    let i = lower_bound(s, p);
    lemma_lower_bound_bounds(s, p);
    let t = with_config(s, p, c);
    assert(t[i] == (p, c));
    assert forall|k: int| 0 <= k < s.len() && s[k].0 != p implies t.contains(#[trigger] s[k]) by {
        if i < s.len() && s[i].0 == p {
            assert(t[k] == s[k]);
        } else if k < i {
            assert(t[k] == s[k]);
        } else {
            assert(t[k + 1] == s[k]);
        }
    }
}

proof fn lemma_lower_bound_bounds(s: Seq<(u32, ProvisioningConfigV)>, p: u32)
    ensures
        0 <= lower_bound(s, p) <= s.len(),
    decreases s.len(),
{
    if s.len() > 0 {
        lemma_lower_bound_bounds(s.drop_last(), p);
    }
}

/// Merging a configuration into another: the other's settings, interfaces and
/// metadata take precedence, what the first has alone stays, and the nameservers
/// of both are kept.
pub proof fn law_merge_other_takes_precedence(a: ProvisioningConfigV, b: ProvisioningConfigV, k: Seq<char>, x: Seq<char>)
    ensures
        b.hostname is Some ==> crate::prov_config::merge_model(a, b).hostname == b.hostname,
        b.hostname is None ==> crate::prov_config::merge_model(a, b).hostname == a.hostname,
        b.interfaces.contains_key(k) ==> crate::prov_config::merge_model(a, b).interfaces[k] == b.interfaces[k],
        a.interfaces.contains_key(k) && !b.interfaces.contains_key(k) ==> crate::prov_config::merge_model(a, b).interfaces[k]
            == a.interfaces[k],
        b.metadata.contains_key(k) ==> crate::prov_config::merge_model(a, b).metadata[k] == b.metadata[k],
        a.nameservers.contains(x) || b.nameservers.contains(x) ==> crate::prov_config::merge_model(a, b).nameservers.contains(x),
{
    lemma_add_unique_keeps(a.nameservers, b.nameservers);
}

/// Merging the empty configuration changes nothing.
pub proof fn law_merge_empty_is_identity(a: ProvisioningConfigV)
    ensures
        crate::prov_config::merge_model(a, empty_config()) == a,
{
    let m = crate::prov_config::merge_model(a, empty_config());
    assert(a.interfaces.union_prefer_right(Map::empty()) =~= a.interfaces);
    assert(a.metadata.union_prefer_right(Map::empty()) =~= a.metadata);
    assert(m =~= a);
}

proof fn lemma_lower_bound(s: Seq<(u32, ProvisioningConfigV)>, p: u32, i: int)
    requires
        increasing(s),
        0 <= i <= s.len(),
        forall|k: int| 0 <= k < i ==> s[k].0 < p,
        i == s.len() || s[i].0 >= p,
    ensures
        lower_bound(s, p) == i,
    decreases s.len(),
{
    if s.len() > 0 {
        if i == s.len() {
        } else {
            assert(s.last().0 >= s[i].0);
            lemma_lower_bound(s.drop_last(), p, i);
        }
    }
}

} // verus!

verus! {

/// No text occurs twice.
pub open spec fn no_repeats(v: Seq<Seq<char>>) -> bool {
    forall|i: int, j: int| 0 <= i < j < v.len() ==> v[i] != v[j]
}

proof fn lemma_add_unique_sound(acc: Seq<Seq<char>>, items: Seq<Seq<char>>)
    ensures
        no_repeats(acc) ==> no_repeats(add_unique(acc, items)),
        forall|x: Seq<char>| #[trigger] add_unique(acc, items).contains(x) ==> acc.contains(x) || items.contains(x),
    decreases items.len(),
{
    if items.len() > 0 {
        lemma_add_unique_sound(acc, items.drop_last());
        let a = add_unique(acc, items.drop_last());
        let r = add_unique(acc, items);
        assert forall|x: Seq<char>| #[trigger] r.contains(x) implies acc.contains(x) || items.contains(x) by {
            if a.contains(x) {
                if items.drop_last().contains(x) {
                    let k = choose|k: int| 0 <= k < items.drop_last().len() && items.drop_last()[k] == x;
                    assert(items[k] == x);
                }
            } else {
                let k = choose|k: int| 0 <= k < r.len() && r[k] == x;
                assert(k == a.len());
                assert(items[items.len() - 1] == x);
            }
        }
        if no_repeats(acc) && !a.contains(items.last()) {
            assert forall|i: int, j: int| 0 <= i < j < r.len() implies r[i] != r[j] by {
                if j == a.len() {
                    assert(r[i] == a[i]);
                }
            }
        }
    }
}

proof fn lemma_pass_lower_field(f: spec_fn(ProvisioningConfigV) -> Seq<Seq<char>>, r: ProvisioningConfigV, cs: Seq<ProvisioningConfigV>)
    requires
        forall|p: ProvisioningConfigV, c: ProvisioningConfigV| #[trigger] f(take_lower(p, c)) == add_unique(f(p), f(c)),
    ensures
        no_repeats(f(r)) ==> no_repeats(f(pass_lower(r, cs))),
        forall|x: Seq<char>| #[trigger] f(pass_lower(r, cs)).contains(x) ==> f(r).contains(x) || exists|i: int|
            0 <= i < cs.len() && f(cs[i]).contains(x),
    decreases cs.len(),
{
    if cs.len() > 0 {
        lemma_pass_lower_field(f, r, cs.drop_last());
        let p = pass_lower(r, cs.drop_last());
        assert(f(pass_lower(r, cs)) == add_unique(f(p), f(cs.last())));
        lemma_add_unique_sound(f(p), f(cs.last()));
        assert forall|x: Seq<char>| #[trigger] f(pass_lower(r, cs)).contains(x) implies f(r).contains(x) || exists|i: int|
            0 <= i < cs.len() && f(cs[i]).contains(x) by {
            if f(p).contains(x) {
                if !f(r).contains(x) {
                    let i = choose|i: int| 0 <= i < cs.drop_last().len() && f(cs.drop_last()[i]).contains(x);
                    assert(cs.drop_last()[i] == cs[i]);
                }
            } else {
                assert(f(cs[cs.len() - 1]).contains(x));
            }
        }
    }
}

/// The merged NTP servers, name servers, search domains and SSH keys hold no
/// text twice, and each comes from one of the merged configurations.
pub proof fn law_merged_lists_are_deduplicated_and_sourced(s: Seq<(u32, ProvisioningConfigV)>, x: Seq<char>)
    ensures
        no_repeats(merged(s).ntp_servers),
        no_repeats(merged(s).nameservers),
        no_repeats(merged(s).search_domains),
        no_repeats(merged(s).ssh_authorized_keys),
        merged(s).ntp_servers.contains(x) ==> exists|i: int| 0 <= i < s.len() && s[i].1.ntp_servers.contains(x),
        merged(s).nameservers.contains(x) ==> exists|i: int| 0 <= i < s.len() && s[i].1.nameservers.contains(x),
        merged(s).search_domains.contains(x) ==> exists|i: int| 0 <= i < s.len() && s[i].1.search_domains.contains(x),
        merged(s).ssh_authorized_keys.contains(x) ==> exists|i: int| 0 <= i < s.len() && s[i].1.ssh_authorized_keys.contains(
            x,
        ),
{
    let e = empty_config();
    let d = descending(s);
    let l = pass_lower(e, d);
    lemma_pass_override(l, s);
    let f1 = |c: ProvisioningConfigV| c.ntp_servers;
    let f2 = |c: ProvisioningConfigV| c.nameservers;
    let f3 = |c: ProvisioningConfigV| c.search_domains;
    let f4 = |c: ProvisioningConfigV| c.ssh_authorized_keys;
    lemma_pass_lower_field(f1, e, d);
    lemma_pass_lower_field(f2, e, d);
    lemma_pass_lower_field(f3, e, d);
    lemma_pass_lower_field(f4, e, d);
    assert(no_repeats(f1(e)));
    assert(no_repeats(f2(e)));
    assert(no_repeats(f3(e)));
    assert(no_repeats(f4(e)));
    assert(f1(l) == merged(s).ntp_servers);
    assert(f2(l) == merged(s).nameservers);
    assert(f3(l) == merged(s).search_domains);
    assert(f4(l) == merged(s).ssh_authorized_keys);
    if merged(s).ntp_servers.contains(x) {
        assert(f1(l).contains(x));
        let i = choose|i: int| 0 <= i < d.len() && f1(d[i]).contains(x);
        assert(d[i] == s[s.len() - 1 - i].1);
    }
    if merged(s).nameservers.contains(x) {
        assert(f2(l).contains(x));
        let i = choose|i: int| 0 <= i < d.len() && f2(d[i]).contains(x);
        assert(d[i] == s[s.len() - 1 - i].1);
    }
    if merged(s).search_domains.contains(x) {
        assert(f3(l).contains(x));
        let i = choose|i: int| 0 <= i < d.len() && f3(d[i]).contains(x);
        assert(d[i] == s[s.len() - 1 - i].1);
    }
    if merged(s).ssh_authorized_keys.contains(x) {
        assert(f4(l).contains(x));
        let i = choose|i: int| 0 <= i < d.len() && f4(d[i]).contains(x);
        assert(d[i] == s[s.len() - 1 - i].1);
    }
}

} // verus!
