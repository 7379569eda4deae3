//! Reading cloud-init metadata and network configuration.
use vstd::prelude::*;
use crate::json::{entries_view, items_view, Json, JsonV};
use crate::json_access::{as_array, as_object, as_str, as_u64, get, jarr, jget, jobj, jstr, ju64};
use crate::keyed::{entries_map, names_distinct, pairs_view, put_entry};
use crate::kdl_parser::strings_view;
use crate::netutil::normalize_mac_address;
use crate::openstack::{
    addrs_view, dynamic, dynamic_address, ethernet_interface_with, ethernet_to_interface, opt_mac, opt_string, opt_u16,
    opt_u32, static_addresses,
};
use crate::prov_config::{add_unique, AddressConfig, AddressConfigV, AddressType, InterfaceConfig, InterfaceConfigV, ProvisioningConfig, ProvisioningConfigV};
use crate::sources::CloudInitSource;
use crate::text::{chars_of, split_chars, split_on, str_eq, string_from_chars, trim, trim_chars, views_of};

verus! {

/// The interface after one subnet is added to it, or why the subnet is refused.
pub open spec fn subnet_step(i: InterfaceConfigV, subnet: JsonV) -> Result<InterfaceConfigV, Seq<char>> {
    let t = match jstr(jget(subnet, "type"@)) {
        Some(t) => t,
        None => "static"@,
    };
    let first = i.addresses.len() == 0;
    if t == "static"@ || t == "static6"@ {
        match jstr(jget(subnet, "address"@)) {
            Some(a) => Ok(
                InterfaceConfigV {
                    addresses: i.addresses.push(
                        AddressConfigV {
                            addr_type: AddressType::Static,
                            address: Some(a),
                            gateway: jstr(jget(subnet, "gateway"@)),
                            primary: first,
                        },
                    ),
                    ..i
                },
            ),
            None => Err("Static subnet missing address"@),
        }
    } else if t == "dhcp"@ || t == "dhcp4"@ {
        Ok(InterfaceConfigV { addresses: i.addresses.push(dynamic_address(AddressType::Dhcp4, first)), ..i })
    } else if t == "dhcp6"@ {
        Ok(InterfaceConfigV { addresses: i.addresses.push(dynamic_address(AddressType::Dhcp6, false)), ..i })
    } else {
        Ok(i)
    }
}

/// The interface after its subnets are added in order; the first refused subnet
/// refuses them all.
pub open spec fn subnets_model(i: InterfaceConfigV, subnets: Seq<JsonV>) -> Result<InterfaceConfigV, Seq<char>>
    decreases subnets.len(),
{
    if subnets.len() == 0 {
        Ok(i)
    } else {
        match subnets_model(i, subnets.drop_last()) {
            Ok(j) => subnet_step(j, subnets.last()),
            Err(e) => Err(e),
        }
    }
}

/// The interface that a `physical` or `vlan` item of version 1 configuration
/// describes, before its subnets.
pub open spec fn v1_base(item: JsonV, vlan: bool) -> InterfaceConfigV {
    InterfaceConfigV {
        mac_address: if vlan {
            None
        } else {
            opt_mac(jstr(jget(item, "mac_address"@)))
        },
        mtu: opt_u32(ju64(jget(item, "mtu"@))),
        addresses: Seq::empty(),
        enabled: true,
        description: Some(
            if vlan {
                "Cloud-init VLAN interface"@
            } else {
                "Cloud-init network interface"@
            },
        ),
        vlan_id: if vlan {
            opt_u16(ju64(jget(item, "vlan_id"@)))
        } else {
            None
        },
        parent: if vlan {
            jstr(jget(item, "vlan_link"@))
        } else {
            None
        },
    }
}

/// The interfaces after one item of version 1 configuration, or why it is refused.
pub open spec fn v1_step(m: Map<Seq<char>, InterfaceConfigV>, item: JsonV) -> Result<
    Map<Seq<char>, InterfaceConfigV>,
    Seq<char>,
> {
    let t = match jstr(jget(item, "type"@)) {
        Some(t) => t,
        None => Seq::empty(),
    };
    if t == "physical"@ || t == "vlan"@ {
        let vlan = t == "vlan"@;
        match jstr(jget(item, "name"@)) {
            None => Err(
                if vlan {
                    "VLAN interface missing name"@
                } else {
                    "Physical interface missing name"@
                },
            ),
            Some(name) => {
                let subnets = match jarr(jget(item, "subnets"@)) {
                    Some(a) => a,
                    None => Seq::empty(),
                };
                match subnets_model(v1_base(item, vlan), subnets) {
                    Ok(i) => Ok(m.insert(name, i)),
                    Err(e) => Err(e),
                }
            },
        }
    } else {
        Ok(m)
    }
}

/// The interfaces after the items of version 1 configuration in order.
pub open spec fn v1_items_model(items: Seq<JsonV>) -> Result<Map<Seq<char>, InterfaceConfigV>, Seq<char>>
    decreases items.len(),
{
    if items.len() == 0 {
        Ok(Map::empty())
    } else {
        match v1_items_model(items.drop_last()) {
            Ok(m) => v1_step(m, items.last()),
            Err(e) => Err(e),
        }
    }
}

/// The interfaces that version 1 network configuration describes.
pub open spec fn network_config_v1_model(c: JsonV) -> Result<Map<Seq<char>, InterfaceConfigV>, Seq<char>> {
    match jarr(jget(c, "config"@)) {
        Some(items) => v1_items_model(items),
        None => Err("No config array in network configuration"@),
    }
}

/// The interface that a `vlans` entry of version 2 configuration describes.
pub open spec fn v2_vlan(v: JsonV) -> InterfaceConfigV {
    InterfaceConfigV {
        mac_address: None,
        mtu: opt_u32(ju64(jget(v, "mtu"@))),
        addresses: match jarr(jget(v, "addresses"@)) {
            Some(items) => static_addresses(items),
            None => Seq::empty(),
        },
        enabled: true,
        description: Some("Cloud-init VLAN interface"@),
        vlan_id: opt_u16(ju64(jget(v, "id"@))),
        parent: jstr(jget(v, "link"@)),
    }
}

/// The interfaces after each named entry of version 2 configuration.
pub open spec fn v2_named(m: Map<Seq<char>, InterfaceConfigV>, e: Seq<(Seq<char>, JsonV)>, vlan: bool) -> Map<
    Seq<char>,
    InterfaceConfigV,
>
    decreases e.len(),
{
    if e.len() == 0 {
        m
    } else {
        v2_named(m, e.drop_last(), vlan).insert(
            e.last().0,
            if vlan {
                v2_vlan(e.last().1)
            } else {
                ethernet_interface_with(e.last().1, "Cloud-init network interface"@, false)
            },
        )
    }
}

/// The interfaces that version 2 network configuration describes: its ethernets,
/// then its VLANs.
pub open spec fn network_config_v2_model(c: JsonV) -> Map<Seq<char>, InterfaceConfigV> {
    let eth = match jobj(jget(c, "ethernets"@)) {
        Some(e) => e,
        None => Seq::empty(),
    };
    let vl = match jobj(jget(c, "vlans"@)) {
        Some(e) => e,
        None => Seq::empty(),
    };
    v2_named(v2_named(Map::empty(), eth, false), vl, true)
}

/// The interfaces that network configuration describes, by its version (1 where
/// it gives none); other versions are refused.
pub open spec fn network_config_model(c: JsonV) -> Result<Map<Seq<char>, InterfaceConfigV>, Seq<char>> {
    match ju64(jget(c, "version"@)) {
        None => network_config_v1_model(c),
        Some(v) => if v == 1 {
            network_config_v1_model(c)
        } else if v == 2 {
            Ok(network_config_v2_model(c))
        } else {
            Err("Unsupported network config version"@)
        },
    }
}

fn add_subnet(i: &mut InterfaceConfig, subnet: &Json) -> (r: Result<(), String>)
    ensures
        match subnet_step(old(i)@, subnet@) {
            Ok(j) => r is Ok && final(i)@ == j,
            Err(e) => r is Err && r->Err_0@ == e,
        },
{
    let ghost i0 = i@;
    let t: &str = match as_str(get(subnet, "type")) {
        Some(s) => s.as_str(),
        None => "static",
    };
    let first = i.addresses.len() == 0;
    if str_eq(t, "static") || str_eq(t, "static6") {
        match as_str(get(subnet, "address")) {
            Some(a) => {
                let x = AddressConfig {
                    addr_type: AddressType::Static,
                    address: Some(a.clone()),
                    gateway: opt_string(as_str(get(subnet, "gateway"))),
                    primary: first,
                };
                i.addresses.push(x);
                assert(i@.addresses =~= i0.addresses.push(x@));
                Ok(())
            },
            None => Err("Static subnet missing address".to_owned()),
        }
    } else if str_eq(t, "dhcp") || str_eq(t, "dhcp4") {
        let x = dynamic(AddressType::Dhcp4, first);
        i.addresses.push(x);
        assert(i@.addresses =~= i0.addresses.push(x@));
        Ok(())
    } else if str_eq(t, "dhcp6") {
        let x = dynamic(AddressType::Dhcp6, false);
        i.addresses.push(x);
        assert(i@.addresses =~= i0.addresses.push(x@));
        Ok(())
    } else {
        Ok(())
    }
}

fn v1_interface(item: &Json, vlan: bool) -> (r: Result<InterfaceConfig, String>)
    ensures
        match subnets_model(v1_base(item@, vlan), match jarr(jget(item@, "subnets"@)) {
            Some(a) => a,
            None => Seq::empty(),
        }) {
            Ok(j) => r is Ok && r->Ok_0@ == j,
            Err(e) => r is Err && r->Err_0@ == e,
        },
{
    let mut iface = InterfaceConfig {
        mac_address: if vlan {
            None
        } else {
            match as_str(get(item, "mac_address")) {
                Some(m) => Some(normalize_mac_address(m.as_str())),
                None => None,
            }
        },
        mtu: match as_u64(get(item, "mtu")) {
            Some(m) => Some(m as u32),
            None => None,
        },
        addresses: Vec::new(),
        enabled: true,
        description: Some(
            if vlan {
                "Cloud-init VLAN interface".to_owned()
            } else {
                "Cloud-init network interface".to_owned()
            },
        ),
        vlan_id: if vlan {
            match as_u64(get(item, "vlan_id")) {
                Some(v) => Some(v as u16),
                None => None,
            }
        } else {
            None
        },
        parent: if vlan {
            opt_string(as_str(get(item, "vlan_link")))
        } else {
            None
        },
    };
    assert(iface@.addresses =~= Seq::<AddressConfigV>::empty());
    assert(iface@ == v1_base(item@, vlan));
    match as_array(get(item, "subnets")) {
        Some(subnets) => {
            let ghost sv = items_view(subnets@);
            let ghost base = iface@;
            let mut k: usize = 0;
            while k < subnets.len()
                invariant
                    k <= subnets@.len(),
                    sv == items_view(subnets@),
                    base == v1_base(item@, vlan),
                    jarr(jget(item@, "subnets"@)) == Some(sv),
                    subnets_model(base, sv.subrange(0, k as int)) == Ok::<InterfaceConfigV, Seq<char>>(iface@),
                decreases subnets.len() - k,
            {
                proof {
                    assert(sv.subrange(0, k as int + 1).drop_last() =~= sv.subrange(0, k as int));
                    assert(sv.subrange(0, k as int + 1).last() == subnets@[k as int]@);
                }
                match add_subnet(&mut iface, &subnets[k]) {
                    Ok(()) => {},
                    Err(e) => {
                        proof {
                            assert(subnets_model(base, sv.subrange(0, k as int + 1)) == Err::<InterfaceConfigV, Seq<char>>(e@));
                            lemma_subnets_error_stays(base, sv, k as int + 1);
                            assert(subnets_model(base, sv) == Err::<InterfaceConfigV, Seq<char>>(e@));
                        }
                        return Err(e);
                    },
                }
                k = k + 1;
            }
            assert(sv.subrange(0, subnets@.len() as int) =~= sv);
            Ok(iface)
        },
        None => {
            assert(subnets_model(iface@, Seq::<JsonV>::empty()) == Ok::<InterfaceConfigV, Seq<char>>(iface@));
            Ok(iface)
        },
    }
}

proof fn lemma_subnets_error_stays(i: InterfaceConfigV, s: Seq<JsonV>, k: int)
    requires
        0 < k <= s.len(),
        subnets_model(i, s.subrange(0, k)) is Err,
    ensures
        subnets_model(i, s) == subnets_model(i, s.subrange(0, k)),
    decreases s.len() - k,
{
    if k < s.len() {
        assert(s.subrange(0, k + 1).drop_last() =~= s.subrange(0, k));
        lemma_subnets_error_stays(i, s, k + 1);
    } else {
        assert(s.subrange(0, k) =~= s);
    }
}

proof fn lemma_v1_error_stays(s: Seq<JsonV>, k: int)
    requires
        0 < k <= s.len(),
        v1_items_model(s.subrange(0, k)) is Err,
    ensures
        v1_items_model(s) == v1_items_model(s.subrange(0, k)),
    decreases s.len() - k,
{
    if k < s.len() {
        assert(s.subrange(0, k + 1).drop_last() =~= s.subrange(0, k));
        lemma_v1_error_stays(s, k + 1);
    } else {
        assert(s.subrange(0, k) =~= s);
    }
}

fn static_list(items: &Vec<Json>) -> (r: Vec<AddressConfig>)
    ensures
        addrs_view(r@) == static_addresses(items_view(items@)),
{
    let ghost iv = items_view(items@);
    let mut addrs: Vec<AddressConfig> = Vec::new();
    let mut k: usize = 0;
    assert(addrs_view(addrs@) =~= static_addresses(iv.subrange(0, 0)));
    while k < items.len()
        invariant
            k <= items@.len(),
            iv == items_view(items@),
            addrs_view(addrs@) == static_addresses(iv.subrange(0, k as int)),
        decreases items.len() - k,
    {
        proof {
            assert(iv.subrange(0, k as int + 1).drop_last() =~= iv.subrange(0, k as int));
            assert(iv.subrange(0, k as int + 1).last() == items@[k as int]@);
        }
        match &items[k] {
            Json::Str(s) => {
                let first = addrs.len() == 0;
                let a = AddressConfig { addr_type: AddressType::Static, address: Some(s.clone()), gateway: None, primary: first };
                let ghost before = addrs_view(addrs@);
                addrs.push(a);
                assert(addrs_view(addrs@) =~= before.push(a@));
            },
            _ => {},
        }
        k = k + 1;
    }
    assert(iv.subrange(0, items@.len() as int) =~= iv);
    addrs
}

fn v2_vlan_interface(v: &Json) -> (r: InterfaceConfig)
    ensures
        r@ == v2_vlan(v@),
{
    let addrs = match as_array(get(v, "addresses")) {
        Some(items) => static_list(items),
        None => {
            let a: Vec<AddressConfig> = Vec::new();
            assert(addrs_view(a@) =~= Seq::<AddressConfigV>::empty());
            a
        },
    };
    let r = InterfaceConfig {
        mac_address: None,
        mtu: match as_u64(get(v, "mtu")) {
            Some(m) => Some(m as u32),
            None => None,
        },
        addresses: addrs,
        enabled: true,
        description: Some("Cloud-init VLAN interface".to_owned()),
        vlan_id: match as_u64(get(v, "id")) {
            Some(i) => Some(i as u16),
            None => None,
        },
        parent: opt_string(as_str(get(v, "link"))),
    };
    assert(r@.addresses =~= addrs_view(r.addresses@));
    r
}

fn put_v2_named(ifs: &mut Vec<(String, InterfaceConfig)>, e: &Vec<(String, Json)>, vlan: bool)
    requires
        names_distinct(pairs_view(old(ifs)@)),
    ensures
        names_distinct(pairs_view(final(ifs)@)),
        entries_map(pairs_view(final(ifs)@)) == v2_named(entries_map(pairs_view(old(ifs)@)), entries_view(e@), vlan),
{
    let ghost m0 = entries_map(pairs_view(ifs@));
    let ghost ev = entries_view(e@);
    let mut k: usize = 0;
    while k < e.len()
        invariant
            k <= e@.len(),
            ev == entries_view(e@),
            names_distinct(pairs_view(ifs@)),
            entries_map(pairs_view(ifs@)) == v2_named(m0, ev.subrange(0, k as int), vlan),
        decreases e.len() - k,
    {
        proof {
            assert(ev.subrange(0, k as int + 1).drop_last() =~= ev.subrange(0, k as int));
            assert(ev.subrange(0, k as int + 1).last() == (e@[k as int].0@, e@[k as int].1@));
        }
        let iface = if vlan {
            v2_vlan_interface(&e[k].1)
        } else {
            ethernet_to_interface(&e[k].1, "Cloud-init network interface", false)
        };
        put_entry(ifs, e[k].0.clone(), iface);
        k = k + 1;
    }
    assert(ev.subrange(0, e@.len() as int) =~= ev);
}

impl CloudInitSource {
    /// The interfaces that version 1 network configuration describes.
    pub fn parse_network_config_v1(&self, network_config: &Json) -> (r: Result<Vec<(String, InterfaceConfig)>, String>)
        ensures
            match network_config_v1_model(network_config@) {
                Ok(m) => r is Ok && names_distinct(pairs_view(r->Ok_0@)) && entries_map(pairs_view(r->Ok_0@)) == m,
                Err(e) => r is Err && r->Err_0@ == e,
            },
    {
        let items = match as_array(get(network_config, "config")) {
            Some(a) => a,
            None => {
                return Err("No config array in network configuration".to_owned());
            },
        };
        let ghost iv = items_view(items@);
        let mut ifs: Vec<(String, InterfaceConfig)> = Vec::new();
        assert(pairs_view(ifs@) =~= Seq::<(Seq<char>, InterfaceConfigV)>::empty());
        let mut k: usize = 0;
        while k < items.len()
            invariant
                k <= items@.len(),
                iv == items_view(items@),
                jarr(jget(network_config@, "config"@)) == Some(iv),
                names_distinct(pairs_view(ifs@)),
                v1_items_model(iv.subrange(0, k as int)) == Ok::<Map<Seq<char>, InterfaceConfigV>, Seq<char>>(
                    entries_map(pairs_view(ifs@)),
                ),
            decreases items.len() - k,
        {
            let item = &items[k];
            proof {
                assert(iv.subrange(0, k as int + 1).drop_last() =~= iv.subrange(0, k as int));
                assert(iv.subrange(0, k as int + 1).last() == item@);
                reveal_strlit("");
            }
            let t: &str = match as_str(get(item, "type")) {
                Some(s) => s.as_str(),
                None => "",
            };
            proof {
                let st = match jstr(jget(item@, "type"@)) {
                    Some(x) => x,
                    None => Seq::empty(),
                };
                assert(st == t@);
            }
            let physical = str_eq(t, "physical");
            let vlan = str_eq(t, "vlan");
            if physical || vlan {
                match as_str(get(item, "name")) {
                    None => {
                        proof {
                            let mk = entries_map(pairs_view(ifs@));
                            assert(v1_items_model(iv.subrange(0, k as int)) == Ok::<Map<Seq<char>, InterfaceConfigV>, Seq<char>>(mk));
                            assert(v1_items_model(iv.subrange(0, k as int + 1)) == v1_step(mk, item@));
                            assert(jstr(jget(item@, "name"@)) is None);
                            lemma_v1_error_stays(iv, k as int + 1);
                        }
                        if vlan {
                            return Err("VLAN interface missing name".to_owned());
                        } else {
                            return Err("Physical interface missing name".to_owned());
                        }
                    },
                    Some(name) => match v1_interface(item, vlan) {
                        Ok(iface) => {
                            put_entry(&mut ifs, name.clone(), iface);
                        },
                        Err(e) => {
                            proof {
                                lemma_v1_error_stays(iv, k as int + 1);
                            }
                            return Err(e);
                        },
                    },
                }
            }
            k = k + 1;
        }
        assert(iv.subrange(0, items@.len() as int) =~= iv);
        Ok(ifs)
    }

    /// The interfaces that version 2 network configuration describes.
    pub fn parse_network_config_v2(&self, network_config: &Json) -> (r: Vec<(String, InterfaceConfig)>)
        ensures
            names_distinct(pairs_view(r@)),
            entries_map(pairs_view(r@)) == network_config_v2_model(network_config@),
    {
        let mut ifs: Vec<(String, InterfaceConfig)> = Vec::new();
        assert(pairs_view(ifs@) =~= Seq::<(Seq<char>, InterfaceConfigV)>::empty());
        let empty: Vec<(String, Json)> = Vec::new();
        assert(entries_view(empty@) =~= Seq::<(Seq<char>, JsonV)>::empty());
        let eth = match as_object(get(network_config, "ethernets")) {
            Some(x) => x,
            None => &empty,
        };
        put_v2_named(&mut ifs, eth, false);
        let vl = match as_object(get(network_config, "vlans")) {
            Some(x) => x,
            None => &empty,
        };
        put_v2_named(&mut ifs, vl, true);
        ifs
    }

    /// The interfaces that network configuration describes, by its version.
    pub fn parse_network_config(&self, network_config: &Json) -> (r: Result<Vec<(String, InterfaceConfig)>, String>)
        ensures
            match network_config_model(network_config@) {
                Ok(m) => r is Ok && names_distinct(pairs_view(r->Ok_0@)) && entries_map(pairs_view(r->Ok_0@)) == m,
                Err(e) => r is Err && r->Err_0@ == e,
            },
    {
        match as_u64(get(network_config, "version")) {
            None => self.parse_network_config_v1(network_config),
            Some(v) => if v == 1 {
                self.parse_network_config_v1(network_config)
            } else if v == 2 {
                Ok(self.parse_network_config_v2(network_config))
            } else {
                Err("Unsupported network config version".to_owned())
            },
        }
    }
}

/// The hostname that cloud-init metadata gives: its `hostname`, else its
/// `instance-id`, else its `name`.
pub open spec fn ci_hostname(md: JsonV) -> Option<Seq<char>> {
    match jstr(jget(md, "hostname"@)) {
        Some(h) => Some(h),
        None => match jstr(jget(md, "instance-id"@)) {
            Some(i) => Some(i),
            None => jstr(jget(md, "name"@)),
        },
    }
}

/// The keys of a `public-keys` array: its strings, and the `openssh-key` of its
/// objects.
pub open spec fn public_key_items(items: Seq<JsonV>) -> Seq<Seq<char>>
    decreases items.len(),
{
    if items.len() == 0 {
        Seq::empty()
    } else {
        let a = public_key_items(items.drop_last());
        match items.last() {
            JsonV::Str(s) => a.push(s),
            JsonV::Object(e) => match jstr(jget(JsonV::Object(e), "openssh-key"@)) {
                Some(k) => a.push(k),
                None => a,
            },
            _ => a,
        }
    }
}

/// The keys of a `public-keys` text: its lines, trimmed, except empty lines and
/// lines that start with `#`.
pub open spec fn text_keys(lines: Seq<Seq<char>>) -> Seq<Seq<char>>
    decreases lines.len(),
{
    if lines.len() == 0 {
        Seq::empty()
    } else {
        let a = text_keys(lines.drop_last());
        let k = trim(lines.last());
        if k.len() > 0 && k[0] != '#' {
            a.push(k)
        } else {
            a
        }
    }
}

/// The string items of an array, in order.
pub open spec fn string_items(items: Seq<JsonV>) -> Seq<Seq<char>>
    decreases items.len(),
{
    if items.len() == 0 {
        Seq::empty()
    } else {
        match items.last() {
            JsonV::Str(s) => string_items(items.drop_last()).push(s),
            _ => string_items(items.drop_last()),
        }
    }
}

/// The keys that the `public-keys` member of cloud-init metadata gives.
pub open spec fn ci_public_keys(md: JsonV) -> Seq<Seq<char>> {
    match jget(md, "public-keys"@) {
        Some(JsonV::Array(items)) => public_key_items(items),
        Some(JsonV::Object(e)) => crate::openstack::member_strings(e),
        Some(JsonV::Str(t)) => text_keys(split_on(t, '\n')),
        _ => Seq::empty(),
    }
}

/// The configuration after cloud-init metadata is read into it: its hostname where
/// it gives one, its public keys added, then its `ssh_authorized_keys` added where
/// new, and the whole metadata stored under `cloud-init`.
pub open spec fn ci_metadata_applied(c: ProvisioningConfigV, md: JsonV) -> ProvisioningConfigV {
    let extra = match jarr(jget(md, "ssh_authorized_keys"@)) {
        Some(items) => string_items(items),
        None => Seq::empty(),
    };
    ProvisioningConfigV {
        hostname: match ci_hostname(md) {
            Some(h) => Some(h),
            None => c.hostname,
        },
        ssh_authorized_keys: add_unique(c.ssh_authorized_keys + ci_public_keys(md), extra),
        metadata: c.metadata.insert("cloud-init"@, md),
        ..c
    }
}

fn push_str(v: &mut Vec<String>, s: String)
    ensures
        strings_view(final(v)@) == strings_view(old(v)@).push(s@),
{
    let ghost before = strings_view(v@);
    v.push(s);
    assert(strings_view(v@) =~= before.push(s@));
}

fn public_keys_of(md: &Json) -> (r: Vec<String>)
    ensures
        strings_view(r@) == ci_public_keys(md@),
{
    let mut out: Vec<String> = Vec::new();
    assert(strings_view(out@) =~= Seq::<Seq<char>>::empty());
    match get(md, "public-keys") {
        Some(Json::Array(items)) => {
            proof {
                crate::json::lemma_array_view(*items);
            }
            let ghost iv = items_view(items@);
            let mut k: usize = 0;
            while k < items.len()
                invariant
                    k <= items@.len(),
                    iv == items_view(items@),
                    strings_view(out@) == public_key_items(iv.subrange(0, k as int)),
                decreases items.len() - k,
            {
                proof {
                    assert(iv.subrange(0, k as int + 1).drop_last() =~= iv.subrange(0, k as int));
                    assert(iv.subrange(0, k as int + 1).last() == items@[k as int]@);
                }
                match &items[k] {
                    Json::Str(s) => push_str(&mut out, s.clone()),
                    Json::Object(_) => match as_str(get(&items[k], "openssh-key")) {
                        Some(key) => push_str(&mut out, key.clone()),
                        None => {},
                    },
                    _ => {},
                }
                k = k + 1;
            }
            assert(iv.subrange(0, items@.len() as int) =~= iv);
        },
        Some(Json::Object(e)) => {
            proof {
                crate::json::lemma_object_view(*e);
            }
            let ghost ev = entries_view(e@);
            let mut k: usize = 0;
            while k < e.len()
                invariant
                    k <= e@.len(),
                    ev == entries_view(e@),
                    strings_view(out@) == crate::openstack::member_strings(ev.subrange(0, k as int)),
                decreases e.len() - k,
            {
                proof {
                    assert(ev.subrange(0, k as int + 1).drop_last() =~= ev.subrange(0, k as int));
                    assert(ev.subrange(0, k as int + 1).last() == (e@[k as int].0@, e@[k as int].1@));
                }
                match &e[k].1 {
                    Json::Str(s) => push_str(&mut out, s.clone()),
                    _ => {},
                }
                k = k + 1;
            }
            assert(ev.subrange(0, e@.len() as int) =~= ev);
        },
        Some(Json::Str(t)) => {
            let lines = split_chars(&chars_of(t.as_str()), '\n');
            let ghost lv = views_of(lines@);
            let mut k: usize = 0;
            while k < lines.len()
                invariant
                    k <= lines@.len(),
                    lv == views_of(lines@),
                    strings_view(out@) == text_keys(lv.subrange(0, k as int)),
                decreases lines.len() - k,
            {
                proof {
                    assert(lv.subrange(0, k as int + 1).drop_last() =~= lv.subrange(0, k as int));
                    assert(lv.subrange(0, k as int + 1).last() == lines@[k as int]@);
                }
                let key = trim_chars(&lines[k]);
                if key.len() > 0 && key[0] != '#' {
                    push_str(&mut out, string_from_chars(&key));
                }
                k = k + 1;
            }
            assert(lv.subrange(0, lines@.len() as int) =~= lv);
        },
        _ => {},
    }
    out
}

impl CloudInitSource {
    /// Reads cloud-init metadata into a configuration.
    pub fn parse_metadata(&self, metadata: &Json, config: &mut ProvisioningConfig) -> (r: Result<(), String>)
        requires
            old(config).wf(),
        ensures
            r is Ok,
            final(config).wf(),
            final(config)@ == ci_metadata_applied(old(config)@, metadata@),
    {
        let ghost c0 = config@;
        match as_str(get(metadata, "hostname")) {
            Some(h) => config.hostname = Some(h.clone()),
            None => match as_str(get(metadata, "instance-id")) {
                Some(i) => config.hostname = Some(i.clone()),
                None => match as_str(get(metadata, "name")) {
                    Some(n) => config.hostname = Some(n.clone()),
                    None => {},
                },
            },
        }
        let keys = public_keys_of(metadata);
        let ghost k0 = strings_view(config.ssh_authorized_keys@);
        let ghost c1 = config@;
        let mut k: usize = 0;
        while k < keys.len()
            invariant
                k <= keys@.len(),
                config.wf(),
                config@ == (ProvisioningConfigV { ssh_authorized_keys: config@.ssh_authorized_keys, ..c1 }),
                strings_view(config.ssh_authorized_keys@) == k0 + strings_view(keys@).subrange(0, k as int),
            decreases keys.len() - k,
        {
            push_str(&mut config.ssh_authorized_keys, keys[k].clone());
            assert(k0 + strings_view(keys@).subrange(0, k as int + 1) =~= (k0 + strings_view(keys@).subrange(0, k as int)).push(keys@[k as int]@));
            k = k + 1;
        }
        assert(strings_view(keys@).subrange(0, keys@.len() as int) =~= strings_view(keys@));
        let mut extra: Vec<String> = Vec::new();
        assert(strings_view(extra@) =~= Seq::<Seq<char>>::empty());
        match as_array(get(metadata, "ssh_authorized_keys")) {
            Some(items) => {
                let ghost iv = items_view(items@);
                let mut j: usize = 0;
                while j < items.len()
                    invariant
                        j <= items@.len(),
                        iv == items_view(items@),
                        strings_view(extra@) == string_items(iv.subrange(0, j as int)),
                    decreases items.len() - j,
                {
                    proof {
                        assert(iv.subrange(0, j as int + 1).drop_last() =~= iv.subrange(0, j as int));
                        assert(iv.subrange(0, j as int + 1).last() == items@[j as int]@);
                    }
                    match &items[j] {
                        Json::Str(s) => push_str(&mut extra, s.clone()),
                        _ => {},
                    }
                    j = j + 1;
                }
                assert(iv.subrange(0, items@.len() as int) =~= iv);
            },
            None => {},
        }
        crate::prov_config::push_unique(&mut config.ssh_authorized_keys, extra);
        config.insert_metadata("cloud-init".to_owned(), metadata.deep_copy());
        proof {
            assert(config@ =~= ci_metadata_applied(c0, metadata@));
        }
        Ok(())
    }
}

} // verus!

verus! {

impl CloudInitSource {
    /// Reads the meta-data text, JSON or YAML, into `config` as `parse_metadata`
    /// does; refused, with `config` unchanged, where the text is neither.
    pub fn metadata_text_into(&self, text: &str, config: &mut ProvisioningConfig) -> (r: Result<(), String>)
        requires
            old(config).wf(),
        ensures
            final(config).wf(),
            match crate::json_text::json_or_yaml_value(text@) {
                Some(m) => r is Ok && final(config)@ == ci_metadata_applied(old(config)@, m),
                None => r is Err && r->Err_0@ == "Failed to parse meta-data"@ && final(config)@ == old(config)@,
            },
    {
        match crate::json_text::parse_json_or_yaml(text) {
            Some(m) => self.parse_metadata(&m, config),
            None => Err("Failed to parse meta-data".to_owned()),
        }
    }

    /// Reads the network-config text, JSON or YAML: where its network
    /// configuration can be read, its interfaces replace those of `config`;
    /// refused, with `config` unchanged, where the text is neither.
    pub fn network_text_into(&self, text: &str, config: &mut ProvisioningConfig) -> (r: Result<(), String>)
        requires
            old(config).wf(),
        ensures
            final(config).wf(),
            match crate::json_text::json_or_yaml_value(text@) {
                Some(n) => r is Ok && match network_config_model(n) {
                    Ok(m) => final(config)@ == (ProvisioningConfigV { interfaces: m, ..old(config)@ }),
                    Err(_) => final(config)@ == old(config)@,
                },
                None => r is Err && r->Err_0@ == "Failed to parse network-config"@ && final(config)@ == old(config)@,
            },
    {
        match crate::json_text::parse_json_or_yaml(text) {
            Some(n) => {
                match self.parse_network_config(&n) {
                    Ok(ifs) => {
                        config.interfaces = ifs;
                    },
                    Err(_) => {},
                }
                Ok(())
            },
            None => Err("Failed to parse network-config".to_owned()),
        }
    }
}

} // verus!

verus! {

/// A static subnet (of type `static`, `static6`, or none) with an address adds
/// to its interface one static address: that address, the subnet's gateway,
/// primary where it is the interface's first address; the interface is
/// otherwise unchanged.
pub proof fn law_static_subnet_keeps_address_and_gateway(i: InterfaceConfigV, subnet: JsonV, a: Seq<char>)
    requires
        jstr(jget(subnet, "type"@)) is None || jstr(jget(subnet, "type"@)) == Some("static"@) || jstr(jget(subnet, "type"@))
            == Some("static6"@),
        jstr(jget(subnet, "address"@)) == Some(a),
    ensures
        subnet_step(i, subnet) == Ok::<InterfaceConfigV, Seq<char>>(
            InterfaceConfigV {
                addresses: i.addresses.push(
                    AddressConfigV {
                        addr_type: AddressType::Static,
                        address: Some(a),
                        gateway: jstr(jget(subnet, "gateway"@)),
                        primary: i.addresses.len() == 0,
                    },
                ),
                ..i
            },
        ),
{
}

/// A static subnet without an address is refused, and so is the whole list of
/// subnets it stands in.
pub proof fn law_static_subnet_without_address_is_refused(i: InterfaceConfigV, subnets: Seq<JsonV>, k: int)
    requires
        0 <= k < subnets.len(),
        jstr(jget(subnets[k], "type"@)) is None || jstr(jget(subnets[k], "type"@)) == Some("static"@),
        jstr(jget(subnets[k], "address"@)) is None,
    ensures
        subnets_model(i, subnets) is Err,
    decreases subnets.len(),
{
    if k < subnets.len() - 1 {
        assert(subnets.drop_last()[k] == subnets[k]);
        law_static_subnet_without_address_is_refused(i, subnets.drop_last(), k);
    }
}

/// A physical item of version 1 configuration with one static subnet gives the
/// interface of its name, holding that subnet's address and gateway.
pub proof fn law_v1_physical_static_subnet(c: JsonV, item: JsonV, name: Seq<char>, subnet: JsonV, a: Seq<char>)
    requires
        jarr(jget(c, "config"@)) == Some(seq![item]),
        jstr(jget(item, "type"@)) == Some("physical"@),
        jstr(jget(item, "name"@)) == Some(name),
        jarr(jget(item, "subnets"@)) == Some(seq![subnet]),
        jstr(jget(subnet, "type"@)) == Some("static"@),
        jstr(jget(subnet, "address"@)) == Some(a),
    ensures
        network_config_v1_model(c) matches Ok(m) && m.dom() == set![name] && m[name].addresses == seq![
            AddressConfigV {
                addr_type: AddressType::Static,
                address: Some(a),
                gateway: jstr(jget(subnet, "gateway"@)),
                primary: true,
            },
        ],
{
    let items = seq![item];
    assert(items.drop_last() =~= Seq::<JsonV>::empty());
    assert(items.last() == item);
    let ss = seq![subnet];
    assert(ss.drop_last() =~= Seq::<JsonV>::empty());
    assert(ss.last() == subnet);
    reveal_strlit("physical");
    reveal_strlit("vlan");
    assert("physical"@.len() != "vlan"@.len());
    let base = v1_base(item, false);
    law_static_subnet_keeps_address_and_gateway(base, subnet, a);
    assert(subnets_model(base, ss.drop_last()) == Ok::<InterfaceConfigV, Seq<char>>(base));
    assert(subnets_model(base, ss) == subnet_step(base, subnet));
    assert(v1_items_model(items.drop_last()) == Ok::<Map<Seq<char>, InterfaceConfigV>, Seq<char>>(Map::empty()));
    assert(v1_items_model(items) == v1_step(Map::empty(), item));
    let m = network_config_v1_model(c)->Ok_0;
    assert(m.dom() =~= set![name]);
    assert(m[name].addresses =~= seq![
        AddressConfigV {
            addr_type: AddressType::Static,
            address: Some(a),
            gateway: jstr(jget(subnet, "gateway"@)),
            primary: true,
        },
    ]);
}

} // verus!

verus! {

/// A `dhcp` or `dhcp4` subnet adds a DHCPv4 address, primary where it is the
/// interface's first; a `dhcp6` subnet adds a DHCPv6 address, never primary.
pub proof fn law_dhcp_subnets(i: InterfaceConfigV, subnet: JsonV)
    ensures
        (jstr(jget(subnet, "type"@)) == Some("dhcp"@) || jstr(jget(subnet, "type"@)) == Some("dhcp4"@)) ==> subnet_step(i, subnet)
            == Ok::<InterfaceConfigV, Seq<char>>(
            InterfaceConfigV {
                addresses: i.addresses.push(
                    AddressConfigV { addr_type: AddressType::Dhcp4, address: None, gateway: None, primary: i.addresses.len() == 0 },
                ),
                ..i
            },
        ),
        jstr(jget(subnet, "type"@)) == Some("dhcp6"@) ==> subnet_step(i, subnet) == Ok::<InterfaceConfigV, Seq<char>>(
            InterfaceConfigV {
                addresses: i.addresses.push(
                    AddressConfigV { addr_type: AddressType::Dhcp6, address: None, gateway: None, primary: false },
                ),
                ..i
            },
        ),
{
    reveal_strlit("static");
    reveal_strlit("static6");
    reveal_strlit("dhcp");
    reveal_strlit("dhcp4");
    reveal_strlit("dhcp6");
    assert("static"@.len() == 6 && "static6"@.len() == 7 && "dhcp"@.len() == 4 && "dhcp4"@.len() == 5);
    assert("dhcp4"@[4] != "dhcp6"@[4]);
    assert("dhcp6"@[0] != "static6"@[0]);
}

} // verus!

verus! {

proof fn lemma_public_key_items_hold(items: Seq<JsonV>, k: int)
    requires
        0 <= k < items.len(),
    ensures
        items[k] matches JsonV::Str(s) ==> public_key_items(items).contains(s),
        (items[k] is Object && jstr(jget(items[k], "openssh-key"@)) is Some) ==> public_key_items(items).contains(
            jstr(jget(items[k], "openssh-key"@))->0,
        ),
    decreases items.len(),
{
    let a = public_key_items(items.drop_last());
    if k < items.len() - 1 {
        assert(items.drop_last()[k] == items[k]);
        lemma_public_key_items_hold(items.drop_last(), k);
        match items.last() {
            JsonV::Str(s) => {
                assert forall|x: Seq<char>| a.contains(x) implies a.push(s).contains(x) by {
                    let j = choose|j: int| 0 <= j < a.len() && a[j] == x;
                    assert(a.push(s)[j] == x);
                }
            },
            JsonV::Object(e) => match jstr(jget(JsonV::Object(e), "openssh-key"@)) {
                Some(kk) => {
                    assert forall|x: Seq<char>| a.contains(x) implies a.push(kk).contains(x) by {
                        let j = choose|j: int| 0 <= j < a.len() && a[j] == x;
                        assert(a.push(kk)[j] == x);
                    }
                },
                None => {},
            },
            _ => {},
        }
    } else {
        match items.last() {
            JsonV::Str(s) => {
                assert(a.push(s)[a.len() as int] == s);
            },
            JsonV::Object(e) => match jstr(jget(JsonV::Object(e), "openssh-key"@)) {
                Some(kk) => {
                    assert(a.push(kk)[a.len() as int] == kk);
                },
                None => {},
            },
            _ => {},
        }
    }
}

proof fn lemma_string_items_hold(items: Seq<JsonV>, k: int)
    requires
        0 <= k < items.len(),
    ensures
        items[k] matches JsonV::Str(s) ==> string_items(items).contains(s),
    decreases items.len(),
{
    let a = string_items(items.drop_last());
    if k < items.len() - 1 {
        assert(items.drop_last()[k] == items[k]);
        lemma_string_items_hold(items.drop_last(), k);
        if let JsonV::Str(s) = items.last() {
            assert forall|x: Seq<char>| a.contains(x) implies a.push(s).contains(x) by {
                let j = choose|j: int| 0 <= j < a.len() && a[j] == x;
                assert(a.push(s)[j] == x);
            }
        }
    } else {
        if let JsonV::Str(s) = items.last() {
            assert(a.push(s)[a.len() as int] == s);
        }
    }
}

/// Reading cloud-init metadata keeps every key the configuration had, adds every
/// key of its `public-keys` list (strings and `openssh-key` members) and of its
/// `ssh_authorized_keys` list, takes its `hostname` where it gives one, and
/// stores the metadata under `cloud-init`.
pub proof fn law_ci_metadata_keeps_and_adds_keys(c: ProvisioningConfigV, md: JsonV, items: Seq<JsonV>, k: int, x: Seq<char>)
    ensures
        c.ssh_authorized_keys.contains(x) ==> ci_metadata_applied(c, md).ssh_authorized_keys.contains(x),
        (jget(md, "public-keys"@) == Some(JsonV::Array(items)) && 0 <= k < items.len() && items[k] == JsonV::Str(x))
            ==> ci_metadata_applied(c, md).ssh_authorized_keys.contains(x),
        (jarr(jget(md, "ssh_authorized_keys"@)) == Some(items) && 0 <= k < items.len() && items[k] == JsonV::Str(x))
            ==> ci_metadata_applied(c, md).ssh_authorized_keys.contains(x),
        jstr(jget(md, "hostname"@)) is Some ==> ci_metadata_applied(c, md).hostname == jstr(jget(md, "hostname"@)),
        ci_metadata_applied(c, md).metadata == c.metadata.insert("cloud-init"@, md),
{
    let extra = match jarr(jget(md, "ssh_authorized_keys"@)) {
        Some(its) => string_items(its),
        None => Seq::empty(),
    };
    let base = c.ssh_authorized_keys + ci_public_keys(md);
    crate::merger::lemma_add_unique_keeps(base, extra);
    if c.ssh_authorized_keys.contains(x) {
        let j = choose|j: int| 0 <= j < c.ssh_authorized_keys.len() && c.ssh_authorized_keys[j] == x;
        assert(base[j] == x);
    }
    if jget(md, "public-keys"@) == Some(JsonV::Array(items)) && 0 <= k < items.len() && items[k] == JsonV::Str(x) {
        lemma_public_key_items_hold(items, k);
        let pk = ci_public_keys(md);
        let j = choose|j: int| 0 <= j < pk.len() && pk[j] == x;
        assert(base[c.ssh_authorized_keys.len() + j] == x);
    }
    if jarr(jget(md, "ssh_authorized_keys"@)) == Some(items) && 0 <= k < items.len() && items[k] == JsonV::Str(x) {
        lemma_string_items_hold(items, k);
    }
}

} // verus!

verus! {

/// A `physical` item's interface carries its MAC address (normalised) and MTU;
/// a `vlan` item's carries its VLAN identifier and its parent link, and no MAC
/// address; both are enabled.
pub proof fn law_v1_item_interface_fields(item: JsonV, mac: Seq<char>, id: u16)
    ensures
        jstr(jget(item, "mac_address"@)) == Some(mac) ==> v1_base(item, false).mac_address == Some(
            crate::netutil::normal_mac(mac),
        ),
        v1_base(item, false).mtu == opt_u32(ju64(jget(item, "mtu"@))),
        ju64(jget(item, "vlan_id"@)) == Some(id as u64) ==> v1_base(item, true).vlan_id == Some(id),
        v1_base(item, true).parent == jstr(jget(item, "vlan_link"@)),
        v1_base(item, true).mac_address is None,
        v1_base(item, false).enabled && v1_base(item, true).enabled,
{
}

} // verus!
