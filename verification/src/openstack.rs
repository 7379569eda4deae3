//! Reading OpenStack instance metadata and network data.
use vstd::prelude::*;
use crate::json::{entries_view, items_view, Json, JsonV};
use crate::json_access::{as_array, as_bool, as_object, as_str, as_u64, get, get_in, jarr, jbool, jget, jobj, jstr, ju64};
use crate::keyed::{entries_map, find_entry, lemma_entries_map_update, names_distinct, pairs_view, put_entry};
use crate::netutil::{netmask_to_cidr, netmask_to_cidr_spec, normal_mac, normalize_mac_address};
use crate::prov_config::{AddressConfig, AddressConfigV, AddressType, InterfaceConfig, InterfaceConfigV};
use crate::sources::OpenStackSource;
use crate::text::{append_chars, chars_of, dec_digits, str_contains_char, str_eq, string_from_chars, u64_to_dec};

verus! {

/// The MAC address a link names, normalized.
pub open spec fn opt_mac(o: Option<Seq<char>>) -> Option<Seq<char>> {
    match o {
        Some(m) => Some(normal_mac(m)),
        None => None,
    }
}

/// A number taken as an MTU (its low 32 bits).
pub open spec fn opt_u32(o: Option<u64>) -> Option<u32> {
    match o {
        Some(n) => Some(n as u32),
        None => None,
    }
}

/// A number taken as a VLAN identifier (its low 16 bits).
pub open spec fn opt_u16(o: Option<u64>) -> Option<u16> {
    match o {
        Some(n) => Some(n as u16),
        None => None,
    }
}

/// The interface that a link of network data (version 1) describes, before its
/// networks are added.
pub open spec fn link_interface(l: JsonV) -> InterfaceConfigV {
    InterfaceConfigV {
        mac_address: opt_mac(jstr(jget(l, "ethernet_mac_address"@))),
        mtu: opt_u32(ju64(jget(l, "mtu"@))),
        addresses: Seq::empty(),
        enabled: true,
        description: Some("OpenStack network interface"@),
        vlan_id: opt_u16(ju64(jget(l, "vlan_id"@))),
        parent: jstr(jget(l, "vlan_link"@)),
    }
}

/// The interfaces by name and the interface name of each link identifier, after
/// the given links; a link without an identifier is skipped, and a link without a
/// name is named by its identifier.
pub open spec fn links_model(links: Seq<JsonV>) -> (Map<Seq<char>, InterfaceConfigV>, Map<Seq<char>, Seq<char>>)
    decreases links.len(),
{
    if links.len() == 0 {
        (Map::empty(), Map::empty())
    } else {
        let (ifs, names) = links_model(links.drop_last());
        let l = links.last();
        match jstr(jget(l, "id"@)) {
            Some(id) => {
                let name = match jstr(jget(l, "name"@)) {
                    Some(n) => n,
                    None => id,
                };
                (ifs.insert(name, link_interface(l)), names.insert(id, name))
            },
            None => (ifs, names),
        }
    }
}

/// An address without a value.
pub open spec fn dynamic_address(t: AddressType, primary: bool) -> AddressConfigV {
    AddressConfigV { addr_type: t, address: None, gateway: None, primary }
}

/// The prefix length of a static network: from its netmask where it has one (24
/// where the netmask is not valid), else 64 for IPv6 and 24 for IPv4.
pub open spec fn network_prefix(net: JsonV, is_v6: bool) -> nat {
    match jstr(jget(net, "netmask"@)) {
        Some(nm) => match netmask_to_cidr_spec(nm) {
            Ok(p) => p,
            Err(_) => 24,
        },
        None => if is_v6 {
            64
        } else {
            24
        },
    }
}

/// The interface after one network of version 1 network data is added to it.
pub open spec fn add_network(i: InterfaceConfigV, net: JsonV) -> InterfaceConfigV {
    let t = match jstr(jget(net, "type"@)) {
        Some(t) => t,
        None => "ipv4"@,
    };
    let first = i.addresses.len() == 0;
    if t == "ipv4_dhcp"@ || t == "dhcp4"@ {
        InterfaceConfigV { addresses: i.addresses.push(dynamic_address(AddressType::Dhcp4, first)), ..i }
    } else if t == "ipv6_dhcp"@ || t == "dhcp6"@ {
        InterfaceConfigV { addresses: i.addresses.push(dynamic_address(AddressType::Dhcp6, false)), ..i }
    } else if t == "ipv6_slaac"@ {
        InterfaceConfigV { addresses: i.addresses.push(dynamic_address(AddressType::Slaac, false)), ..i }
    } else if t == "ipv4"@ || t == "ipv6"@ {
        let ip = match jstr(jget(net, "ip_address"@)) {
            Some(s) => s,
            None => Seq::empty(),
        };
        if ip.len() > 0 {
            let a = AddressConfigV {
                addr_type: AddressType::Static,
                address: Some(ip + "/"@ + dec_digits(network_prefix(net, t == "ipv6"@))),
                gateway: jstr(jget(net, "gateway"@)),
                primary: first,
            };
            InterfaceConfigV { addresses: i.addresses.push(a), ..i }
        } else {
            i
        }
    } else {
        i
    }
}

/// The interfaces after the given networks are added to the interfaces their
/// links name.
pub open spec fn networks_model(
    ifs: Map<Seq<char>, InterfaceConfigV>,
    names: Map<Seq<char>, Seq<char>>,
    nets: Seq<JsonV>,
) -> Map<Seq<char>, InterfaceConfigV>
    decreases nets.len(),
{
    if nets.len() == 0 {
        ifs
    } else {
        let m = networks_model(ifs, names, nets.drop_last());
        let net = nets.last();
        let link = match jstr(jget(net, "link"@)) {
            Some(s) => s,
            None => Seq::empty(),
        };
        if names.contains_key(link) && m.contains_key(names[link]) {
            m.insert(names[link], add_network(m[names[link]], net))
        } else {
            m
        }
    }
}

/// The interfaces that version 1 network data describes: its links, with the
/// addresses of its networks.
pub open spec fn network_v1_model(data: JsonV) -> Map<Seq<char>, InterfaceConfigV> {
    let links = match jarr(jget(data, "links"@)) {
        Some(a) => a,
        None => Seq::empty(),
    };
    let nets = match jarr(jget(data, "networks"@)) {
        Some(a) => a,
        None => Seq::empty(),
    };
    let (ifs, names) = links_model(links);
    networks_model(ifs, names, nets)
}

/// The first static address without a gateway whose address is IPv6 (`v6`) or
/// IPv4 (not `v6`), told apart by a colon.
pub open spec fn gateway_slot(a: Seq<AddressConfigV>, v6: bool) -> Option<int>
    decreases a.len(),
{
    if a.len() == 0 {
        None
    } else {
        match gateway_slot(a.drop_last(), v6) {
            Some(i) => Some(i),
            None => {
                let x = a.last();
                if x.addr_type == AddressType::Static && x.gateway is None && x.address is Some
                    && x.address->0.contains(':') == v6 {
                    Some(a.len() - 1)
                } else {
                    None
                }
            },
        }
    }
}

/// The addresses with `gw` as the gateway of their gateway slot, if any.
pub open spec fn with_gateway(a: Seq<AddressConfigV>, gw: Option<Seq<char>>, v6: bool) -> Seq<AddressConfigV> {
    match gw {
        Some(g) => match gateway_slot(a, v6) {
            Some(i) => a.update(i, AddressConfigV { gateway: Some(g), ..a[i] }),
            None => a,
        },
        None => a,
    }
}

/// The static addresses that an `addresses` list names, in order.
pub open spec fn static_addresses(items: Seq<JsonV>) -> Seq<AddressConfigV>
    decreases items.len(),
{
    if items.len() == 0 {
        Seq::empty()
    } else {
        let a = static_addresses(items.drop_last());
        match items.last() {
            JsonV::Str(s) => a.push(AddressConfigV {
                addr_type: AddressType::Static,
                address: Some(s),
                gateway: None,
                primary: a.len() == 0,
            }),
            _ => a,
        }
    }
}

/// The interface that an `ethernets` entry of version 2 network data describes,
/// with the given description; where `set_name_mac` holds, its `set-name` stands
/// for the MAC address when it matches none.
pub open spec fn ethernet_interface_with(e: JsonV, description: Seq<char>, set_name_mac: bool) -> InterfaceConfigV {
    let a0 = match jarr(jget(e, "addresses"@)) {
        Some(items) => static_addresses(items),
        None => Seq::empty(),
    };
    let a1 = if jbool(jget(e, "dhcp4"@)) == Some(true) {
        a0.push(dynamic_address(AddressType::Dhcp4, a0.len() == 0))
    } else {
        a0
    };
    let a2 = if jbool(jget(e, "dhcp6"@)) == Some(true) {
        a1.push(dynamic_address(AddressType::Dhcp6, false))
    } else {
        a1
    };
    let a3 = with_gateway(a2, jstr(jget(e, "gateway4"@)), false);
    let a4 = with_gateway(a3, jstr(jget(e, "gateway6"@)), true);
    let by_match = match jget(e, "match"@) {
        Some(m) => opt_mac(jstr(jget(m, "macaddress"@))),
        None => None,
    };
    InterfaceConfigV {
        mac_address: if by_match is Some || !set_name_mac {
            by_match
        } else {
            jstr(jget(e, "set-name"@))
        },
        mtu: opt_u32(ju64(jget(e, "mtu"@))),
        addresses: a4,
        enabled: true,
        description: Some(description),
        vlan_id: None,
        parent: None,
    }
}

/// The interface that an `ethernets` entry of OpenStack version 2 network data
/// describes.
pub open spec fn ethernet_interface(e: JsonV) -> InterfaceConfigV {
    ethernet_interface_with(e, "OpenStack network interface"@, true)
}

/// The interface that a `vlans` entry of version 2 network data describes.
pub open spec fn vlan_interface(v: JsonV) -> InterfaceConfigV {
    InterfaceConfigV {
        mac_address: None,
        mtu: opt_u32(ju64(jget(v, "mtu"@))),
        addresses: Seq::empty(),
        enabled: true,
        description: Some("OpenStack VLAN interface"@),
        vlan_id: opt_u16(ju64(jget(v, "id"@))),
        parent: jstr(jget(v, "link"@)),
    }
}

/// The interfaces after each named entry is described by `f`.
pub open spec fn named_interfaces(
    m: Map<Seq<char>, InterfaceConfigV>,
    e: Seq<(Seq<char>, JsonV)>,
    vlan: bool,
) -> Map<Seq<char>, InterfaceConfigV>
    decreases e.len(),
{
    if e.len() == 0 {
        m
    } else {
        named_interfaces(m, e.drop_last(), vlan).insert(
            e.last().0,
            if vlan {
                vlan_interface(e.last().1)
            } else {
                ethernet_interface(e.last().1)
            },
        )
    }
}

/// The interfaces that version 2 network data describes: its ethernets, then its
/// VLANs.
pub open spec fn network_v2_model(data: JsonV) -> Map<Seq<char>, InterfaceConfigV> {
    let eth = match jobj(jget(data, "ethernets"@)) {
        Some(e) => e,
        None => Seq::empty(),
    };
    let vl = match jobj(jget(data, "vlans"@)) {
        Some(e) => e,
        None => Seq::empty(),
    };
    named_interfaces(named_interfaces(Map::empty(), eth, false), vl, true)
}

/// The interfaces that network data describes, by its version (1 where it gives
/// none or an unknown one).
pub open spec fn network_data_model(data: JsonV) -> Map<Seq<char>, InterfaceConfigV> {
    if ju64(jget(data, "version"@)) == Some(2u64) {
        network_v2_model(data)
    } else {
        network_v1_model(data)
    }
}

/// The hostname that instance metadata gives: its `hostname`, else its `name`.
pub open spec fn metadata_hostname(md: JsonV) -> Option<Seq<char>> {
    match jstr(jget(md, "hostname"@)) {
        Some(h) => Some(h),
        None => jstr(jget(md, "name"@)),
    }
}

/// The string values among object members, in order.
pub open spec fn member_strings(e: Seq<(Seq<char>, JsonV)>) -> Seq<Seq<char>>
    decreases e.len(),
{
    if e.len() == 0 {
        Seq::empty()
    } else {
        match e.last().1 {
            JsonV::Str(s) => member_strings(e.drop_last()).push(s),
            _ => member_strings(e.drop_last()),
        }
    }
}

/// The `data` strings of key objects, in order.
pub open spec fn key_datas(items: Seq<JsonV>) -> Seq<Seq<char>>
    decreases items.len(),
{
    if items.len() == 0 {
        Seq::empty()
    } else {
        match jstr(jget(items.last(), "data"@)) {
            Some(s) => key_datas(items.drop_last()).push(s),
            None => key_datas(items.drop_last()),
        }
    }
}

/// The SSH keys that instance metadata gives: the string values of its
/// `public_keys` object, else the `data` of each item of its `keys` array.
pub open spec fn metadata_ssh_keys(md: JsonV) -> Seq<Seq<char>> {
    match jobj(jget(md, "public_keys"@)) {
        Some(e) => member_strings(e),
        None => match jarr(jget(md, "keys"@)) {
            Some(items) => key_datas(items),
            None => Seq::empty(),
        },
    }
}

pub fn dynamic(t: AddressType, primary: bool) -> (r: AddressConfig)
    ensures
        r@ == dynamic_address(t, primary),
{
    AddressConfig { addr_type: t, address: None, gateway: None, primary }
}

pub fn opt_string(o: Option<&String>) -> (r: Option<String>)
    ensures
        match o {
            Some(s) => r is Some && r->0@ == s@,
            None => r is None,
        },
{
    match o {
        Some(s) => Some(s.clone()),
        None => None,
    }
}

fn add_network_into(i: &mut InterfaceConfig, net: &Json)
    ensures
        final(i)@ == add_network(old(i)@, net@),
{
    let ghost i0 = i@;
    let t: &str = match as_str(get(net, "type")) {
        Some(s) => s.as_str(),
        None => "ipv4",
    };
    let first = i.addresses.len() == 0;
    if str_eq(t, "ipv4_dhcp") || str_eq(t, "dhcp4") {
        let a = dynamic(AddressType::Dhcp4, first);
        i.addresses.push(a);
        assert(i@.addresses =~= i0.addresses.push(a@));
    } else if str_eq(t, "ipv6_dhcp") || str_eq(t, "dhcp6") {
        let a = dynamic(AddressType::Dhcp6, false);
        i.addresses.push(a);
        assert(i@.addresses =~= i0.addresses.push(a@));
    } else if str_eq(t, "ipv6_slaac") {
        let a = dynamic(AddressType::Slaac, false);
        i.addresses.push(a);
        assert(i@.addresses =~= i0.addresses.push(a@));
    } else if str_eq(t, "ipv4") || str_eq(t, "ipv6") {
        let is_v6 = str_eq(t, "ipv6");
        let ip: &str = match as_str(get(net, "ip_address")) {
            Some(s) => s.as_str(),
            None => "",
        };
        proof {
            reveal_strlit("");
        }
        let prefix: u8 = match as_str(get(net, "netmask")) {
            Some(nm) => match netmask_to_cidr(nm.as_str()) {
                Ok(p) => p,
                Err(_) => 24,
            },
            None => if is_v6 {
                64
            } else {
                24
            },
        };
        proof {
            if let Some(nm) = jstr(jget(net@, "netmask"@)) {
                if let Ok(p) = netmask_to_cidr_spec(nm) {
                    lemma_cidr_fits(nm);
                }
            }
        }
        if ip.unicode_len() > 0 {
            let mut text = chars_of(ip);
            append_chars(&mut text, &chars_of("/"));
            append_chars(&mut text, &u64_to_dec(prefix as u64));
            let a = AddressConfig {
                addr_type: AddressType::Static,
                address: Some(string_from_chars(&text)),
                gateway: opt_string(as_str(get(net, "gateway"))),
                primary: first,
            };
            i.addresses.push(a);
            assert(i@.addresses =~= i0.addresses.push(a@));
        }
    }
}

proof fn lemma_cidr_fits(nm: Seq<char>)
    ensures
        netmask_to_cidr_spec(nm) matches Ok(p) ==> p <= 32,
{
    crate::netutil::lemma_netmask_to_cidr_bound(nm);
}

impl OpenStackSource {
    /// The interfaces that version 1 network data describes.
    pub fn parse_network_v1(&self, network_data: &Json) -> (r: Vec<(String, InterfaceConfig)>)
        ensures
            names_distinct(pairs_view(r@)),
            entries_map(pairs_view(r@)) == network_v1_model(network_data@),
    {
        let empty: Vec<Json> = Vec::new();
        let links = match as_array(get(network_data, "links")) {
            Some(a) => a,
            None => &empty,
        };
        let mut ifs: Vec<(String, InterfaceConfig)> = Vec::new();
        let mut names: Vec<(String, String)> = Vec::new();
        proof {
            assert(pairs_view(ifs@) =~= Seq::<(Seq<char>, InterfaceConfigV)>::empty());
            assert(pairs_view(names@) =~= Seq::<(Seq<char>, Seq<char>)>::empty());
            assert(items_view(empty@) =~= Seq::<JsonV>::empty());
        }
        let ghost lv = items_view(links@);
        let mut k: usize = 0;
        while k < links.len()
            invariant
                k <= links@.len(),
                lv == items_view(links@),
                names_distinct(pairs_view(ifs@)),
                names_distinct(pairs_view(names@)),
                (entries_map(pairs_view(ifs@)), entries_map(pairs_view(names@))) == links_model(lv.subrange(0, k as int)),
            decreases links.len() - k,
        {
            let l = &links[k];
            proof {
                assert(lv.subrange(0, k as int + 1).drop_last() =~= lv.subrange(0, k as int));
                assert(lv.subrange(0, k as int + 1).last() == l@);
            }
            match as_str(get(l, "id")) {
                Some(id) => {
                    let name = match as_str(get(l, "name")) {
                        Some(n) => n.clone(),
                        None => id.clone(),
                    };
                    let iface = InterfaceConfig {
                        mac_address: match as_str(get(l, "ethernet_mac_address")) {
                            Some(m) => Some(normalize_mac_address(m.as_str())),
                            None => None,
                        },
                        mtu: match as_u64(get(l, "mtu")) {
                            Some(m) => Some(m as u32),
                            None => None,
                        },
                        addresses: Vec::new(),
                        enabled: true,
                        description: Some("OpenStack network interface".to_owned()),
                        vlan_id: match as_u64(get(l, "vlan_id")) {
                            Some(v) => Some(v as u16),
                            None => None,
                        },
                        parent: opt_string(as_str(get(l, "vlan_link"))),
                    };
                    assert(iface@.addresses =~= Seq::<AddressConfigV>::empty());
                    assert(iface@ == link_interface(l@));
                    put_entry(&mut names, id.clone(), name.clone());
                    put_entry(&mut ifs, name, iface);
                },
                None => {},
            }
            k = k + 1;
        }
        assert(lv.subrange(0, links@.len() as int) =~= lv);
        let nets = match as_array(get(network_data, "networks")) {
            Some(a) => a,
            None => &empty,
        };
        let ghost nv = items_view(nets@);
        let ghost ifs0 = entries_map(pairs_view(ifs@));
        let ghost nm0 = entries_map(pairs_view(names@));
        let mut n: usize = 0;
        while n < nets.len()
            invariant
                n <= nets@.len(),
                nv == items_view(nets@),
                names_distinct(pairs_view(ifs@)),
                names_distinct(pairs_view(names@)),
                nm0 == entries_map(pairs_view(names@)),
                entries_map(pairs_view(ifs@)) == networks_model(ifs0, nm0, nv.subrange(0, n as int)),
            decreases nets.len() - n,
        {
            let net = &nets[n];
            proof {
                assert(nv.subrange(0, n as int + 1).drop_last() =~= nv.subrange(0, n as int));
                assert(nv.subrange(0, n as int + 1).last() == net@);
            }
            let link: &str = match as_str(get(net, "link")) {
                Some(s) => s.as_str(),
                None => "",
            };
            proof {
                reveal_strlit("");
                let sl = match jstr(jget(net@, "link"@)) {
                    Some(x) => x,
                    None => Seq::empty(),
                };
                assert(sl == link@);
            }
            match find_entry(&names, link) {
                Some(li) => {
                    proof {
                        crate::keyed::lemma_entries_map_at(pairs_view(names@), li as int);
                    }
                    let iname = names[li].1.clone();
                    match find_entry(&ifs, iname.as_str()) {
                        Some(j) => {
                            proof {
                                crate::keyed::lemma_entries_map_at(pairs_view(ifs@), j as int);
                            }
                            let mut iface = ifs[j].1.duplicate();
                            add_network_into(&mut iface, net);
                            let ghost p0 = pairs_view(ifs@);
                            let key = ifs[j].0.clone();
                            let ghost nv_iface = iface@;
                            ifs.set(j, (key, iface));
                            proof {
                                assert(pairs_view(ifs@) =~= p0.update(j as int, (iname@, nv_iface)));
                                lemma_entries_map_update(p0, j as int, iname@, nv_iface);
                                let s = nv.subrange(0, n as int + 1);
                                let m = networks_model(ifs0, nm0, s.drop_last());
                                assert(m == entries_map(p0));
                                assert(nm0.contains_key(link@));
                                assert(nm0[link@] == iname@);
                                assert(m.contains_key(iname@));
                                assert(m[iname@] == p0[j as int].1);
                                assert(s.last() == net@);
                                let sl = match jstr(jget(s.last(), "link"@)) {
                                    Some(x) => x,
                                    None => Seq::empty(),
                                };
                                assert(sl == link@);
                                assert(networks_model(ifs0, nm0, s) == m.insert(iname@, add_network(m[iname@], net@)));
                            }
                        },
                        None => {
                            proof {
                                crate::keyed::lemma_entries_map_dom(pairs_view(ifs@));
                                assert(!entries_map(pairs_view(ifs@)).contains_key(iname@));
                            }
                        },
                    }
                },
                None => {
                    proof {
                        crate::keyed::lemma_entries_map_dom(pairs_view(names@));
                        assert(!entries_map(pairs_view(names@)).contains_key(link@));
                    }
                },
            }
            n = n + 1;
        }
        assert(nv.subrange(0, nets@.len() as int) =~= nv);
        ifs
    }
}

/// The models of addresses.
pub open spec fn addrs_view(v: Seq<AddressConfig>) -> Seq<AddressConfigV> {
    Seq::new(v.len(), |i: int| v[i]@)
}

pub fn find_gateway_slot(a: &Vec<AddressConfig>, v6: bool) -> (r: Option<usize>)
    ensures
        match gateway_slot(addrs_view(a@), v6) {
            Some(i) => r is Some && r->0 as int == i,
            None => r is None,
        },
{
    let ghost av = addrs_view(a@);
    let mut i: usize = 0;
    while i < a.len()
        invariant
            i <= a@.len(),
            av == addrs_view(a@),
            gateway_slot(av.subrange(0, i as int), v6) is None,
        decreases a.len() - i,
    {
        proof {
            assert(av.subrange(0, i as int + 1).drop_last() =~= av.subrange(0, i as int));
            assert(av.subrange(0, i as int + 1).last() == a@[i as int]@);
        }
        let x = &a[i];
        let fits = match &x.address {
            Some(s) => x.addr_type == AddressType::Static && x.gateway.is_none() && str_contains_char(s.as_str(), ':') == v6,
            None => false,
        };
        if fits {
            proof {
                lemma_gateway_slot_extends(av, v6, i as int + 1);
            }
            return Some(i);
        }
        i = i + 1;
    }
    assert(av.subrange(0, a@.len() as int) =~= av);
    None
}

proof fn lemma_gateway_slot_extends(a: Seq<AddressConfigV>, v6: bool, k: int)
    requires
        0 < k <= a.len(),
        gateway_slot(a.subrange(0, k), v6) is Some,
    ensures
        gateway_slot(a, v6) == gateway_slot(a.subrange(0, k), v6),
        0 <= gateway_slot(a, v6)->0 < k,
    decreases a.len() - k,
{
    lemma_gateway_slot_bounds(a.subrange(0, k), v6);
    if k < a.len() {
        assert(a.subrange(0, k + 1).drop_last() =~= a.subrange(0, k));
        lemma_gateway_slot_extends(a, v6, k + 1);
    } else {
        assert(a.subrange(0, k) =~= a);
    }
}

proof fn lemma_gateway_slot_bounds(a: Seq<AddressConfigV>, v6: bool)
    ensures
        gateway_slot(a, v6) matches Some(i) ==> 0 <= i < a.len(),
    decreases a.len(),
{
    if a.len() > 0 {
        lemma_gateway_slot_bounds(a.drop_last(), v6);
    }
}

pub fn apply_gateway(a: &mut Vec<AddressConfig>, gw: Option<&String>, v6: bool)
    ensures
        addrs_view(final(a)@) == with_gateway(addrs_view(old(a)@), match gw {
            Some(g) => Some(g@),
            None => None,
        }, v6),
{
    match gw {
        Some(g) => {
            match find_gateway_slot(a, v6) {
                Some(i) => {
                    proof {
                        lemma_gateway_slot_bounds(addrs_view(a@), v6);
                    }
                    let ghost a0 = addrs_view(a@);
                    let x = a[i].duplicate();
                    let y = AddressConfig { gateway: Some(g.clone()), ..x };
                    a.set(i, y);
                    assert(addrs_view(a@) =~= a0.update(i as int, AddressConfigV { gateway: Some(g@), ..a0[i as int] }));
                },
                None => {},
            }
        },
        None => {},
    }
}

/// The interface an `ethernets` entry describes, as `ethernet_interface_with` says.
pub fn ethernet_to_interface(e: &Json, description: &str, set_name_mac: bool) -> (r: InterfaceConfig)
    ensures
        r@ == ethernet_interface_with(e@, description@, set_name_mac),
{
    let mut addrs: Vec<AddressConfig> = Vec::new();
    match as_array(get(e, "addresses")) {
        Some(items) => {
            let ghost iv = items_view(items@);
            let mut k: usize = 0;
            assert(addrs_view(addrs@) =~= static_addresses(iv.subrange(0, 0)));
            while k < items.len()
                invariant
                    k <= items@.len(),
                    iv == items_view(items@),
                    addrs_view(addrs@) == static_addresses(iv.subrange(0, k as int)),
                decreases items.len() - k,
            {
                proof {
                    assert(iv.subrange(0, k as int + 1).drop_last() =~= iv.subrange(0, k as int));
                    assert(iv.subrange(0, k as int + 1).last() == items@[k as int]@);
                }
                match &items[k] {
                    Json::Str(s) => {
                        let first = addrs.len() == 0;
                        let a = AddressConfig {
                            addr_type: AddressType::Static,
                            address: Some(s.clone()),
                            gateway: None,
                            primary: first,
                        };
                        let ghost before = addrs_view(addrs@);
                        addrs.push(a);
                        assert(addrs_view(addrs@) =~= before.push(a@));
                    },
                    _ => {},
                }
                k = k + 1;
            }
            assert(iv.subrange(0, items@.len() as int) =~= iv);
        },
        None => {
            assert(addrs_view(addrs@) =~= Seq::<AddressConfigV>::empty());
        },
    }
    if as_bool(get(e, "dhcp4")) == Some(true) {
        let a = dynamic(AddressType::Dhcp4, addrs.len() == 0);
        let ghost before = addrs_view(addrs@);
        addrs.push(a);
        assert(addrs_view(addrs@) =~= before.push(a@));
    }
    if as_bool(get(e, "dhcp6")) == Some(true) {
        let a = dynamic(AddressType::Dhcp6, false);
        let ghost before = addrs_view(addrs@);
        addrs.push(a);
        assert(addrs_view(addrs@) =~= before.push(a@));
    }
    apply_gateway(&mut addrs, as_str(get(e, "gateway4")), false);
    apply_gateway(&mut addrs, as_str(get(e, "gateway6")), true);
    let by_match = match as_str(get_in(get(e, "match"), "macaddress")) {
        Some(m) => Some(normalize_mac_address(m.as_str())),
        None => None,
    };
    let mac = match by_match {
        Some(m) => Some(m),
        None => if set_name_mac {
            opt_string(as_str(get(e, "set-name")))
        } else {
            None
        },
    };
    let r = InterfaceConfig {
        mac_address: mac,
        mtu: match as_u64(get(e, "mtu")) {
            Some(m) => Some(m as u32),
            None => None,
        },
        addresses: addrs,
        enabled: true,
        description: Some(description.to_owned()),
        vlan_id: None,
        parent: None,
    };
    assert(r@.addresses =~= addrs_view(r.addresses@));
    r
}

fn vlan_to_interface(v: &Json) -> (r: InterfaceConfig)
    ensures
        r@ == vlan_interface(v@),
{
    let r = InterfaceConfig {
        mac_address: None,
        mtu: match as_u64(get(v, "mtu")) {
            Some(m) => Some(m as u32),
            None => None,
        },
        addresses: Vec::new(),
        enabled: true,
        description: Some("OpenStack VLAN interface".to_owned()),
        vlan_id: match as_u64(get(v, "id")) {
            Some(i) => Some(i as u16),
            None => None,
        },
        parent: opt_string(as_str(get(v, "link"))),
    };
    assert(r@.addresses =~= Seq::<AddressConfigV>::empty());
    r
}

fn put_named_interfaces(ifs: &mut Vec<(String, InterfaceConfig)>, e: &Vec<(String, Json)>, vlan: bool)
    requires
        names_distinct(pairs_view(old(ifs)@)),
    ensures
        names_distinct(pairs_view(final(ifs)@)),
        entries_map(pairs_view(final(ifs)@)) == named_interfaces(entries_map(pairs_view(old(ifs)@)), entries_view(e@), vlan),
{
    let ghost m0 = entries_map(pairs_view(ifs@));
    let ghost ev = entries_view(e@);
    let mut k: usize = 0;
    while k < e.len()
        invariant
            k <= e@.len(),
            ev == entries_view(e@),
            names_distinct(pairs_view(ifs@)),
            entries_map(pairs_view(ifs@)) == named_interfaces(m0, ev.subrange(0, k as int), vlan),
        decreases e.len() - k,
    {
        proof {
            assert(ev.subrange(0, k as int + 1).drop_last() =~= ev.subrange(0, k as int));
            assert(ev.subrange(0, k as int + 1).last() == (e@[k as int].0@, e@[k as int].1@));
        }
        let iface = if vlan {
            vlan_to_interface(&e[k].1)
        } else {
            ethernet_to_interface(&e[k].1, "OpenStack network interface", true)
        };
        put_entry(ifs, e[k].0.clone(), iface);
        k = k + 1;
    }
    assert(ev.subrange(0, e@.len() as int) =~= ev);
}

impl OpenStackSource {
    /// The interfaces that version 2 network data describes.
    pub fn parse_network_v2(&self, network_data: &Json) -> (r: Vec<(String, InterfaceConfig)>)
        ensures
            names_distinct(pairs_view(r@)),
            entries_map(pairs_view(r@)) == network_v2_model(network_data@),
    {
        let mut ifs: Vec<(String, InterfaceConfig)> = Vec::new();
        assert(pairs_view(ifs@) =~= Seq::<(Seq<char>, InterfaceConfigV)>::empty());
        let empty: Vec<(String, Json)> = Vec::new();
        assert(entries_view(empty@) =~= Seq::<(Seq<char>, JsonV)>::empty());
        let eth = match as_object(get(network_data, "ethernets")) {
            Some(x) => x,
            None => &empty,
        };
        put_named_interfaces(&mut ifs, eth, false);
        let vl = match as_object(get(network_data, "vlans")) {
            Some(x) => x,
            None => &empty,
        };
        put_named_interfaces(&mut ifs, vl, true);
        ifs
    }

    /// The interfaces that network data describes, by its version.
    pub fn parse_network_data(&self, network_data: &Json) -> (r: Vec<(String, InterfaceConfig)>)
        ensures
            names_distinct(pairs_view(r@)),
            entries_map(pairs_view(r@)) == network_data_model(network_data@),
    {
        if as_u64(get(network_data, "version")) == Some(2u64) {
            self.parse_network_v2(network_data)
        } else {
            self.parse_network_v1(network_data)
        }
    }
}

/// The hostname that instance metadata gives.
pub fn metadata_hostname_of(md: &Json) -> (r: Option<String>)
    ensures
        match metadata_hostname(md@) {
            Some(h) => r is Some && r->0@ == h,
            None => r is None,
        },
{
    match as_str(get(md, "hostname")) {
        Some(h) => Some(h.clone()),
        None => opt_string(as_str(get(md, "name"))),
    }
}

/// The SSH keys that instance metadata gives.
pub fn metadata_ssh_keys_of(md: &Json) -> (r: Vec<String>)
    ensures
        crate::kdl_parser::strings_view(r@) == metadata_ssh_keys(md@),
{
    let mut out: Vec<String> = Vec::new();
    assert(crate::kdl_parser::strings_view(out@) =~= Seq::<Seq<char>>::empty());
    match as_object(get(md, "public_keys")) {
        Some(e) => {
            let ghost ev = entries_view(e@);
            let mut k: usize = 0;
            while k < e.len()
                invariant
                    k <= e@.len(),
                    ev == entries_view(e@),
                    crate::kdl_parser::strings_view(out@) == member_strings(ev.subrange(0, k as int)),
                decreases e.len() - k,
            {
                proof {
                    assert(ev.subrange(0, k as int + 1).drop_last() =~= ev.subrange(0, k as int));
                    assert(ev.subrange(0, k as int + 1).last() == (e@[k as int].0@, e@[k as int].1@));
                }
                match &e[k].1 {
                    Json::Str(s) => {
                        let ghost before = crate::kdl_parser::strings_view(out@);
                        out.push(s.clone());
                        assert(crate::kdl_parser::strings_view(out@) =~= before.push(s@));
                    },
                    _ => {},
                }
                k = k + 1;
            }
            assert(ev.subrange(0, e@.len() as int) =~= ev);
        },
        None => match as_array(get(md, "keys")) {
            Some(items) => {
                let ghost iv = items_view(items@);
                let mut k: usize = 0;
                while k < items.len()
                    invariant
                        k <= items@.len(),
                        iv == items_view(items@),
                        crate::kdl_parser::strings_view(out@) == key_datas(iv.subrange(0, k as int)),
                    decreases items.len() - k,
                {
                    proof {
                        assert(iv.subrange(0, k as int + 1).drop_last() =~= iv.subrange(0, k as int));
                        assert(iv.subrange(0, k as int + 1).last() == items@[k as int]@);
                    }
                    match as_str(get(&items[k], "data")) {
                        Some(s) => {
                            let ghost before = crate::kdl_parser::strings_view(out@);
                            out.push(s.clone());
                            assert(crate::kdl_parser::strings_view(out@) =~= before.push(s@));
                        },
                        None => {},
                    }
                    k = k + 1;
                }
                assert(iv.subrange(0, items@.len() as int) =~= iv);
            },
            None => {},
        },
    }
    out
}

} // verus!

verus! {

/// The configuration that the OpenStack answers describe: the interfaces of the
/// network data where there is any, the user data, and, where there is metadata,
/// its host name and SSH keys and the metadata itself under `openstack-instance`.
pub open spec fn openstack_config(
    metadata: Option<JsonV>,
    network: Option<JsonV>,
    user_data: Option<Seq<char>>,
) -> crate::prov_config::ProvisioningConfigV {
    let base = crate::prov_config::empty_config();
    let with_net = match network {
        Some(n) => crate::prov_config::ProvisioningConfigV { interfaces: network_data_model(n), ..base },
        None => base,
    };
    let c = crate::prov_config::ProvisioningConfigV { user_data: user_data, ..with_net };
    match metadata {
        Some(m) => crate::prov_config::ProvisioningConfigV {
            hostname: metadata_hostname(m),
            ssh_authorized_keys: metadata_ssh_keys(m),
            metadata: c.metadata.insert("openstack-instance"@, m),
            ..c
        },
        None => c,
    }
}

impl OpenStackSource {
    /// The configuration that the meta_data.json and network_data.json texts and
    /// the user data describe, as `openstack_config` says; refused where the
    /// network data, and then where the metadata, is present but not JSON.
    pub fn config_from_texts(
        &self,
        metadata: Option<&str>,
        network: Option<&str>,
        user_data: Option<String>,
    ) -> (r: Result<crate::prov_config::ProvisioningConfig, String>)
        ensures
            match network {
                Some(t) if crate::json_text::json_text_value(t@) is None =>
                    r is Err && r->Err_0@ == "Failed to parse network_data.json"@,
                _ => match metadata {
                    Some(t) if crate::json_text::json_text_value(t@) is None =>
                        r is Err && r->Err_0@ == "Failed to parse meta_data.json"@,
                    _ => r is Ok && r->Ok_0.wf() && r->Ok_0@ == openstack_config(
                        match metadata {
                            Some(t) => crate::json_text::json_text_value(t@),
                            None => None,
                        },
                        match network {
                            Some(t) => crate::json_text::json_text_value(t@),
                            None => None,
                        },
                        crate::kdl_parser::opt_view(user_data),
                    ),
                },
            },
    {
        let net = match network {
            Some(t) => match crate::json_text::parse_json_text(t) {
                Some(n) => Some(n),
                None => {
                    return Err("Failed to parse network_data.json".to_owned());
                },
            },
            None => None,
        };
        let md = match metadata {
            Some(t) => match crate::json_text::parse_json_text(t) {
                Some(m) => Some(m),
                None => {
                    return Err("Failed to parse meta_data.json".to_owned());
                },
            },
            None => None,
        };
        let mut config = crate::prov_config::ProvisioningConfig::new();
        match &net {
            Some(n) => {
                config.interfaces = self.parse_network_data(n);
            },
            None => {},
        }
        config.user_data = user_data;
        match md {
            Some(m) => {
                config.hostname = metadata_hostname_of(&m);
                config.ssh_authorized_keys = metadata_ssh_keys_of(&m);
                config.insert_metadata("openstack-instance".to_owned(), m);
            },
            None => {},
        }
        Ok(config)
    }
}

} // verus!

verus! {

/// A static network of version 1 network data adds to its interface one static
/// address: its IP address with the prefix length that its netmask encodes,
/// its gateway, primary where it is the interface's first address; the
/// interface is otherwise unchanged. In particular the netmask of the prefix
/// length `q` (as `netmask_text` writes it) gives `ip/q`.
pub proof fn law_v1_static_network_uses_its_netmask(i: InterfaceConfigV, net: JsonV, v6: bool, ip: Seq<char>, nm: Seq<char>, q: nat)
    requires
        jstr(jget(net, "type"@)) == Some(if v6 { "ipv6"@ } else { "ipv4"@ }),
        jstr(jget(net, "ip_address"@)) == Some(ip),
        ip.len() > 0,
        jstr(jget(net, "netmask"@)) == Some(nm),
        nm == crate::netutil::netmask_text(q),
        q <= 32,
    ensures
        add_network(i, net) == (InterfaceConfigV {
            addresses: i.addresses.push(
                AddressConfigV {
                    addr_type: AddressType::Static,
                    address: Some(ip + "/"@ + dec_digits(q)),
                    gateway: jstr(jget(net, "gateway"@)),
                    primary: i.addresses.len() == 0,
                },
            ),
            ..i
        }),
{
    crate::netutil::law_netmask_round_trip(q);
    reveal_strlit("ipv4");
    reveal_strlit("ipv6");
    reveal_strlit("ipv4_dhcp");
    reveal_strlit("dhcp4");
    reveal_strlit("ipv6_dhcp");
    reveal_strlit("dhcp6");
    reveal_strlit("ipv6_slaac");
    let t = if v6 { "ipv6"@ } else { "ipv4"@ };
    assert(t.len() == 4);
    assert("ipv4_dhcp"@.len() == 9);
    assert("dhcp4"@.len() == 5);
    assert("ipv6_dhcp"@.len() == 9);
    assert("dhcp6"@.len() == 5);
    assert("ipv6_slaac"@.len() == 10);
    assert("ipv4"@[3] != "ipv6"@[3]);
    assert((t == "ipv6"@) == v6);
}

/// The same for any netmask that reads as a prefix length: the address takes
/// that prefix length.
pub proof fn law_v1_static_network_prefix(i: InterfaceConfigV, net: JsonV, v6: bool, ip: Seq<char>, nm: Seq<char>, q: nat)
    requires
        jstr(jget(net, "type"@)) == Some(if v6 { "ipv6"@ } else { "ipv4"@ }),
        jstr(jget(net, "ip_address"@)) == Some(ip),
        ip.len() > 0,
        jstr(jget(net, "netmask"@)) == Some(nm),
        netmask_to_cidr_spec(nm) == Ok::<nat, crate::netutil::NetErrorKind>(q),
    ensures
        add_network(i, net).addresses == i.addresses.push(
            AddressConfigV {
                addr_type: AddressType::Static,
                address: Some(ip + "/"@ + dec_digits(q)),
                gateway: jstr(jget(net, "gateway"@)),
                primary: i.addresses.len() == 0,
            },
        ),
{
    reveal_strlit("ipv4");
    reveal_strlit("ipv6");
    reveal_strlit("ipv4_dhcp");
    reveal_strlit("dhcp4");
    reveal_strlit("ipv6_dhcp");
    reveal_strlit("dhcp6");
    reveal_strlit("ipv6_slaac");
    let t = if v6 { "ipv6"@ } else { "ipv4"@ };
    assert(t.len() == 4);
    assert("ipv4_dhcp"@.len() == 9);
    assert("dhcp4"@.len() == 5);
    assert("ipv6_dhcp"@.len() == 9);
    assert("dhcp6"@.len() == 5);
    assert("ipv6_slaac"@.len() == 10);
}

} // verus!

verus! {

/// A network is added to the interface of the link it names: with one link
/// (identifier `id`, named `name` where it has a name, else by `id`) and one
/// network naming that link, the interface is the link's with the network added.
pub proof fn law_v1_network_goes_to_its_link(data: JsonV, l: JsonV, net: JsonV, id: Seq<char>)
    requires
        jarr(jget(data, "links"@)) == Some(seq![l]),
        jarr(jget(data, "networks"@)) == Some(seq![net]),
        jstr(jget(l, "id"@)) == Some(id),
        jstr(jget(net, "link"@)) == Some(id),
    ensures
        ({
            let name = match jstr(jget(l, "name"@)) {
                Some(n) => n,
                None => id,
            };
            &&& network_v1_model(data).contains_key(name)
            &&& network_v1_model(data)[name] == add_network(link_interface(l), net)
            &&& network_v1_model(data).dom() == set![name]
        }),
{
    let links = seq![l];
    let nets = seq![net];
    assert(links.drop_last() =~= Seq::<JsonV>::empty());
    assert(nets.drop_last() =~= Seq::<JsonV>::empty());
    let name = match jstr(jget(l, "name"@)) {
        Some(n) => n,
        None => id,
    };
    assert(links_model(links.drop_last()) == (Map::<Seq<char>, InterfaceConfigV>::empty(), Map::<Seq<char>, Seq<char>>::empty()));
    assert(links.last() == l);
    assert(nets.last() == net);
    let (ifs, names) = links_model(links);
    assert(ifs == Map::<Seq<char>, InterfaceConfigV>::empty().insert(name, link_interface(l)));
    assert(names == Map::<Seq<char>, Seq<char>>::empty().insert(id, name));
    assert(networks_model(ifs, names, nets.drop_last()) == ifs);
    assert(names.contains_key(id) && names[id] == name);
    assert(ifs.contains_key(name));
    assert(networks_model(ifs, names, nets) == ifs.insert(name, add_network(ifs[name], net)));
    assert(network_v1_model(data).dom() =~= set![name]);
}

} // verus!

verus! {

/// Whether an address can take the gateway of its family: a static address
/// with a value of that family (IPv6 where it holds a colon) and no gateway yet.
pub open spec fn takes_gateway(x: AddressConfigV, v6: bool) -> bool {
    x.addr_type == AddressType::Static && x.gateway is None && x.address is Some && x.address->0.contains(':') == v6
}

proof fn lemma_no_gateway_slot(a: Seq<AddressConfigV>, v6: bool)
    requires
        forall|j: int| 0 <= j < a.len() ==> !takes_gateway(#[trigger] a[j], v6),
    ensures
        gateway_slot(a, v6) is None,
    decreases a.len(),
{
    if a.len() > 0 {
        lemma_no_gateway_slot(a.drop_last(), v6);
        assert(!takes_gateway(a[a.len() - 1], v6));
    }
}

proof fn lemma_gateway_slot_first(a: Seq<AddressConfigV>, v6: bool, k: int)
    requires
        0 <= k < a.len(),
        takes_gateway(a[k], v6),
        forall|j: int| 0 <= j < k ==> !takes_gateway(#[trigger] a[j], v6),
    ensures
        gateway_slot(a, v6) == Some(k),
    decreases a.len(),
{
    if k == a.len() - 1 {
        assert forall|j: int| 0 <= j < a.drop_last().len() implies !takes_gateway(#[trigger] a.drop_last()[j], v6) by {
            assert(a.drop_last()[j] == a[j]);
        }
        lemma_no_gateway_slot(a.drop_last(), v6);
    } else {
        assert forall|j: int| 0 <= j < k implies !takes_gateway(#[trigger] a.drop_last()[j], v6) by {
            assert(a.drop_last()[j] == a[j]);
        }
        assert(a.drop_last()[k] == a[k]);
        lemma_gateway_slot_first(a.drop_last(), v6, k);
    }
}

/// A version 2 gateway goes to the first static address of its family that has
/// none, and nothing else changes; where no address can take it, nothing
/// changes.
pub proof fn law_gateway_goes_to_first_address_of_its_family(a: Seq<AddressConfigV>, g: Seq<char>, v6: bool, k: int)
    ensures
        (0 <= k < a.len() && takes_gateway(a[k], v6) && (forall|j: int| 0 <= j < k ==> !takes_gateway(#[trigger] a[j], v6)))
            ==> with_gateway(a, Some(g), v6) == a.update(k, AddressConfigV { gateway: Some(g), ..a[k] }),
        (forall|j: int| 0 <= j < a.len() ==> !takes_gateway(#[trigger] a[j], v6)) ==> with_gateway(a, Some(g), v6) == a,
        with_gateway(a, None, v6) == a,
{
    if 0 <= k < a.len() && takes_gateway(a[k], v6) && (forall|j: int| 0 <= j < k ==> !takes_gateway(#[trigger] a[j], v6)) {
        lemma_gateway_slot_first(a, v6, k);
    }
    if forall|j: int| 0 <= j < a.len() ==> !takes_gateway(#[trigger] a[j], v6) {
        lemma_no_gateway_slot(a, v6);
    }
}

/// An ethernet entry of version 2 network data with one IPv4 address and an
/// IPv4 gateway (no DHCP, no IPv6 gateway) gets that address, primary, with
/// that gateway.
pub proof fn law_v2_ethernet_static_address_with_gateway(e: JsonV, description: Seq<char>, set_name_mac: bool, a: Seq<char>, g: Seq<char>)
    requires
        jarr(jget(e, "addresses"@)) == Some(seq![JsonV::Str(a)]),
        !a.contains(':'),
        jbool(jget(e, "dhcp4"@)) != Some(true),
        jbool(jget(e, "dhcp6"@)) != Some(true),
        jstr(jget(e, "gateway4"@)) == Some(g),
        jstr(jget(e, "gateway6"@)) is None,
    ensures
        ethernet_interface_with(e, description, set_name_mac).addresses == seq![
            AddressConfigV { addr_type: AddressType::Static, address: Some(a), gateway: Some(g), primary: true },
        ],
{
    let items = seq![JsonV::Str(a)];
    assert(items.drop_last() =~= Seq::<JsonV>::empty());
    assert(items.last() == JsonV::Str(a));
    assert(static_addresses(items.drop_last()) == Seq::<AddressConfigV>::empty());
    let a0 = static_addresses(items);
    let x = AddressConfigV { addr_type: AddressType::Static, address: Some(a), gateway: None, primary: true };
    assert(a0 =~= seq![x]);
    assert(takes_gateway(x, false));
    lemma_gateway_slot_first(a0, false, 0);
    assert(with_gateway(a0, Some(g), false) =~= seq![AddressConfigV { gateway: Some(g), ..x }]);
}

} // verus!

verus! {

/// A DHCP network of version 1 network data adds a dynamic address of its
/// kind: DHCPv4 (primary where it is the interface's first address), DHCPv6 or
/// SLAAC (never primary); the interface is otherwise unchanged.
pub proof fn law_v1_dynamic_networks(i: InterfaceConfigV, net: JsonV)
    ensures
        (jstr(jget(net, "type"@)) == Some("ipv4_dhcp"@) || jstr(jget(net, "type"@)) == Some("dhcp4"@)) ==> add_network(i, net)
            == (InterfaceConfigV {
            addresses: i.addresses.push(
                AddressConfigV { addr_type: AddressType::Dhcp4, address: None, gateway: None, primary: i.addresses.len() == 0 },
            ),
            ..i
        }),
        (jstr(jget(net, "type"@)) == Some("ipv6_dhcp"@) || jstr(jget(net, "type"@)) == Some("dhcp6"@)) ==> add_network(i, net)
            == (InterfaceConfigV {
            addresses: i.addresses.push(
                AddressConfigV { addr_type: AddressType::Dhcp6, address: None, gateway: None, primary: false },
            ),
            ..i
        }),
        jstr(jget(net, "type"@)) == Some("ipv6_slaac"@) ==> add_network(i, net) == (InterfaceConfigV {
            addresses: i.addresses.push(
                AddressConfigV { addr_type: AddressType::Slaac, address: None, gateway: None, primary: false },
            ),
            ..i
        }),
{
    reveal_strlit("ipv4_dhcp");
    reveal_strlit("dhcp4");
    reveal_strlit("ipv6_dhcp");
    reveal_strlit("dhcp6");
    reveal_strlit("ipv6_slaac");
    assert("ipv4_dhcp"@[3] != "ipv6_dhcp"@[3]);
    assert("dhcp4"@[4] != "dhcp6"@[4]);
    assert("ipv6_slaac"@.len() == 10 && "ipv6_dhcp"@.len() == 9 && "ipv4_dhcp"@.len() == 9 && "dhcp4"@.len() == 5);
}

/// A link of version 1 network data gives an interface with its MAC address
/// (normalised), MTU, VLAN identifier and parent, enabled, with no address yet.
pub proof fn law_v1_link_interface(l: JsonV, mac: Seq<char>, mtu: u32)
    requires
        jstr(jget(l, "ethernet_mac_address"@)) == Some(mac),
        ju64(jget(l, "mtu"@)) == Some(mtu as u64),
    ensures
        link_interface(l).mac_address == Some(normal_mac(mac)),
        link_interface(l).mtu == Some(mtu),
        link_interface(l).parent == jstr(jget(l, "vlan_link"@)),
        link_interface(l).enabled,
        link_interface(l).addresses.len() == 0,
{
}

} // verus!
