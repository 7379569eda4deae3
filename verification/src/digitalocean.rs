//! Reading DigitalOcean droplet metadata: network interfaces and the
//! configuration that the metadata gives.
use vstd::prelude::*;
use crate::json::{items_view, Json, JsonV};
use crate::json_access::{as_array, as_str, as_u64, get, get_in, jarr, jget, jget_in, jstr, ju64, opt_view};
use crate::keyed::{entries_map, names_distinct, pairs_view, put_entry};
use crate::kdl_parser::strings_view;
use crate::netutil::normalize_mac_address;
use crate::openstack::{addrs_view, dynamic, dynamic_address, opt_mac, opt_string};
use crate::prov_config::{
    empty_config, AddressConfig, AddressConfigV, AddressType, InterfaceConfig, InterfaceConfigV, ProvisioningConfig,
    ProvisioningConfigV,
};
use crate::smartos::{address_text, prefix_of, prefix_or_24};
use crate::sources::DigitalOceanSource;
use crate::text::{append_chars, chars_of, dec_digits, string_from_chars, u128_to_dec};

verus! {

/// The static IPv4 address that an `ipv4` or `anchor_ipv4` object gives: its
/// address with the prefix of its netmask (255.255.255.0 where none is given).
pub open spec fn v4_address(o: Option<JsonV>, with_gateway: bool, primary: bool) -> Seq<AddressConfigV> {
    match jstr(jget_in(o, "ip_address"@)) {
        Some(ip) => {
            let nm = match jstr(jget_in(o, "netmask"@)) {
                Some(m) => m,
                None => "255.255.255.0"@,
            };
            seq![
                AddressConfigV {
                    addr_type: AddressType::Static,
                    address: Some(ip + "/"@ + dec_digits(prefix_or_24(nm))),
                    gateway: if with_gateway {
                        jstr(jget_in(o, "gateway"@))
                    } else {
                        None
                    },
                    primary,
                },
            ]
        },
        None => Seq::empty(),
    }
}

/// The static IPv6 address that an `ipv6` object gives, with its `cidr` (64
/// where none is given).
pub open spec fn v6_address(o: Option<JsonV>) -> Seq<AddressConfigV> {
    match jstr(jget_in(o, "ip_address"@)) {
        Some(ip) => {
            let c: u64 = match ju64(jget_in(o, "cidr"@)) {
                Some(n) => n,
                None => 64,
            };
            seq![
                AddressConfigV {
                    addr_type: AddressType::Static,
                    address: Some(ip + "/"@ + dec_digits((c as u8) as nat)),
                    gateway: jstr(jget_in(o, "gateway"@)),
                    primary: false,
                },
            ]
        },
        None => Seq::empty(),
    }
}

/// The interface that an interface object describes: its IPv4, IPv6 and anchor
/// IPv4 addresses, and DHCP where it has none.
pub open spec fn do_interface(iface: JsonV, description: Option<Seq<char>>) -> InterfaceConfigV {
    let a = v4_address(jget(iface, "ipv4"@), true, true) + v6_address(jget(iface, "ipv6"@)) + v4_address(
        jget(iface, "anchor_ipv4"@),
        false,
        false,
    );
    InterfaceConfigV {
        mac_address: opt_mac(jstr(jget(iface, "mac"@))),
        mtu: None,
        addresses: if a.len() == 0 {
            seq![dynamic_address(AddressType::Dhcp4, true)]
        } else {
            a
        },
        enabled: true,
        description,
        vlan_id: None,
        parent: None,
    }
}

/// The interfaces after those of a list are added, named `eth` and their
/// position after `offset`.
pub open spec fn numbered(
    m: Map<Seq<char>, InterfaceConfigV>,
    items: Seq<JsonV>,
    offset: nat,
    description: Option<Seq<char>>,
) -> Map<Seq<char>, InterfaceConfigV>
    decreases items.len(),
{
    if items.len() == 0 {
        m
    } else {
        numbered(m, items.drop_last(), offset, description).insert(
            "eth"@ + dec_digits((offset + items.len() - 1) as nat),
            do_interface(items.last(), description),
        )
    }
}

/// The number of items of a list, 0 where there is none.
pub open spec fn list_len(o: Option<Seq<JsonV>>) -> nat {
    match o {
        Some(v) => v.len(),
        None => 0,
    }
}

/// The interfaces that droplet metadata describes: the public interfaces, then
/// the private ones numbered after them; where there are neither, the legacy
/// list of interfaces.
pub open spec fn do_network(md: JsonV) -> Map<Seq<char>, InterfaceConfigV> {
    match jget(md, "interfaces"@) {
        None => Map::empty(),
        Some(ifs) => {
            let pubs = jarr(jget(ifs, "public"@));
            let privs = jarr(jget(ifs, "private"@));
            if list_len(pubs) + list_len(privs) > 0 {
                let m = match pubs {
                    Some(p) => numbered(Map::empty(), p, 0, Some("DigitalOcean public interface"@)),
                    None => Map::empty(),
                };
                match privs {
                    Some(q) => numbered(m, q, list_len(pubs), Some("DigitalOcean private interface"@)),
                    None => m,
                }
            } else {
                match ifs {
                    JsonV::Array(items) => numbered(Map::empty(), items, 0, None),
                    _ => Map::empty(),
                }
            }
        },
    }
}

/// The strings of a list, in order, the other items left out.
pub open spec fn list_strings(items: Seq<JsonV>) -> Seq<Seq<char>>
    decreases items.len(),
{
    if items.len() == 0 {
        Seq::empty()
    } else {
        match items.last() {
            JsonV::Str(s) => list_strings(items.drop_last()).push(s),
            _ => list_strings(items.drop_last()),
        }
    }
}

/// The configuration that droplet metadata gives: its host name, interfaces and
/// public keys, and the metadata itself under `digitalocean-droplet`.
pub open spec fn do_config(md: JsonV) -> ProvisioningConfigV {
    ProvisioningConfigV {
        hostname: jstr(jget(md, "hostname"@)),
        interfaces: do_network(md),
        ssh_authorized_keys: match jarr(jget(md, "public_keys"@)) {
            Some(items) => list_strings(items),
            None => Seq::empty(),
        },
        metadata: Map::empty().insert("digitalocean-droplet"@, md),
        ..empty_config()
    }
}


fn v4_address_of(o: Option<&Json>, with_gateway: bool, primary: bool, addrs: &mut Vec<AddressConfig>)
    ensures
        addrs_view(final(addrs)@) == addrs_view(old(addrs)@) + v4_address(opt_view(o), with_gateway, primary),
{
    let ghost a0 = addrs_view(addrs@);
    match as_str(get_in(o, "ip_address")) {
        Some(ip) => {
            let nm: &str = match as_str(get_in(o, "netmask")) {
                Some(m) => m.as_str(),
                None => "255.255.255.0",
            };
            let p = prefix_of(nm);
            let a = AddressConfig {
                addr_type: AddressType::Static,
                address: Some(address_text(ip.as_str(), p as u64)),
                gateway: if with_gateway {
                    opt_string(as_str(get_in(o, "gateway")))
                } else {
                    None
                },
                primary,
            };
            addrs.push(a);
            assert(addrs_view(addrs@) =~= a0.push(a@));
        },
        None => {
            assert(addrs_view(addrs@) =~= a0 + Seq::<AddressConfigV>::empty());
        },
    }
}

fn v6_address_of(o: Option<&Json>, addrs: &mut Vec<AddressConfig>)
    ensures
        addrs_view(final(addrs)@) == addrs_view(old(addrs)@) + v6_address(opt_view(o)),
{
    let ghost a0 = addrs_view(addrs@);
    match as_str(get_in(o, "ip_address")) {
        Some(ip) => {
            let c: u64 = match as_u64(get_in(o, "cidr")) {
                Some(n) => n,
                None => 64,
            };
            let q: u8 = c as u8;
            let a = AddressConfig {
                addr_type: AddressType::Static,
                address: Some(address_text(ip.as_str(), q as u64)),
                gateway: opt_string(as_str(get_in(o, "gateway"))),
                primary: false,
            };
            addrs.push(a);
            assert(addrs_view(addrs@) =~= a0.push(a@));
        },
        None => {
            assert(addrs_view(addrs@) =~= a0 + Seq::<AddressConfigV>::empty());
        },
    }
}

fn put_numbered(
    ifs: &mut Vec<(String, InterfaceConfig)>,
    items: &Vec<Json>,
    offset: usize,
    description: Option<&str>,
)
    requires
        names_distinct(pairs_view(old(ifs)@)),
    ensures
        names_distinct(pairs_view(final(ifs)@)),
        entries_map(pairs_view(final(ifs)@)) == numbered(
            entries_map(pairs_view(old(ifs)@)),
            items_view(items@),
            offset as nat,
            crate::text::opt_str(description),
        ),
{
    let ghost m0 = entries_map(pairs_view(ifs@));
    let ghost iv = items_view(items@);
    let mut k: usize = 0;
    while k < items.len()
        invariant
            k <= items@.len(),
            iv == items_view(items@),
            names_distinct(pairs_view(ifs@)),
            entries_map(pairs_view(ifs@)) == numbered(m0, iv.subrange(0, k as int), offset as nat, crate::text::opt_str(description)),
        decreases items.len() - k,
    {
        proof {
            assert(iv.subrange(0, k as int + 1).drop_last() =~= iv.subrange(0, k as int));
            assert(iv.subrange(0, k as int + 1).last() == items@[k as int]@);
        }
        let mut name = chars_of("eth");
        append_chars(&mut name, &u128_to_dec((offset as u128) + (k as u128)));
        let d = match description {
            Some(t) => Some(t.to_owned()),
            None => None,
        };
        let iface = DigitalOceanSource::parse_interface(&items[k], d);
        put_entry(ifs, string_from_chars(&name), iface);
        k = k + 1;
    }
    assert(iv.subrange(0, items@.len() as int) =~= iv);
}

impl DigitalOceanSource {
    /// The interface that an interface object describes, with the given
    /// description; as `do_interface` says.
    pub fn parse_interface(iface: &Json, description: Option<String>) -> (r: InterfaceConfig)
        ensures
            r@ == do_interface(iface@, crate::kdl_parser::opt_view(description)),
    {
        let mut addrs: Vec<AddressConfig> = Vec::new();
        assert(addrs_view(addrs@) =~= Seq::<AddressConfigV>::empty());
        v4_address_of(get(iface, "ipv4"), true, true, &mut addrs);
        v6_address_of(get(iface, "ipv6"), &mut addrs);
        v4_address_of(get(iface, "anchor_ipv4"), false, false, &mut addrs);
        if addrs.len() == 0 {
            let x = dynamic(AddressType::Dhcp4, true);
            addrs.push(x);
            assert(addrs_view(addrs@) =~= seq![x@]);
        }
        let r = InterfaceConfig {
            mac_address: match as_str(get(iface, "mac")) {
                Some(m) => Some(normalize_mac_address(m.as_str())),
                None => None,
            },
            mtu: None,
            addresses: addrs,
            enabled: true,
            description,
            vlan_id: None,
            parent: None,
        };
        assert(r@.addresses =~= addrs_view(r.addresses@));
        r
    }

    /// The interfaces that droplet metadata describes, as `do_network` says.
    pub fn parse_network_config(&self, metadata: &Json) -> (r: Vec<(String, InterfaceConfig)>)
        ensures
            names_distinct(pairs_view(r@)),
            entries_map(pairs_view(r@)) == do_network(metadata@),
    {
        let mut ifs: Vec<(String, InterfaceConfig)> = Vec::new();
        assert(pairs_view(ifs@) =~= Seq::<(Seq<char>, InterfaceConfigV)>::empty());
        match get(metadata, "interfaces") {
            None => {},
            Some(x) => {
                let pubs = as_array(get(x, "public"));
                let privs = as_array(get(x, "private"));
                let np: usize = match pubs {
                    Some(p) => p.len(),
                    None => 0,
                };
                let nq: usize = match privs {
                    Some(q) => q.len(),
                    None => 0,
                };
                assert(np as nat == list_len(jarr(jget(x@, "public"@))));
                assert(nq as nat == list_len(jarr(jget(x@, "private"@))));
                if np > 0 || nq > 0 {
                    match pubs {
                        Some(p) => put_numbered(&mut ifs, p, 0, Some("DigitalOcean public interface")),
                        None => {},
                    }
                    match privs {
                        Some(q) => put_numbered(&mut ifs, q, np, Some("DigitalOcean private interface")),
                        None => {},
                    }
                } else {
                    match x {
                        Json::Array(items) => {
                            proof {
                                crate::json::lemma_array_view(*items);
                            }
                            put_numbered(&mut ifs, items, 0, None);
                        },
                        _ => {},
                    }
                }
            },
        }
        ifs
    }
    /// The configuration that droplet metadata gives, as `do_config` says; the
    /// user data is read separately.
    pub fn config_from_metadata(&self, metadata: Json) -> (r: ProvisioningConfig)
        ensures
            r.wf(),
            r@ == do_config(metadata@),
    {
        let mut c = ProvisioningConfig::new();
        c.hostname = opt_string(as_str(get(&metadata, "hostname")));
        c.interfaces = self.parse_network_config(&metadata);
        match as_array(get(&metadata, "public_keys")) {
            Some(items) => {
                let ghost iv = items_view(items@);
                let mut keys: Vec<String> = Vec::new();
                let mut k: usize = 0;
                assert(strings_view(keys@) =~= list_strings(iv.subrange(0, 0)));
                while k < items.len()
                    invariant
                        k <= items@.len(),
                        iv == items_view(items@),
                        strings_view(keys@) == list_strings(iv.subrange(0, k as int)),
                    decreases items.len() - k,
                {
                    proof {
                        assert(iv.subrange(0, k as int + 1).drop_last() =~= iv.subrange(0, k as int));
                        assert(iv.subrange(0, k as int + 1).last() == items@[k as int]@);
                    }
                    match &items[k] {
                        Json::Str(t) => {
                            let ghost before = strings_view(keys@);
                            keys.push(t.clone());
                            assert(strings_view(keys@) =~= before.push(t@));
                        },
                        _ => {},
                    }
                    k = k + 1;
                }
                assert(iv.subrange(0, items@.len() as int) =~= iv);
                c.ssh_authorized_keys = keys;
            },
            None => {},
        }
        let ghost md = metadata@;
        c.insert_metadata("digitalocean-droplet".to_owned(), metadata);
        assert(c@.metadata =~= Map::<Seq<char>, JsonV>::empty().insert("digitalocean-droplet"@, md));
        assert(c@.ssh_authorized_keys =~= match jarr(jget(md, "public_keys"@)) {
            Some(items) => list_strings(items),
            None => Seq::empty(),
        });
        c
    }
}


/// Every DigitalOcean interface has at least one address: DHCP where none is
/// given.
pub proof fn law_do_interface_has_an_address(iface: JsonV, description: Option<Seq<char>>)
    ensures
        do_interface(iface, description).addresses.len() > 0,
{
}
} // verus!

verus! {

impl DigitalOceanSource {
    /// The configuration that the metadata text describes, as
    /// `config_from_metadata` reads it; refused where the text is not JSON.
    pub fn config_from_metadata_text(&self, text: &str) -> (r: Result<crate::prov_config::ProvisioningConfig, String>)
        ensures
            match crate::json_text::json_text_value(text@) {
                Some(m) => r is Ok && r->Ok_0.wf() && r->Ok_0@ == do_config(m),
                None => r is Err && r->Err_0@ == "Failed to parse meta_data.json"@,
            },
    {
        match crate::json_text::parse_json_text(text) {
            Some(m) => Ok(self.config_from_metadata(m)),
            None => Err("Failed to parse meta_data.json".to_owned()),
        }
    }
}

} // verus!

verus! {

/// An interface object whose `ipv4` has an address gets, as its first address,
/// a static address of it with the prefix length its netmask encodes and its
/// gateway, primary.
pub proof fn law_do_interface_address(iface: JsonV, description: Option<Seq<char>>, ip: Seq<char>, nm: Seq<char>, q: nat)
    requires
        jstr(jget_in(jget(iface, "ipv4"@), "ip_address"@)) == Some(ip),
        jstr(jget_in(jget(iface, "ipv4"@), "netmask"@)) == Some(nm),
        crate::netutil::netmask_to_cidr_spec(nm) == Ok::<nat, crate::netutil::NetErrorKind>(q),
    ensures
        do_interface(iface, description).addresses.len() >= 1,
        do_interface(iface, description).addresses[0] == (AddressConfigV {
            addr_type: AddressType::Static,
            address: Some(ip + "/"@ + dec_digits(q)),
            gateway: jstr(jget_in(jget(iface, "ipv4"@), "gateway"@)),
            primary: true,
        }),
{
    let a = v4_address(jget(iface, "ipv4"@), true, true);
    let b = v6_address(jget(iface, "ipv6"@));
    let c = v4_address(jget(iface, "anchor_ipv4"@), false, false);
    assert((a + b + c)[0] == a[0]);
}

/// An `ipv6` object with an address gives a static address with its `cidr`
/// prefix length and its gateway.
pub proof fn law_do_v6_address(o: Option<JsonV>, ip: Seq<char>, c: u8)
    requires
        jstr(jget_in(o, "ip_address"@)) == Some(ip),
        ju64(jget_in(o, "cidr"@)) == Some(c as u64),
    ensures
        v6_address(o) == seq![
            AddressConfigV {
                addr_type: AddressType::Static,
                address: Some(ip + "/"@ + dec_digits(c as nat)),
                gateway: jstr(jget_in(o, "gateway"@)),
                primary: false,
            },
        ],
{
}

} // verus!
