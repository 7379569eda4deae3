//! Reading the answers of the GCP metadata service: host name, network
//! interfaces, SSH keys and instance metadata.
use vstd::prelude::*;
use crate::json::{items_view, Json, JsonV};
use crate::json_access::{as_array, as_str, as_u64, get, jarr, jget, jstr, ju64};
use crate::keyed::{entries_map, names_distinct, pairs_view, put_entry};
use crate::kdl_parser::strings_view;
use crate::meta_text::{last_segment, last_segment_of, short_hostname, short_hostname_of};
use crate::netutil::normalize_mac_address;
use crate::openstack::{addrs_view, dynamic, dynamic_address, opt_mac, opt_string, opt_u32};
use crate::prov_config::{AddressConfig, AddressConfigV, AddressType, InterfaceConfig, InterfaceConfigV};
use crate::smartos::{address_text, prefix_of, prefix_or_24};
use crate::sources::GCPSource;
use crate::text::{
    append_chars, chars_of, dec_digits, find_char, first_index, has_prefix, last_index, lemma_first_index_bounds,
    lemma_last_index_bounds, lines_of, opt_str, rfind_char, slice_chars, starts_with_chars, str_lines, string_from_chars, trim,
    trim_chars, u64_to_dec, views_of,
};

verus! {

/// What `serde_json::from_str::<Vec<String>>` gives for a text: the strings of a
/// JSON array of strings, or nothing where the text is not one.
pub uninterp spec fn json_string_list(text: Seq<char>) -> Option<Seq<Seq<char>>>;

/// Reads a JSON array of strings with `serde_json::from_str::<Vec<String>>`; the
/// result is named by `json_string_list`, and nothing more is claimed of it.
#[verifier::external_body]
pub(crate) fn parse_string_list(text: &str) -> (r: Option<Vec<String>>)
    ensures
        match json_string_list(text@) {
            Some(v) => r is Some && strings_view(r->0@) == v,
            None => r is None,
        },
{
    serde_json::from_str::<Vec<String>>(text).ok()
}

/// The prefix length that an interface's `subnetmask` gives, 24 where it gives none.
pub open spec fn subnet_prefix(d: JsonV) -> nat {
    match jstr(jget(d, "subnetmask"@)) {
        Some(m) => prefix_or_24(m),
        None => 24,
    }
}

/// The addresses of an interface's alias IP ranges, in order.
pub open spec fn alias_addresses(items: Seq<JsonV>) -> Seq<AddressConfigV>
    decreases items.len(),
{
    if items.len() == 0 {
        Seq::empty()
    } else {
        match items.last() {
            JsonV::Str(r) => alias_addresses(items.drop_last()).push(
                AddressConfigV { addr_type: AddressType::Static, address: Some(r), gateway: None, primary: false },
            ),
            _ => alias_addresses(items.drop_last()),
        }
    }
}

/// The interface that an entry of the network-interfaces list describes: its
/// address with the prefix of its subnet mask, its alias ranges, and DHCP where
/// it has neither.
pub open spec fn gcp_interface(d: JsonV) -> InterfaceConfigV {
    let a0: Seq<AddressConfigV> = match jstr(jget(d, "ip"@)) {
        Some(ip) => seq![
            AddressConfigV {
                addr_type: AddressType::Static,
                address: Some(ip + "/"@ + dec_digits(subnet_prefix(d))),
                gateway: jstr(jget(d, "gateway"@)),
                primary: true,
            },
        ],
        None => Seq::empty(),
    };
    let a1 = match jarr(jget(d, "ipAliases"@)) {
        Some(items) => a0 + alias_addresses(items),
        None => a0,
    };
    InterfaceConfigV {
        mac_address: opt_mac(jstr(jget(d, "mac"@))),
        mtu: opt_u32(ju64(jget(d, "mtu"@))),
        addresses: if a1.len() == 0 {
            seq![dynamic_address(AddressType::Dhcp4, true)]
        } else {
            a1
        },
        enabled: true,
        description: Some("GCP network interface"@),
        vlan_id: None,
        parent: None,
    }
}

/// The interfaces of the network-interfaces list, named `eth` and their position.
pub open spec fn gcp_interfaces(items: Seq<JsonV>) -> Map<Seq<char>, InterfaceConfigV>
    decreases items.len(),
{
    if items.len() == 0 {
        Map::empty()
    } else {
        gcp_interfaces(items.drop_last()).insert("eth"@ + dec_digits((items.len() - 1) as nat), gcp_interface(items.last()))
    }
}

/// The interfaces that the answer describes: none where it is not a list.
pub open spec fn gcp_network(v: JsonV) -> Map<Seq<char>, InterfaceConfigV> {
    match v {
        JsonV::Array(items) => gcp_interfaces(items),
        _ => Map::empty(),
    }
}

/// The key of a `user:key` line of the ssh-keys attribute: the trimmed text
/// after the first colon.
pub open spec fn key_after_colon(line: Seq<char>) -> Option<Seq<char>> {
    match first_index(line, ':') {
        Some(i) => Some(trim(line.subrange(i + 1, line.len() as int))),
        None => None,
    }
}

/// Whether a key is of one of the accepted types.
pub open spec fn accepted_key(k: Seq<char>) -> bool {
    has_prefix(k, "ssh-rsa"@) || has_prefix(k, "ssh-ed25519"@) || has_prefix(k, "ssh-ecdsa"@)
}

/// The keys of the project's ssh-keys attribute, line after line.
pub open spec fn project_keys(lines: Seq<Seq<char>>) -> Seq<Seq<char>>
    decreases lines.len(),
{
    if lines.len() == 0 {
        Seq::empty()
    } else {
        let ks = project_keys(lines.drop_last());
        match key_after_colon(lines.last()) {
            Some(k) => if k.len() > 0 && accepted_key(k) {
                ks.push(k)
            } else {
                ks
            },
            None => ks,
        }
    }
}

/// The keys after those of the instance's ssh-keys attribute are added, each
/// that is not already there.
pub open spec fn add_instance_keys(keys: Seq<Seq<char>>, lines: Seq<Seq<char>>) -> Seq<Seq<char>>
    decreases lines.len(),
{
    if lines.len() == 0 {
        keys
    } else {
        let ks = add_instance_keys(keys, lines.drop_last());
        match key_after_colon(lines.last()) {
            Some(k) => if k.len() > 0 && !ks.contains(k) && accepted_key(k) {
                ks.push(k)
            } else {
                ks
            },
            None => ks,
        }
    }
}

/// The SSH keys of the project's and the instance's ssh-keys attributes, each
/// where it could be read.
pub open spec fn gcp_ssh_keys(project: Option<Seq<char>>, instance: Option<Seq<char>>) -> Seq<Seq<char>> {
    let p = match project {
        Some(t) => project_keys(str_lines(t)),
        None => Seq::empty(),
    };
    match instance {
        Some(t) => add_instance_keys(p, str_lines(t)),
        None => p,
    }
}

/// The metadata map after `key` is set to a text, where the text is given.
pub open spec fn put_text(m: Map<Seq<char>, JsonV>, key: Seq<char>, v: Option<Seq<char>>) -> Map<Seq<char>, JsonV> {
    match v {
        Some(t) => m.insert(key, JsonV::Str(t)),
        None => m,
    }
}

/// The trimmed text, where there is one.
pub open spec fn opt_trim(v: Option<Seq<char>>) -> Option<Seq<char>> {
    match v {
        Some(t) => Some(trim(t)),
        None => None,
    }
}

/// The last path segment of a trimmed answer, where there is one.
pub open spec fn opt_tail(v: Option<Seq<char>>) -> Option<Seq<char>> {
    match v {
        Some(t) => Some(last_segment(trim(t), '/')),
        None => None,
    }
}

/// The region of a zone: the zone up to its last dash.
pub open spec fn zone_region(zone: Seq<char>) -> Option<Seq<char>> {
    match last_index(zone, '-') {
        Some(i) => Some(zone.subrange(0, i)),
        None => None,
    }
}

/// The instance metadata that the answers give, each where it could be read:
/// trimmed identifiers, the last path segment of the machine type and of the
/// zone, the region of the zone, the tags, the service accounts and the custom
/// attributes.
pub open spec fn gcp_metadata(
    id: Option<Seq<char>>,
    name: Option<Seq<char>>,
    machine_type: Option<Seq<char>>,
    zone: Option<Seq<char>>,
    project_id: Option<Seq<char>>,
    tags: Option<Seq<Seq<char>>>,
    service_accounts: Option<JsonV>,
    attributes: Option<JsonV>,
) -> Map<Seq<char>, JsonV> {
    let m1 = put_text(Map::empty(), "instance-id"@, opt_trim(id));
    let m2 = put_text(m1, "instance-name"@, opt_trim(name));
    let m3 = put_text(m2, "machine-type"@, opt_tail(machine_type));
    let m4 = match opt_tail(zone) {
        Some(z) => put_text(m3.insert("zone"@, JsonV::Str(z)), "region"@, zone_region(z)),
        None => m3,
    };
    let m5 = put_text(m4, "project-id"@, opt_trim(project_id));
    let m6 = match tags {
        Some(t) => m5.insert("tags"@, JsonV::Array(Seq::new(t.len(), |i: int| JsonV::Str(t[i])))),
        None => m5,
    };
    let m7 = match service_accounts {
        Some(v) => m6.insert("service-accounts"@, v),
        None => m6,
    };
    match attributes {
        Some(v) => m7.insert("attributes"@, v),
        None => m7,
    }
}


fn interface_of(d: &Json) -> (r: InterfaceConfig)
    ensures
        r@ == gcp_interface(d@),
{
    let mut addrs: Vec<AddressConfig> = Vec::new();
    match as_str(get(d, "ip")) {
        Some(ip) => {
            let p: u8 = match as_str(get(d, "subnetmask")) {
                Some(m) => prefix_of(m.as_str()),
                None => 24,
            };
            let a = AddressConfig {
                addr_type: AddressType::Static,
                address: Some(address_text(ip.as_str(), p as u64)),
                gateway: opt_string(as_str(get(d, "gateway"))),
                primary: true,
            };
            addrs.push(a);
            assert(addrs_view(addrs@) =~= seq![a@]);
        },
        None => {
            assert(addrs_view(addrs@) =~= Seq::<AddressConfigV>::empty());
        },
    }
    let ghost a0 = addrs_view(addrs@);
    match as_array(get(d, "ipAliases")) {
        Some(items) => {
            let ghost iv = items_view(items@);
            let mut k: usize = 0;
            while k < items.len()
                invariant
                    k <= items@.len(),
                    iv == items_view(items@),
                    addrs_view(addrs@) == a0 + alias_addresses(iv.subrange(0, k as int)),
                decreases items.len() - k,
            {
                proof {
                    assert(iv.subrange(0, k as int + 1).drop_last() =~= iv.subrange(0, k as int));
                    assert(iv.subrange(0, k as int + 1).last() == items@[k as int]@);
                }
                match &items[k] {
                    Json::Str(r) => {
                        let a = AddressConfig { addr_type: AddressType::Static, address: Some(r.clone()), gateway: None, primary: false };
                        let ghost before = addrs_view(addrs@);
                        addrs.push(a);
                        assert(addrs_view(addrs@) =~= before.push(a@));
                        assert(a0 + alias_addresses(iv.subrange(0, k as int + 1)) =~= (a0 + alias_addresses(iv.subrange(0, k as int))).push(a@));
                    },
                    _ => {},
                }
                k = k + 1;
            }
            assert(iv.subrange(0, items@.len() as int) =~= iv);
        },
        None => {
            assert(a0 =~= a0 + Seq::<AddressConfigV>::empty());
        },
    }
    if addrs.len() == 0 {
        let x = dynamic(AddressType::Dhcp4, true);
        addrs.push(x);
        assert(addrs_view(addrs@) =~= seq![x@]);
    }
    let r = InterfaceConfig {
        mac_address: match as_str(get(d, "mac")) {
            Some(m) => Some(normalize_mac_address(m.as_str())),
            None => None,
        },
        mtu: match as_u64(get(d, "mtu")) {
            Some(m) => Some(m as u32),
            None => None,
        },
        addresses: addrs,
        enabled: true,
        description: Some("GCP network interface".to_owned()),
        vlan_id: None,
        parent: None,
    };
    assert(r@.addresses =~= addrs_view(r.addresses@));
    r
}

fn key_after_colon_of(line: &Vec<char>) -> (r: Option<Vec<char>>)
    ensures
        match key_after_colon(line@) {
            Some(k) => r is Some && r->0@ == k,
            None => r is None,
        },
{
    proof {
        lemma_first_index_bounds(line@, ':');
    }
    match find_char(line, ':') {
        Some(i) => {
            assert(i < line.len());
            Some(trim_chars(&slice_chars(line, i + 1, line.len())))
        },
        None => None,
    }
}

fn accepted_key_of(k: &Vec<char>) -> (r: bool)
    ensures
        r == accepted_key(k@),
{
    starts_with_chars(k, &chars_of("ssh-rsa")) || starts_with_chars(k, &chars_of("ssh-ed25519")) || starts_with_chars(
        k,
        &chars_of("ssh-ecdsa"),
    )
}

pub(crate) fn put_text_entry(m: &mut Vec<(String, Json)>, key: &str, v: Option<Vec<char>>)
    requires
        names_distinct(pairs_view(old(m)@)),
    ensures
        names_distinct(pairs_view(final(m)@)),
        entries_map(pairs_view(final(m)@)) == put_text(
            entries_map(pairs_view(old(m)@)),
            key@,
            match v {
                Some(t) => Some(t@),
                None => None,
            },
        ),
{
    match v {
        Some(t) => {
            put_entry(m, key.to_owned(), Json::Str(string_from_chars(&t)));
        },
        None => {},
    }
}

pub(crate) fn trimmed(v: Option<&str>) -> (r: Option<Vec<char>>)
    ensures
        match v {
            Some(t) => r is Some && r->0@ == trim(t@),
            None => r is None,
        },
{
    match v {
        Some(t) => Some(trim_chars(&chars_of(t))),
        None => None,
    }
}

fn tail_of(v: Option<&str>) -> (r: Option<Vec<char>>)
    ensures
        match opt_tail(opt_str(v)) {
            Some(x) => r is Some && r->0@ == x,
            None => r is None,
        },
{
    match v {
        Some(t) => Some(last_segment_of(&trim_chars(&chars_of(t)), '/')),
        None => None,
    }
}

impl GCPSource {
    /// The host name in the answer for the instance's host name, as
    /// `short_hostname` says.
    pub fn hostname_from(text: &str) -> (r: String)
        ensures
            r@ == short_hostname(text@),
    {
        short_hostname_of(text)
    }

    /// The interfaces that the network-interfaces answer describes.
    pub fn parse_network_interfaces(&self, interfaces: &Json) -> (r: Vec<(String, InterfaceConfig)>)
        ensures
            names_distinct(pairs_view(r@)),
            entries_map(pairs_view(r@)) == gcp_network(interfaces@),
    {
        let mut ifs: Vec<(String, InterfaceConfig)> = Vec::new();
        assert(pairs_view(ifs@) =~= Seq::<(Seq<char>, InterfaceConfigV)>::empty());
        match interfaces {
            Json::Array(items) => {
                proof {
                    crate::json::lemma_array_view(*items);
                }
                let ghost iv = items_view(items@);
                let mut k: usize = 0;
                while k < items.len()
                    invariant
                        k <= items@.len(),
                        iv == items_view(items@),
                        names_distinct(pairs_view(ifs@)),
                        entries_map(pairs_view(ifs@)) == gcp_interfaces(iv.subrange(0, k as int)),
                    decreases items.len() - k,
                {
                    proof {
                        assert(iv.subrange(0, k as int + 1).drop_last() =~= iv.subrange(0, k as int));
                        assert(iv.subrange(0, k as int + 1).last() == items@[k as int]@);
                    }
                    let mut name = chars_of("eth");
                    append_chars(&mut name, &u64_to_dec(k as u64));
                    let iface = interface_of(&items[k]);
                    put_entry(&mut ifs, string_from_chars(&name), iface);
                    k = k + 1;
                }
                assert(iv.subrange(0, items@.len() as int) =~= iv);
            },
            _ => {},
        }
        ifs
    }

    /// The SSH keys of the project's and the instance's ssh-keys attributes,
    /// each where it could be read, as `gcp_ssh_keys` says.
    pub fn ssh_keys_from(project: Option<&str>, instance: Option<&str>) -> (r: Vec<String>)
        ensures
            strings_view(r@) == gcp_ssh_keys(
                opt_str(project),
                opt_str(instance),
            ),
    {
        let mut keys: Vec<String> = Vec::new();
        match project {
            Some(t) => {
                let lines = lines_of(&chars_of(t));
                let ghost lv = views_of(lines@);
                let mut i: usize = 0;
                assert(strings_view(keys@) =~= project_keys(lv.subrange(0, 0)));
                while i < lines.len()
                    invariant
                        i <= lines@.len(),
                        lv == views_of(lines@),
                        strings_view(keys@) == project_keys(lv.subrange(0, i as int)),
                    decreases lines.len() - i,
                {
                    proof {
                        assert(lv.subrange(0, i as int + 1).drop_last() =~= lv.subrange(0, i as int));
                        assert(lv.subrange(0, i as int + 1).last() == lines@[i as int]@);
                    }
                    match key_after_colon_of(&lines[i]) {
                        Some(k) => {
                            if k.len() > 0 && accepted_key_of(&k) {
                                let ghost before = strings_view(keys@);
                                keys.push(string_from_chars(&k));
                                assert(strings_view(keys@) =~= before.push(k@));
                            }
                        },
                        None => {},
                    }
                    i = i + 1;
                }
                assert(lv.subrange(0, lines@.len() as int) =~= lv);
            },
            None => {
                assert(strings_view(keys@) =~= Seq::<Seq<char>>::empty());
            },
        }
        let ghost p = strings_view(keys@);
        match instance {
            Some(t) => {
                let lines = lines_of(&chars_of(t));
                let ghost lv = views_of(lines@);
                let mut i: usize = 0;
                while i < lines.len()
                    invariant
                        i <= lines@.len(),
                        lv == views_of(lines@),
                        strings_view(keys@) == add_instance_keys(p, lv.subrange(0, i as int)),
                    decreases lines.len() - i,
                {
                    proof {
                        assert(lv.subrange(0, i as int + 1).drop_last() =~= lv.subrange(0, i as int));
                        assert(lv.subrange(0, i as int + 1).last() == lines@[i as int]@);
                    }
                    match key_after_colon_of(&lines[i]) {
                        Some(k) => {
                            let ks = string_from_chars(&k);
                            if k.len() > 0 && !crate::prov_config::strings_contain(&keys, &ks) && accepted_key_of(&k) {
                                let ghost before = strings_view(keys@);
                                keys.push(ks);
                                assert(strings_view(keys@) =~= before.push(k@));
                            }
                        },
                        None => {},
                    }
                    i = i + 1;
                }
                assert(lv.subrange(0, lines@.len() as int) =~= lv);
            },
            None => {},
        }
        keys
    }

    /// The instance metadata that the answers give, each where it could be read,
    /// with the tags already read as a list; as `gcp_metadata` says.
    pub fn instance_metadata_with(
        id: Option<&str>,
        name: Option<&str>,
        machine_type: Option<&str>,
        zone: Option<&str>,
        project_id: Option<&str>,
        tags: Option<Vec<String>>,
        service_accounts: Option<Json>,
        attributes: Option<Json>,
    ) -> (r: Vec<(String, Json)>)
        ensures
            names_distinct(pairs_view(r@)),
            entries_map(pairs_view(r@)) == gcp_metadata(
                opt_str(id),
                opt_str(name),
                opt_str(machine_type),
                opt_str(zone),
                opt_str(project_id),
                match tags {
                    Some(t) => Some(strings_view(t@)),
                    None => None,
                },
                match service_accounts {
                    Some(v) => Some(v@),
                    None => None,
                },
                match attributes {
                    Some(v) => Some(v@),
                    None => None,
                },
            ),
    {
        let mut m: Vec<(String, Json)> = Vec::new();
        assert(pairs_view(m@) =~= Seq::<(Seq<char>, JsonV)>::empty());
        put_text_entry(&mut m, "instance-id", trimmed(id));
        put_text_entry(&mut m, "instance-name", trimmed(name));
        put_text_entry(&mut m, "machine-type", tail_of(machine_type));
        match tail_of(zone) {
            Some(z) => {
                proof {
                    lemma_last_index_bounds(z@, '-');
                }
                let region = match rfind_char(&z, '-') {
                    Some(i) => Some(slice_chars(&z, 0, i)),
                    None => None,
                };
                assert(match zone_region(z@) {
                    Some(x) => region is Some && region->0@ == x,
                    None => region is None,
                });
                put_entry(&mut m, "zone".to_owned(), Json::Str(string_from_chars(&z)));
                put_text_entry(&mut m, "region", region);
            },
            None => {},
        }
        put_text_entry(&mut m, "project-id", trimmed(project_id));
        match tags {
            Some(t) => {
                let mut items: Vec<Json> = Vec::new();
                let mut i: usize = 0;
                while i < t.len()
                    invariant
                        i <= t@.len(),
                        crate::json::items_view(items@) =~= Seq::new(i as nat, |k: int| JsonV::Str(t@[k]@)),
                    decreases t.len() - i,
                {
                    let ghost before = crate::json::items_view(items@);
                    let x = Json::Str(t[i].clone());
                    items.push(x);
                    assert(crate::json::items_view(items@) =~= before.push(x@));
                    i = i + 1;
                }
                proof {
                    crate::json::lemma_array_view(items);
                    assert(crate::json::items_view(items@) =~= Seq::new(strings_view(t@).len(), |k: int| JsonV::Str(strings_view(t@)[k])));
                }
                put_entry(&mut m, "tags".to_owned(), Json::Array(items));
            },
            None => {},
        }
        match service_accounts {
            Some(v) => {
                put_entry(&mut m, "service-accounts".to_owned(), v);
            },
            None => {},
        }
        match attributes {
            Some(v) => {
                put_entry(&mut m, "attributes".to_owned(), v);
            },
            None => {},
        }
        m
    }

    /// The instance metadata that the answers give, each where it could be read;
    /// the tags answer is read as a JSON list of strings, and kept where it is one.
    pub fn instance_metadata(
        id: Option<&str>,
        name: Option<&str>,
        machine_type: Option<&str>,
        zone: Option<&str>,
        project_id: Option<&str>,
        tags_text: Option<&str>,
        service_accounts: Option<Json>,
        attributes: Option<Json>,
    ) -> (r: Vec<(String, Json)>)
        ensures
            names_distinct(pairs_view(r@)),
            entries_map(pairs_view(r@)) == gcp_metadata(
                opt_str(id),
                opt_str(name),
                opt_str(machine_type),
                opt_str(zone),
                opt_str(project_id),
                match tags_text {
                    Some(t) => json_string_list(t@),
                    None => None,
                },
                match service_accounts {
                    Some(v) => Some(v@),
                    None => None,
                },
                match attributes {
                    Some(v) => Some(v@),
                    None => None,
                },
            ),
    {
        let tags = match tags_text {
            Some(t) => parse_string_list(t),
            None => None,
        };
        Self::instance_metadata_with(id, name, machine_type, zone, project_id, tags, service_accounts, attributes)
    }
}

/// Every interface that the network-interfaces answer describes has at least
/// one address: DHCP where it lists none.
pub proof fn law_gcp_interface_has_an_address(d: JsonV)
    ensures
        gcp_interface(d).addresses.len() > 0,
{
}
} // verus!

verus! {

/// An interface entry with an `ip` gets, as its first address, a static address
/// of that ip with the prefix length its subnet mask encodes and the entry's
/// gateway, primary.
pub proof fn law_gcp_interface_address(d: JsonV, ip: Seq<char>, nm: Seq<char>, q: nat)
    requires
        jstr(jget(d, "ip"@)) == Some(ip),
        jstr(jget(d, "subnetmask"@)) == Some(nm),
        crate::netutil::netmask_to_cidr_spec(nm) == Ok::<nat, crate::netutil::NetErrorKind>(q),
    ensures
        gcp_interface(d).addresses.len() >= 1,
        gcp_interface(d).addresses[0] == (AddressConfigV {
            addr_type: AddressType::Static,
            address: Some(ip + "/"@ + crate::text::dec_digits(q)),
            gateway: jstr(jget(d, "gateway"@)),
            primary: true,
        }),
{
    match jarr(jget(d, "ipAliases"@)) {
        Some(items) => {
            let a0 = seq![
                AddressConfigV {
                    addr_type: AddressType::Static,
                    address: Some(ip + "/"@ + crate::text::dec_digits(q)),
                    gateway: jstr(jget(d, "gateway"@)),
                    primary: true,
                },
            ];
            assert((a0 + alias_addresses(items))[0] == a0[0]);
        },
        None => {},
    }
}

} // verus!
