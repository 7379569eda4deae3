//! Reading Azure instance metadata: host name, network interfaces, SSH keys,
//! user data and the configuration they give.
use vstd::prelude::*;
use crate::gcp::accepted_key;
use crate::json::{items_view, Json, JsonV};
use crate::json_access::{as_array, as_str, get, get_in, jarr, jget, jget_in, jstr};
use crate::keyed::{entries_map, names_distinct, pairs_view, put_entry};
use crate::kdl_parser::{opt_view, strings_view};
use crate::netutil::{base64_decoded, decode_base64, normalize_mac_address, text_from_bytes, utf8_lossy};
use crate::openstack::{addrs_view, dynamic, dynamic_address, opt_mac, opt_string};
use crate::prov_config::{
    empty_config, strings_contain, AddressConfig, AddressConfigV, AddressType, InterfaceConfig, InterfaceConfigV,
    ProvisioningConfig, ProvisioningConfigV,
};
use crate::smartos::address_text;
use crate::sources::AzureSource;
use crate::text::{
    append_chars, chars_of, dec_digits, lines_of, parse_unsigned, parse_unsigned_chars, slice_chars, starts_with_chars,
    str_lines, string_from_chars, trim, trim_chars, u64_to_dec, views_of,
};

verus! {

/// The text without the slashes at its start, as `trim_start_matches('/')` gives it.
pub open spec fn strip_leading_slashes(s: Seq<char>) -> Seq<char>
    decreases s.len(),
{
    if s.len() > 0 && s[0] == '/' {
        strip_leading_slashes(s.drop_first())
    } else {
        s
    }
}

/// The prefix length of the first subnet of an `ipv4` object: its `prefix`
/// without leading slashes read as a `u8`, 24 where that fails.
pub open spec fn azure_prefix(ipv4: JsonV) -> nat {
    match jarr(jget(ipv4, "subnet"@)) {
        Some(s) => if s.len() > 0 {
            match jstr(jget(s[0], "prefix"@)) {
                Some(p) => match parse_unsigned(strip_leading_slashes(p), 255) {
                    Some(n) => n,
                    None => 24,
                },
                None => 24,
            }
        } else {
            24
        },
        None => 24,
    }
}

/// The private IPv4 addresses listed that are not empty.
pub open spec fn private_ips(items: Seq<JsonV>) -> Seq<Seq<char>>
    decreases items.len(),
{
    if items.len() == 0 {
        Seq::empty()
    } else {
        match jstr(jget(items.last(), "privateIpAddress"@)) {
            Some(ip) => if ip.len() > 0 {
                private_ips(items.drop_last()).push(ip)
            } else {
                private_ips(items.drop_last())
            },
            None => private_ips(items.drop_last()),
        }
    }
}

/// The private IPv6 addresses listed.
pub open spec fn v6_ips(items: Seq<JsonV>) -> Seq<Seq<char>>
    decreases items.len(),
{
    if items.len() == 0 {
        Seq::empty()
    } else {
        match jstr(jget(items.last(), "privateIpAddress"@)) {
            Some(ip) => v6_ips(items.drop_last()).push(ip),
            None => v6_ips(items.drop_last()),
        }
    }
}

/// The interface that an entry of the network interface list describes: its
/// private IPv4 addresses with the prefix of the first subnet (the first
/// primary), its IPv6 addresses, and DHCP where it has none.
pub open spec fn azure_interface(d: JsonV) -> InterfaceConfigV {
    let ipv4 = jget(d, "ipv4"@);
    let v4 = match jarr(jget_in(ipv4, "ipAddress"@)) {
        Some(items) => private_ips(items),
        None => Seq::empty(),
    };
    let p = match ipv4 {
        Some(x) => azure_prefix(x),
        None => 24,
    };
    let v6 = match jarr(jget_in(jget(d, "ipv6"@), "ipAddress"@)) {
        Some(items) => v6_ips(items),
        None => Seq::empty(),
    };
    let a = Seq::new(
        v4.len(),
        |i: int|
            AddressConfigV {
                addr_type: AddressType::Static,
                address: Some(v4[i] + "/"@ + dec_digits(p)),
                gateway: None,
                primary: i == 0,
            },
    ) + Seq::new(
        v6.len(),
        |i: int| AddressConfigV { addr_type: AddressType::Static, address: Some(v6[i]), gateway: None, primary: false },
    );
    InterfaceConfigV {
        mac_address: opt_mac(jstr(jget(d, "macAddress"@))),
        mtu: None,
        addresses: if a.len() == 0 {
            seq![dynamic_address(AddressType::Dhcp4, true)]
        } else {
            a
        },
        enabled: true,
        description: Some("Azure network interface"@),
        vlan_id: None,
        parent: None,
    }
}

/// The interfaces of the list, named `eth` and their position.
pub open spec fn azure_interfaces(items: Seq<JsonV>) -> Map<Seq<char>, InterfaceConfigV>
    decreases items.len(),
{
    if items.len() == 0 {
        Map::empty()
    } else {
        azure_interfaces(items.drop_last()).insert("eth"@ + dec_digits((items.len() - 1) as nat), azure_interface(items.last()))
    }
}

/// The interfaces that instance metadata describes; refused where it has no
/// network information or no interface list.
pub open spec fn azure_network(md: JsonV) -> Result<Map<Seq<char>, InterfaceConfigV>, Seq<char>> {
    match jget(md, "network"@) {
        None => Err("No network information in metadata"@),
        Some(n) => match jarr(jget(n, "interface"@)) {
            None => Err("No interface array in network metadata"@),
            Some(items) => Ok(azure_interfaces(items)),
        },
    }
}

/// The host name of instance metadata: the compute `name`, else its `computerName`.
pub open spec fn azure_hostname(md: JsonV) -> Option<Seq<char>> {
    match jstr(jget_in(jget(md, "compute"@), "name"@)) {
        Some(n) => Some(n),
        None => jstr(jget_in(jget(md, "compute"@), "computerName"@)),
    }
}

/// The `keyData` texts of a key list, in order.
pub open spec fn key_data_list(items: Seq<JsonV>) -> Seq<Seq<char>>
    decreases items.len(),
{
    if items.len() == 0 {
        Seq::empty()
    } else {
        match jstr(jget(items.last(), "keyData"@)) {
            Some(k) => key_data_list(items.drop_last()).push(k),
            None => key_data_list(items.drop_last()),
        }
    }
}

/// The keys after the `keyData` texts of a key list are added, each that is not
/// already there.
pub open spec fn add_key_datas(keys: Seq<Seq<char>>, items: Seq<JsonV>) -> Seq<Seq<char>>
    decreases items.len(),
{
    if items.len() == 0 {
        keys
    } else {
        let ks = add_key_datas(keys, items.drop_last());
        match jstr(jget(items.last(), "keyData"@)) {
            Some(k) => if ks.contains(k) {
                ks
            } else {
                ks.push(k)
            },
            None => ks,
        }
    }
}

/// The keys after the lines of the custom data that begin with an accepted key
/// type are added, trimmed, each that is not already there.
pub open spec fn add_custom_lines(keys: Seq<Seq<char>>, lines: Seq<Seq<char>>) -> Seq<Seq<char>>
    decreases lines.len(),
{
    if lines.len() == 0 {
        keys
    } else {
        let ks = add_custom_lines(keys, lines.drop_last());
        if accepted_key(lines.last()) && !ks.contains(trim(lines.last())) {
            ks.push(trim(lines.last()))
        } else {
            ks
        }
    }
}

/// The SSH keys of instance metadata (the compute `publicKeys`, then those of
/// the Linux SSH profile) and of the decoded custom data, where there is some.
pub open spec fn azure_keys(md: JsonV, custom_text: Option<Seq<char>>) -> Seq<Seq<char>> {
    let c = jget(md, "compute"@);
    let k1 = match jarr(jget_in(c, "publicKeys"@)) {
        Some(items) => key_data_list(items),
        None => Seq::empty(),
    };
    let ssh = jget_in(jget_in(jget_in(c, "osProfile"@), "linuxConfiguration"@), "ssh"@);
    let k2 = match jarr(jget_in(ssh, "publicKeys"@)) {
        Some(items) => add_key_datas(k1, items),
        None => k1,
    };
    match custom_text {
        Some(t) => add_custom_lines(k2, str_lines(t)),
        None => k2,
    }
}

/// The text that base64 data stands for: the decoded bytes read as UTF-8,
/// where it decodes.
pub open spec fn decoded_text(data: Seq<char>) -> Option<Seq<char>> {
    match base64_decoded(data) {
        Some(b) => Some(utf8_lossy(b)),
        None => None,
    }
}

/// The user data that an answer gives: its decoded text where it is base64,
/// else the answer itself.
pub open spec fn azure_user_data(answer: Seq<char>) -> Seq<char> {
    match decoded_text(answer) {
        Some(t) => t,
        None => answer,
    }
}

/// The configuration that instance metadata gives, with the SSH keys and user
/// data read beside it: the host name, the interfaces where the metadata has
/// them, and the metadata itself under `azure-instance`.
pub open spec fn azure_config(md: JsonV, keys: Seq<Seq<char>>, user_data: Option<Seq<char>>) -> ProvisioningConfigV {
    ProvisioningConfigV {
        hostname: azure_hostname(md),
        interfaces: match azure_network(md) {
            Ok(m) => m,
            Err(_) => Map::empty(),
        },
        ssh_authorized_keys: keys,
        user_data,
        metadata: Map::empty().insert("azure-instance"@, md),
        ..empty_config()
    }
}


fn strip_leading_slashes_of(s: &Vec<char>) -> (r: Vec<char>)
    ensures
        r@ == strip_leading_slashes(s@),
{
    let mut i: usize = 0;
    assert(s@.subrange(0, s@.len() as int) =~= s@);
    while i < s.len() && s[i] == '/'
        invariant
            i <= s@.len(),
            strip_leading_slashes(s@) == strip_leading_slashes(s@.subrange(i as int, s@.len() as int)),
        decreases s.len() - i,
    {
        assert(s@.subrange(i as int, s@.len() as int).drop_first() =~= s@.subrange(i as int + 1, s@.len() as int));
        i = i + 1;
    }
    slice_chars(s, i, s.len())
}

fn prefix_of_ipv4(ipv4: &Json) -> (r: u8)
    ensures
        r as nat == azure_prefix(ipv4@),
{
    match as_array(get(ipv4, "subnet")) {
        Some(s) => {
            if s.len() > 0 {
                assert(items_view(s@)[0] == s@[0]@);
                match as_str(get(&s[0], "prefix")) {
                    Some(p) => match parse_unsigned_chars(&strip_leading_slashes_of(&chars_of(p.as_str())), 255) {
                        Some(n) => n as u8,
                        None => 24,
                    },
                    None => 24,
                }
            } else {
                24
            }
        },
        None => 24,
    }
}

fn interface_of(d: &Json) -> (r: InterfaceConfig)
    ensures
        r@ == azure_interface(d@),
{
    let ipv4 = get(d, "ipv4");
    let p: u8 = match ipv4 {
        Some(x) => prefix_of_ipv4(x),
        None => 24,
    };
    let mut addrs: Vec<AddressConfig> = Vec::new();
    let ghost v4 = match jarr(jget_in(jget(d@, "ipv4"@), "ipAddress"@)) {
        Some(items) => private_ips(items),
        None => Seq::<Seq<char>>::empty(),
    };
    match as_array(get_in(ipv4, "ipAddress")) {
        Some(items) => {
            let ghost iv = items_view(items@);
            let mut k: usize = 0;
            while k < items.len()
                invariant
                    k <= items@.len(),
                    iv == items_view(items@),
                    p as nat == match jget(d@, "ipv4"@) {
                        Some(x) => azure_prefix(x),
                        None => 24,
                    },
                    addrs_view(addrs@) =~= Seq::new(
                        private_ips(iv.subrange(0, k as int)).len(),
                        |i: int|
                            AddressConfigV {
                                addr_type: AddressType::Static,
                                address: Some(private_ips(iv.subrange(0, k as int))[i] + "/"@ + dec_digits(p as nat)),
                                gateway: None,
                                primary: i == 0,
                            },
                    ),
                decreases items.len() - k,
            {
                proof {
                    assert(iv.subrange(0, k as int + 1).drop_last() =~= iv.subrange(0, k as int));
                    assert(iv.subrange(0, k as int + 1).last() == items@[k as int]@);
                }
                match as_str(get(&items[k], "privateIpAddress")) {
                    Some(ip) => {
                        if ip.as_str().unicode_len() > 0 {
                            let a = AddressConfig {
                                addr_type: AddressType::Static,
                                address: Some(address_text(ip.as_str(), p as u64)),
                                gateway: None,
                                primary: addrs.len() == 0,
                            };
                            let ghost before = addrs_view(addrs@);
                            addrs.push(a);
                            assert(addrs_view(addrs@) =~= before.push(a@));
                        }
                    },
                    None => {},
                }
                k = k + 1;
            }
            assert(iv.subrange(0, items@.len() as int) =~= iv);
        },
        None => {},
    }
    assert(addrs_view(addrs@) =~= Seq::new(
        v4.len(),
        |i: int|
            AddressConfigV {
                addr_type: AddressType::Static,
                address: Some(v4[i] + "/"@ + dec_digits(p as nat)),
                gateway: None,
                primary: i == 0,
            },
    ));
    let ghost a0 = addrs_view(addrs@);
    let ghost v6 = match jarr(jget_in(jget(d@, "ipv6"@), "ipAddress"@)) {
        Some(items) => v6_ips(items),
        None => Seq::<Seq<char>>::empty(),
    };
    match as_array(get_in(get(d, "ipv6"), "ipAddress")) {
        Some(items) => {
            let ghost iv = items_view(items@);
            let mut k: usize = 0;
            while k < items.len()
                invariant
                    k <= items@.len(),
                    iv == items_view(items@),
                    addrs_view(addrs@) =~= a0 + Seq::new(
                        v6_ips(iv.subrange(0, k as int)).len(),
                        |i: int|
                            AddressConfigV {
                                addr_type: AddressType::Static,
                                address: Some(v6_ips(iv.subrange(0, k as int))[i]),
                                gateway: None,
                                primary: false,
                            },
                    ),
                decreases items.len() - k,
            {
                proof {
                    assert(iv.subrange(0, k as int + 1).drop_last() =~= iv.subrange(0, k as int));
                    assert(iv.subrange(0, k as int + 1).last() == items@[k as int]@);
                }
                match as_str(get(&items[k], "privateIpAddress")) {
                    Some(ip) => {
                        let a = AddressConfig { addr_type: AddressType::Static, address: Some(ip.clone()), gateway: None, primary: false };
                        let ghost before = addrs_view(addrs@);
                        addrs.push(a);
                        assert(addrs_view(addrs@) =~= before.push(a@));
                    },
                    None => {},
                }
                k = k + 1;
            }
            assert(iv.subrange(0, items@.len() as int) =~= iv);
        },
        None => {},
    }
    if addrs.len() == 0 {
        let x = dynamic(AddressType::Dhcp4, true);
        addrs.push(x);
        assert(addrs_view(addrs@) =~= seq![x@]);
    }
    let r = InterfaceConfig {
        mac_address: match as_str(get(d, "macAddress")) {
            Some(m) => Some(normalize_mac_address(m.as_str())),
            None => None,
        },
        mtu: None,
        addresses: addrs,
        enabled: true,
        description: Some("Azure network interface".to_owned()),
        vlan_id: None,
        parent: None,
    };
    assert(r@.addresses =~= addrs_view(r.addresses@));
    r
}

fn push_key_datas(keys: &mut Vec<String>, items: &Vec<Json>, unique: bool)
    ensures
        strings_view(final(keys)@) == if unique {
            add_key_datas(strings_view(old(keys)@), items_view(items@))
        } else {
            strings_view(old(keys)@) + key_data_list(items_view(items@))
        },
{
    let ghost k0 = strings_view(keys@);
    let ghost iv = items_view(items@);
    let mut k: usize = 0;
    assert(k0 =~= k0 + key_data_list(iv.subrange(0, 0)));
    while k < items.len()
        invariant
            k <= items@.len(),
            iv == items_view(items@),
            strings_view(keys@) == if unique {
                add_key_datas(k0, iv.subrange(0, k as int))
            } else {
                k0 + key_data_list(iv.subrange(0, k as int))
            },
        decreases items.len() - k,
    {
        proof {
            assert(iv.subrange(0, k as int + 1).drop_last() =~= iv.subrange(0, k as int));
            assert(iv.subrange(0, k as int + 1).last() == items@[k as int]@);
        }
        match as_str(get(&items[k], "keyData")) {
            Some(t) => {
                if !unique || !strings_contain(keys, t) {
                    let ghost before = strings_view(keys@);
                    keys.push(t.clone());
                    assert(strings_view(keys@) =~= before.push(t@));
                }
            },
            None => {},
        }
        k = k + 1;
    }
    assert(iv.subrange(0, items@.len() as int) =~= iv);
}

impl AzureSource {
    /// The host name that instance metadata gives, as `azure_hostname` says.
    pub fn extract_hostname(&self, metadata: &Json) -> (r: Option<String>)
        ensures
            opt_view(r) == azure_hostname(metadata@),
    {
        let compute = get(metadata, "compute");
        match as_str(get_in(compute, "name")) {
            Some(n) => Some(n.clone()),
            None => opt_string(as_str(get_in(compute, "computerName"))),
        }
    }

    /// The interfaces that instance metadata describes, as `azure_network` says.
    pub fn parse_network_config(&self, metadata: &Json) -> (r: Result<Vec<(String, InterfaceConfig)>, String>)
        ensures
            match azure_network(metadata@) {
                Ok(m) => r is Ok && names_distinct(pairs_view(r->Ok_0@)) && entries_map(pairs_view(r->Ok_0@)) == m,
                Err(e) => r is Err && r->Err_0@ == e,
            },
    {
        let network = match get(metadata, "network") {
            Some(n) => n,
            None => {
                return Err("No network information in metadata".to_owned());
            },
        };
        let items = match as_array(get(network, "interface")) {
            Some(a) => a,
            None => {
                return Err("No interface array in network metadata".to_owned());
            },
        };
        let ghost iv = items_view(items@);
        let mut ifs: Vec<(String, InterfaceConfig)> = Vec::new();
        assert(pairs_view(ifs@) =~= Seq::<(Seq<char>, InterfaceConfigV)>::empty());
        let mut k: usize = 0;
        while k < items.len()
            invariant
                k <= items@.len(),
                iv == items_view(items@),
                names_distinct(pairs_view(ifs@)),
                entries_map(pairs_view(ifs@)) == azure_interfaces(iv.subrange(0, k as int)),
            decreases items.len() - k,
        {
            proof {
                assert(iv.subrange(0, k as int + 1).drop_last() =~= iv.subrange(0, k as int));
                assert(iv.subrange(0, k as int + 1).last() == items@[k as int]@);
            }
            let mut name = chars_of("eth");
            append_chars(&mut name, &u64_to_dec(k as u64));
            let iface = interface_of(&items[k]);
            put_entry(&mut ifs, string_from_chars(&name), iface);
            k = k + 1;
        }
        assert(iv.subrange(0, items@.len() as int) =~= iv);
        Ok(ifs)
    }

    /// The SSH keys of instance metadata and of the custom data's decoded text,
    /// where there is one; as `azure_keys` says.
    pub fn ssh_keys_with(&self, metadata: &Json, custom_text: Option<&str>) -> (r: Vec<String>)
        ensures
            strings_view(r@) == azure_keys(metadata@, crate::text::opt_str(custom_text)),
    {
        let mut keys: Vec<String> = Vec::new();
        let compute = get(metadata, "compute");
        match as_array(get_in(compute, "publicKeys")) {
            Some(items) => push_key_datas(&mut keys, items, false),
            None => {},
        }
        assert(strings_view(keys@) =~= match jarr(jget_in(jget(metadata@, "compute"@), "publicKeys"@)) {
            Some(items) => key_data_list(items),
            None => Seq::empty(),
        });
        let ssh = get_in(get_in(get_in(compute, "osProfile"), "linuxConfiguration"), "ssh");
        match as_array(get_in(ssh, "publicKeys")) {
            Some(items) => push_key_datas(&mut keys, items, true),
            None => {},
        }
        match custom_text {
            Some(t) => {
                let ghost k2 = strings_view(keys@);
                let lines = lines_of(&chars_of(t));
                let ghost lv = views_of(lines@);
                let mut i: usize = 0;
                while i < lines.len()
                    invariant
                        i <= lines@.len(),
                        lv == views_of(lines@),
                        strings_view(keys@) == add_custom_lines(k2, lv.subrange(0, i as int)),
                    decreases lines.len() - i,
                {
                    proof {
                        assert(lv.subrange(0, i as int + 1).drop_last() =~= lv.subrange(0, i as int));
                        assert(lv.subrange(0, i as int + 1).last() == lines@[i as int]@);
                    }
                    let l = &lines[i];
                    let accepted = starts_with_chars(l, &chars_of("ssh-rsa")) || starts_with_chars(l, &chars_of("ssh-ed25519"))
                        || starts_with_chars(l, &chars_of("ssh-ecdsa"));
                    if accepted {
                        let key = string_from_chars(&trim_chars(l));
                        if !strings_contain(&keys, &key) {
                            let ghost before = strings_view(keys@);
                            keys.push(key);
                            assert(strings_view(keys@) =~= before.push(trim(l@)));
                        }
                    }
                    i = i + 1;
                }
                assert(lv.subrange(0, lines@.len() as int) =~= lv);
            },
            None => {},
        }
        keys
    }

    /// The SSH keys of instance metadata and of the custom data, where it was
    /// read: the custom data is decoded from base64 and read as UTF-8, and left
    /// out where it does not decode.
    pub fn ssh_keys_from(&self, metadata: &Json, custom_data: Option<&str>) -> (r: Vec<String>)
        ensures
            strings_view(r@) == azure_keys(
                metadata@,
                match custom_data {
                    Some(c) => decoded_text(c@),
                    None => None,
                },
            ),
    {
        let text: Option<String> = match custom_data {
            Some(c) => match decode_base64(c) {
                Ok(b) => Some(text_from_bytes(&b)),
                Err(_) => None,
            },
            None => None,
        };
        match &text {
            Some(t) => self.ssh_keys_with(metadata, Some(t.as_str())),
            None => self.ssh_keys_with(metadata, None),
        }
    }

    /// The user data that an answer of the custom-data or user-data endpoint
    /// gives, as `azure_user_data` says.
    pub fn user_data_from(answer: &str) -> (r: String)
        ensures
            r@ == azure_user_data(answer@),
    {
        match decode_base64(answer) {
            Ok(b) => text_from_bytes(&b),
            Err(_) => answer.to_owned(),
        }
    }

    /// The configuration that instance metadata gives, with the SSH keys and user
    /// data read beside it; as `azure_config` says.
    pub fn config_from_metadata(&self, metadata: Json, keys: Vec<String>, user_data: Option<String>) -> (r: ProvisioningConfig)
        ensures
            r.wf(),
            r@ == azure_config(metadata@, strings_view(keys@), opt_view(user_data)),
    {
        let mut c = ProvisioningConfig::new();
        c.hostname = self.extract_hostname(&metadata);
        match self.parse_network_config(&metadata) {
            Ok(ifs) => {
                c.interfaces = ifs;
            },
            Err(_) => {},
        }
        c.ssh_authorized_keys = keys;
        c.user_data = user_data;
        let ghost md = metadata@;
        c.insert_metadata("azure-instance".to_owned(), metadata);
        assert(c@.metadata =~= Map::<Seq<char>, JsonV>::empty().insert("azure-instance"@, md));
        c
    }
}

/// Every Azure interface has at least one address: DHCP where none is listed.
pub proof fn law_azure_interface_has_an_address(d: JsonV)
    ensures
        azure_interface(d).addresses.len() > 0,
{
}
} // verus!

verus! {

proof fn lemma_private_ips_first(items: Seq<JsonV>, ip: Seq<char>)
    requires
        items.len() > 0,
        jstr(jget(items[0], "privateIpAddress"@)) == Some(ip),
        ip.len() > 0,
    ensures
        private_ips(items).len() > 0,
        private_ips(items)[0] == ip,
    decreases items.len(),
{
    if items.len() > 1 {
        assert(items.drop_last()[0] == items[0]);
        lemma_private_ips_first(items.drop_last(), ip);
        let pr = private_ips(items.drop_last());
        match jstr(jget(items.last(), "privateIpAddress"@)) {
            Some(y) => {
                assert(pr.push(y)[0] == pr[0]);
            },
            None => {},
        }
    } else {
        assert(items.drop_last() =~= Seq::<JsonV>::empty());
        assert(private_ips(items.drop_last()) == Seq::<Seq<char>>::empty());
        assert(items.last() == items[0]);
        assert(private_ips(items) == Seq::<Seq<char>>::empty().push(ip));
    }
}

/// An interface whose first private IPv4 address is `ip`, in a subnet whose
/// prefix is `q`, has as its first address `ip/q`, primary, without a gateway.
pub proof fn law_azure_interface_address(d: JsonV, x: JsonV, s: Seq<JsonV>, items: Seq<JsonV>, ip: Seq<char>, q: nat)
    requires
        jget(d, "ipv4"@) == Some(x),
        jarr(jget(x, "subnet"@)) == Some(s),
        s.len() > 0,
        jstr(jget(s[0], "prefix"@)) == Some(dec_digits(q)),
        q <= 255,
        jarr(jget(x, "ipAddress"@)) == Some(items),
        items.len() > 0,
        jstr(jget(items[0], "privateIpAddress"@)) == Some(ip),
        ip.len() > 0,
    ensures
        azure_interface(d).addresses[0] == (AddressConfigV {
            addr_type: AddressType::Static,
            address: Some(ip + "/"@ + dec_digits(q)),
            gateway: None,
            primary: true,
        }),
{
    lemma_private_ips_first(items, ip);
    crate::text::lemma_dec_digits_value(q);
    assert(crate::text::is_digit(dec_digits(q)[0]));
    assert(strip_leading_slashes(dec_digits(q)) == dec_digits(q));
    crate::text::lemma_parse_dec_digits(q, 255);
    assert(azure_prefix(x) == q);
    assert(jget_in(jget(d, "ipv4"@), "ipAddress"@) == jget(x, "ipAddress"@));
}

} // verus!
