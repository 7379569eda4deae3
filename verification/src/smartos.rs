//! Reading the SmartOS network metadata (`sdc:nics` and the primary network keys).
use vstd::prelude::*;
use crate::json::{entries_view, items_view, Json, JsonV};
use crate::json_access::{as_array, as_bool, as_str, as_u64, get, jarr, jbool, jget, jstr, ju64};
use crate::keyed::{entries_map, names_distinct, pairs_view, put_entry};
use crate::gcp::{json_string_list, parse_string_list};
use crate::kdl_parser::{opt_view, strings_view};
use crate::prov_config::strings_contain;
use crate::netutil::{netmask_to_cidr, netmask_to_cidr_spec, normalize_mac_address};
use crate::openstack::{addrs_view, dynamic, dynamic_address, opt_mac, opt_string, opt_u16, opt_u32};
use crate::prov_config::{AddressConfig, AddressConfigV, AddressType, InterfaceConfig, InterfaceConfigV};
use crate::sources::SmartOSSource;
use crate::text::{
    append_chars, chars_of, dec_digits, lines_of, opt_str, str_contains_char, str_lines, string_from_chars, trim, trim_chars,
    u64_to_dec, views_of,
};

verus! {

/// The prefix length of a netmask, 24 where it is not valid.
pub open spec fn prefix_or_24(nm: Seq<char>) -> nat {
    match netmask_to_cidr_spec(nm) {
        Ok(p) => p,
        Err(_) => 24,
    }
}

/// The name of the nic at position `idx`: its `interface`, else `net` and its position.
pub open spec fn nic_name(nic: JsonV, idx: nat) -> Seq<char> {
    match jstr(jget(nic, "interface"@)) {
        Some(n) => n,
        None => "net"@ + dec_digits(idx),
    }
}

/// The address that an item of a nic's `ips` list gives: an IPv6 text as it is, or
/// an object's `ip` with its prefix length (64 for IPv6 and 24 for IPv4 where it
/// gives none).
pub open spec fn nic_ip(item: JsonV) -> Option<AddressConfigV> {
    match item {
        JsonV::Str(s) => if s.contains(':') {
            Some(AddressConfigV { addr_type: AddressType::Static, address: Some(s), gateway: None, primary: false })
        } else {
            None
        },
        JsonV::Object(_) => match jstr(jget(item, "ip"@)) {
            Some(ip) => {
                let p: u64 = match ju64(jget(item, "prefix"@)) {
                    Some(n) => n,
                    None => if ip.contains(':') {
                        64
                    } else {
                        24
                    },
                };
                Some(
                    AddressConfigV {
                        addr_type: AddressType::Static,
                        address: Some(ip + "/"@ + dec_digits((p as u8) as nat)),
                        gateway: jstr(jget(item, "gateway"@)),
                        primary: false,
                    },
                )
            },
            None => None,
        },
        _ => None,
    }
}

/// The addresses that a nic's `ips` list gives, in order.
pub open spec fn nic_ips(items: Seq<JsonV>) -> Seq<AddressConfigV>
    decreases items.len(),
{
    if items.len() == 0 {
        Seq::empty()
    } else {
        match nic_ip(items.last()) {
            Some(a) => nic_ips(items.drop_last()).push(a),
            None => nic_ips(items.drop_last()),
        }
    }
}

/// The interface that the nic at position `idx` describes.
pub open spec fn nic_interface(nic: JsonV, idx: nat) -> InterfaceConfigV {
    let a0: Seq<AddressConfigV> = match jstr(jget(nic, "ip"@)) {
        Some(ip) => {
            let nm = match jstr(jget(nic, "netmask"@)) {
                Some(m) => m,
                None => "255.255.255.0"@,
            };
            seq![
                AddressConfigV {
                    addr_type: AddressType::Static,
                    address: Some(ip + "/"@ + dec_digits(prefix_or_24(nm))),
                    gateway: jstr(jget(nic, "gateway"@)),
                    primary: match jbool(jget(nic, "primary"@)) {
                        Some(b) => b,
                        None => idx == 0,
                    },
                },
            ]
        },
        None => Seq::empty(),
    };
    let a1 = match jarr(jget(nic, "ips"@)) {
        Some(items) => a0 + nic_ips(items),
        None => a0,
    };
    let a2 = if jbool(jget(nic, "dhcp"@)) == Some(true) && a1.len() == 0 {
        seq![dynamic_address(AddressType::Dhcp4, true)]
    } else {
        a1
    };
    InterfaceConfigV {
        mac_address: opt_mac(jstr(jget(nic, "mac"@))),
        mtu: opt_u32(ju64(jget(nic, "mtu"@))),
        addresses: a2,
        enabled: true,
        description: Some("SmartOS network interface"@),
        vlan_id: opt_u16(ju64(jget(nic, "vlan_id"@))),
        parent: None,
    }
}

/// The interfaces that the `sdc:nics` list describes, by name.
pub open spec fn nics_model(nics: Seq<JsonV>) -> Map<Seq<char>, InterfaceConfigV>
    decreases nics.len(),
{
    if nics.len() == 0 {
        Map::empty()
    } else {
        let i = (nics.len() - 1) as nat;
        nics_model(nics.drop_last()).insert(nic_name(nics.last(), i), nic_interface(nics.last(), i))
    }
}

/// The primary interface that the individual network keys describe: the primary
/// MAC address, and a static address where a primary IP is given; none where it
/// has neither.
pub open spec fn primary_interface_spec(
    mac: Option<Seq<char>>,
    ip: Option<Seq<char>>,
    netmask: Option<Seq<char>>,
    gateway: Option<Seq<char>>,
) -> Option<InterfaceConfigV> {
    let addrs: Seq<AddressConfigV> = match ip {
        Some(a) => {
            let nm = match netmask {
                Some(m) => m,
                None => "255.255.255.0"@,
            };
            seq![
                AddressConfigV {
                    addr_type: AddressType::Static,
                    address: Some(a + "/"@ + dec_digits(prefix_or_24(nm))),
                    gateway,
                    primary: true,
                },
            ]
        },
        None => Seq::empty(),
    };
    if addrs.len() > 0 || mac is Some {
        Some(
            InterfaceConfigV {
                mac_address: mac,
                mtu: None,
                addresses: addrs,
                enabled: true,
                description: Some("SmartOS primary interface"@),
                vlan_id: None,
                parent: None,
            },
        )
    } else {
        None
    }
}

pub(crate) fn prefix_of(nm: &str) -> (r: u8)
    ensures
        r as nat == prefix_or_24(nm@),
{
    proof {
        crate::netutil::lemma_netmask_to_cidr_bound(nm@);
    }
    match netmask_to_cidr(nm) {
        Ok(p) => p,
        Err(_) => 24,
    }
}

pub(crate) fn address_text(ip: &str, prefix: u64) -> (r: String)
    ensures
        r@ == ip@ + "/"@ + dec_digits(prefix as nat),
{
    let mut t = chars_of(ip);
    append_chars(&mut t, &chars_of("/"));
    append_chars(&mut t, &u64_to_dec(prefix));
    string_from_chars(&t)
}

fn nic_ip_of(item: &Json) -> (r: Option<AddressConfig>)
    ensures
        match nic_ip(item@) {
            Some(a) => r is Some && r->0@ == a,
            None => r is None,
        },
{
    match item {
        Json::Str(s) => {
            if str_contains_char(s.as_str(), ':') {
                Some(AddressConfig { addr_type: AddressType::Static, address: Some(s.clone()), gateway: None, primary: false })
            } else {
                None
            }
        },
        Json::Object(_) => match as_str(get(item, "ip")) {
            Some(ip) => {
                let p: u64 = match as_u64(get(item, "prefix")) {
                    Some(n) => n,
                    None => if str_contains_char(ip.as_str(), ':') {
                        64
                    } else {
                        24
                    },
                };
                let q: u8 = p as u8;
                Some(
                    AddressConfig {
                        addr_type: AddressType::Static,
                        address: Some(address_text(ip.as_str(), q as u64)),
                        gateway: opt_string(as_str(get(item, "gateway"))),
                        primary: false,
                    },
                )
            },
            None => None,
        },
        _ => None,
    }
}

fn nic_to_interface(nic: &Json, idx: usize) -> (r: InterfaceConfig)
    ensures
        r@ == nic_interface(nic@, idx as nat),
{
    let mut addrs: Vec<AddressConfig> = Vec::new();
    match as_str(get(nic, "ip")) {
        Some(ip) => {
            let nm: &str = match as_str(get(nic, "netmask")) {
                Some(m) => m.as_str(),
                None => "255.255.255.0",
            };
            let p = prefix_of(nm);
            let a = AddressConfig {
                addr_type: AddressType::Static,
                address: Some(address_text(ip.as_str(), p as u64)),
                gateway: opt_string(as_str(get(nic, "gateway"))),
                primary: match as_bool(get(nic, "primary")) {
                    Some(b) => b,
                    None => idx == 0,
                },
            };
            addrs.push(a);
            assert(addrs_view(addrs@) =~= seq![a@]);
        },
        None => {
            assert(addrs_view(addrs@) =~= Seq::<AddressConfigV>::empty());
        },
    }
    let ghost a0 = addrs_view(addrs@);
    match as_array(get(nic, "ips")) {
        Some(items) => {
            let ghost iv = items_view(items@);
            let mut k: usize = 0;
            while k < items.len()
                invariant
                    k <= items@.len(),
                    iv == items_view(items@),
                    addrs_view(addrs@) == a0 + nic_ips(iv.subrange(0, k as int)),
                decreases items.len() - k,
            {
                proof {
                    assert(iv.subrange(0, k as int + 1).drop_last() =~= iv.subrange(0, k as int));
                    assert(iv.subrange(0, k as int + 1).last() == items@[k as int]@);
                }
                match nic_ip_of(&items[k]) {
                    Some(a) => {
                        let ghost before = addrs_view(addrs@);
                        addrs.push(a);
                        assert(addrs_view(addrs@) =~= before.push(a@));
                        assert(a0 + nic_ips(iv.subrange(0, k as int + 1)) =~= (a0 + nic_ips(iv.subrange(0, k as int))).push(a@));
                    },
                    None => {},
                }
                k = k + 1;
            }
            assert(iv.subrange(0, items@.len() as int) =~= iv);
        },
        None => {
            assert(a0 =~= a0 + Seq::<AddressConfigV>::empty());
        },
    }
    if as_bool(get(nic, "dhcp")) == Some(true) && addrs.len() == 0 {
        let d = dynamic(AddressType::Dhcp4, true);
        addrs.push(d);
        assert(addrs_view(addrs@) =~= seq![d@]);
    }
    let r = InterfaceConfig {
        mac_address: match as_str(get(nic, "mac")) {
            Some(m) => Some(normalize_mac_address(m.as_str())),
            None => None,
        },
        mtu: match as_u64(get(nic, "mtu")) {
            Some(m) => Some(m as u32),
            None => None,
        },
        addresses: addrs,
        enabled: true,
        description: Some("SmartOS network interface".to_owned()),
        vlan_id: match as_u64(get(nic, "vlan_id")) {
            Some(v) => Some(v as u16),
            None => None,
        },
        parent: None,
    };
    assert(r@.addresses =~= addrs_view(r.addresses@));
    r
}

impl SmartOSSource {
    /// The interfaces that the `sdc:nics` list describes.
    pub fn parse_nics(&self, nics: &Vec<Json>) -> (r: Vec<(String, InterfaceConfig)>)
        ensures
            names_distinct(pairs_view(r@)),
            entries_map(pairs_view(r@)) == nics_model(items_view(nics@)),
    {
        let ghost nv = items_view(nics@);
        let mut ifs: Vec<(String, InterfaceConfig)> = Vec::new();
        assert(pairs_view(ifs@) =~= Seq::<(Seq<char>, InterfaceConfigV)>::empty());
        let mut k: usize = 0;
        while k < nics.len()
            invariant
                k <= nics@.len(),
                nv == items_view(nics@),
                names_distinct(pairs_view(ifs@)),
                entries_map(pairs_view(ifs@)) == nics_model(nv.subrange(0, k as int)),
            decreases nics.len() - k,
        {
            let nic = &nics[k];
            proof {
                assert(nv.subrange(0, k as int + 1).drop_last() =~= nv.subrange(0, k as int));
                assert(nv.subrange(0, k as int + 1).last() == nic@);
            }
            let name = match as_str(get(nic, "interface")) {
                Some(n) => n.clone(),
                None => {
                    let mut t = chars_of("net");
                    append_chars(&mut t, &u64_to_dec(k as u64));
                    string_from_chars(&t)
                },
            };
            let iface = nic_to_interface(nic, k);
            put_entry(&mut ifs, name, iface);
            k = k + 1;
        }
        assert(nv.subrange(0, nics@.len() as int) =~= nv);
        ifs
    }

    /// The primary interface that the individual network keys describe, each where
    /// it could be read.
    pub fn primary_interface(
        &self,
        mac: Option<String>,
        ip: Option<String>,
        netmask: Option<String>,
        gateway: Option<String>,
    ) -> (r: Option<InterfaceConfig>)
        ensures
            match primary_interface_spec(opt_view(mac), opt_view(ip), opt_view(netmask), opt_view(gateway)) {
                Some(i) => r is Some && r->0@ == i,
                None => r is None,
            },
    {
        let mut addrs: Vec<AddressConfig> = Vec::new();
        match &ip {
            Some(a) => {
                let nm: &str = match &netmask {
                    Some(m) => m.as_str(),
                    None => "255.255.255.0",
                };
                let p = prefix_of(nm);
                let x = AddressConfig {
                    addr_type: AddressType::Static,
                    address: Some(address_text(a.as_str(), p as u64)),
                    gateway,
                    primary: true,
                };
                addrs.push(x);
                assert(addrs_view(addrs@) =~= seq![x@]);
            },
            None => {
                assert(addrs_view(addrs@) =~= Seq::<AddressConfigV>::empty());
            },
        }
        if addrs.len() > 0 || mac.is_some() {
            let r = InterfaceConfig {
                mac_address: mac,
                mtu: None,
                addresses: addrs,
                enabled: true,
                description: Some("SmartOS primary interface".to_owned()),
                vlan_id: None,
                parent: None,
            };
            assert(r@.addresses =~= addrs_view(r.addresses@));
            Some(r)
        } else {
            None
        }
    }
}


/// Whether a trimmed line is a comment.
pub open spec fn is_comment(t: Seq<char>) -> bool {
    t.len() > 0 && t[0] == '#'
}

/// The keys after the key lines of a text are added: each line trimmed, blank
/// lines and comments left out, and, where `unique`, keys already there.
pub open spec fn add_key_lines(keys: Seq<Seq<char>>, lines: Seq<Seq<char>>, unique: bool) -> Seq<Seq<char>>
    decreases lines.len(),
{
    if lines.len() == 0 {
        keys
    } else {
        let ks = add_key_lines(keys, lines.drop_last(), unique);
        let t = trim(lines.last());
        if t.len() > 0 && !is_comment(t) && !(unique && ks.contains(t)) {
            ks.push(t)
        } else {
            ks
        }
    }
}

/// The keys after the text values of an object's members are added, each that
/// is not already there.
pub open spec fn add_member_strings(keys: Seq<Seq<char>>, members: Seq<(Seq<char>, JsonV)>) -> Seq<Seq<char>>
    decreases members.len(),
{
    if members.len() == 0 {
        keys
    } else {
        let ks = add_member_strings(keys, members.drop_last());
        match members.last().1 {
            JsonV::Str(k) => if ks.contains(k) {
                ks
            } else {
                ks.push(k)
            },
            _ => ks,
        }
    }
}

/// The SSH keys of the `root_authorized_keys`, `sdc:ssh_keys` and
/// `authorized_keys` answers, each where it could be read; the `sdc:ssh_keys`
/// answer counts as a JSON object of keys where it reads as JSON (`sdc_json`),
/// else as lines of keys.
pub open spec fn smartos_keys(
    root: Option<Seq<char>>,
    sdc: Option<Seq<char>>,
    sdc_json: Option<JsonV>,
    authorized: Option<Seq<char>>,
) -> Seq<Seq<char>> {
    let k1 = match root {
        Some(t) => add_key_lines(Seq::empty(), str_lines(t), false),
        None => Seq::empty(),
    };
    let k2 = match sdc {
        Some(t) => match sdc_json {
            Some(JsonV::Object(m)) => add_member_strings(k1, m),
            Some(_) => k1,
            None => add_key_lines(k1, str_lines(t), true),
        },
        None => k1,
    };
    match authorized {
        Some(t) => add_key_lines(k2, str_lines(t), true),
        None => k2,
    }
}

/// The texts after the given ones are added: each trimmed, the blank ones and
/// those already there left out.
pub open spec fn add_unique_trimmed(acc: Seq<Seq<char>>, items: Seq<Seq<char>>) -> Seq<Seq<char>>
    decreases items.len(),
{
    if items.len() == 0 {
        acc
    } else {
        let a = add_unique_trimmed(acc, items.drop_last());
        let t = trim(items.last());
        if t.len() > 0 && !a.contains(t) {
            a.push(t)
        } else {
            a
        }
    }
}

/// The texts after the answers that could be read are added, as
/// `add_unique_trimmed` adds them.
pub open spec fn add_answers(acc: Seq<Seq<char>>, answers: Seq<Option<Seq<char>>>) -> Seq<Seq<char>>
    decreases answers.len(),
{
    if answers.len() == 0 {
        acc
    } else {
        let a = add_answers(acc, answers.drop_last());
        match answers.last() {
            Some(t) => add_unique_trimmed(a, seq![t]),
            None => a,
        }
    }
}

/// The name servers of the `sdc:resolvers` answer (a JSON list of strings, else
/// one per line) and of the individual resolver answers.
pub open spec fn smartos_nameservers(resolvers: Option<Seq<char>>, individual: Seq<Option<Seq<char>>>) -> Seq<Seq<char>> {
    let n1 = match resolvers {
        Some(r) => match json_string_list(r) {
            Some(list) => list,
            None => add_unique_trimmed(Seq::empty(), str_lines(r)),
        },
        None => Seq::empty(),
    };
    add_answers(n1, individual)
}

/// The pieces of a text between spaces, commas and newlines.
pub open spec fn split_hosts(s: Seq<char>) -> Seq<Seq<char>>
    decreases s.len(),
{
    if s.len() == 0 {
        seq![Seq::<char>::empty()]
    } else {
        let p = split_hosts(s.drop_last());
        if s.last() == ' ' || s.last() == ',' || s.last() == '\n' {
            p.push(Seq::<char>::empty())
        } else {
            p.update(p.len() - 1, p.last().push(s.last()))
        }
    }
}

/// The NTP servers of the `sdc:ntp_hosts` answer: a JSON list of strings, else
/// the hosts between spaces, commas and newlines.
pub open spec fn smartos_ntp(hosts: Option<Seq<char>>) -> Seq<Seq<char>> {
    match hosts {
        Some(h) => match json_string_list(h) {
            Some(list) => list,
            None => add_unique_trimmed(Seq::empty(), split_hosts(h)),
        },
        None => Seq::empty(),
    }
}

proof fn lemma_split_hosts_nonempty(s: Seq<char>)
    ensures
        split_hosts(s).len() >= 1,
    decreases s.len(),
{
    if s.len() > 0 {
        lemma_split_hosts_nonempty(s.drop_last());
    }
}

fn split_hosts_of(s: &Vec<char>) -> (r: Vec<Vec<char>>)
    ensures
        views_of(r@) == split_hosts(s@),
{
    let mut pieces: Vec<Vec<char>> = Vec::new();
    let mut cur: Vec<char> = Vec::new();
    let mut i: usize = 0;
    while i < s.len()
        invariant
            i <= s.len(),
            views_of(pieces@).push(cur@) == split_hosts(s@.subrange(0, i as int)),
        decreases s.len() - i,
    {
        let c = s[i];
        proof {
            let t = s@.subrange(0, i as int + 1);
            assert(t.drop_last() =~= s@.subrange(0, i as int));
            assert(t.last() == c);
            lemma_split_hosts_nonempty(s@.subrange(0, i as int));
        }
        if c == ' ' || c == ',' || c == '\n' {
            let mut done: Vec<char> = Vec::new();
            std::mem::swap(&mut done, &mut cur);
            pieces.push(done);
            assert(views_of(pieces@).push(cur@) =~= split_hosts(s@.subrange(0, i as int + 1)));
        } else {
            let ghost before = views_of(pieces@).push(cur@);
            cur.push(c);
            assert(views_of(pieces@).push(cur@) =~= before.update(before.len() - 1, before.last().push(c)));
        }
        i = i + 1;
    }
    pieces.push(cur);
    assert(s@.subrange(0, s.len() as int) =~= s@);
    assert(views_of(pieces@) =~= split_hosts(s@));
    pieces
}

fn push_key_lines(keys: &mut Vec<String>, text: &str, unique: bool)
    ensures
        strings_view(final(keys)@) == add_key_lines(strings_view(old(keys)@), str_lines(text@), unique),
{
    let ghost k0 = strings_view(keys@);
    let lines = lines_of(&chars_of(text));
    let ghost lv = views_of(lines@);
    let mut i: usize = 0;
    while i < lines.len()
        invariant
            i <= lines@.len(),
            lv == views_of(lines@),
            lv == str_lines(text@),
            strings_view(keys@) == add_key_lines(k0, lv.subrange(0, i as int), unique),
        decreases lines.len() - i,
    {
        proof {
            assert(lv.subrange(0, i as int + 1).drop_last() =~= lv.subrange(0, i as int));
            assert(lv.subrange(0, i as int + 1).last() == lines@[i as int]@);
        }
        let t = trim_chars(&lines[i]);
        if t.len() > 0 && t[0] != '#' {
            let ts = string_from_chars(&t);
            if !unique || !strings_contain(keys, &ts) {
                let ghost before = strings_view(keys@);
                keys.push(ts);
                assert(strings_view(keys@) =~= before.push(t@));
            }
        }
        i = i + 1;
    }
    assert(lv.subrange(0, lines@.len() as int) =~= lv);
}

fn push_unique_trimmed(acc: &mut Vec<String>, items: &Vec<Vec<char>>)
    ensures
        strings_view(final(acc)@) == add_unique_trimmed(strings_view(old(acc)@), views_of(items@)),
{
    let ghost a0 = strings_view(acc@);
    let ghost iv = views_of(items@);
    let mut i: usize = 0;
    while i < items.len()
        invariant
            i <= items@.len(),
            iv == views_of(items@),
            strings_view(acc@) == add_unique_trimmed(a0, iv.subrange(0, i as int)),
        decreases items.len() - i,
    {
        proof {
            assert(iv.subrange(0, i as int + 1).drop_last() =~= iv.subrange(0, i as int));
            assert(iv.subrange(0, i as int + 1).last() == items@[i as int]@);
        }
        let t = trim_chars(&items[i]);
        let ts = string_from_chars(&t);
        if t.len() > 0 && !strings_contain(acc, &ts) {
            let ghost before = strings_view(acc@);
            acc.push(ts);
            assert(strings_view(acc@) =~= before.push(t@));
        }
        i = i + 1;
    }
    assert(iv.subrange(0, items@.len() as int) =~= iv);
}

impl SmartOSSource {
    /// The SSH keys of the key answers, each where it could be read, as
    /// `smartos_keys` says; `sdc_json` is the `sdc:ssh_keys` answer read as JSON,
    /// where it reads as JSON.
    pub fn ssh_keys_from(
        &self,
        root: Option<&str>,
        sdc: Option<&str>,
        sdc_json: Option<&Json>,
        authorized: Option<&str>,
    ) -> (r: Vec<String>)
        ensures
            strings_view(r@) == smartos_keys(
                opt_str(root),
                opt_str(sdc),
                crate::json_access::opt_view(sdc_json),
                opt_str(authorized),
            ),
    {
        let mut keys: Vec<String> = Vec::new();
        assert(strings_view(keys@) =~= Seq::<Seq<char>>::empty());
        match root {
            Some(t) => push_key_lines(&mut keys, t, false),
            None => {},
        }
        let ghost k1s = match opt_str(root) {
            Some(t) => add_key_lines(Seq::empty(), str_lines(t), false),
            None => Seq::<Seq<char>>::empty(),
        };
        assert(strings_view(keys@) == k1s);
        match sdc {
            Some(t) => match sdc_json {
                Some(Json::Object(m)) => {
                    proof {
                        crate::json::lemma_object_view(*m);
                    }
                    let ghost k1 = strings_view(keys@);
                    let ghost mv = entries_view(m@);
                    let mut i: usize = 0;
                    while i < m.len()
                        invariant
                            i <= m@.len(),
                            mv == entries_view(m@),
                            strings_view(keys@) == add_member_strings(k1, mv.subrange(0, i as int)),
                        decreases m.len() - i,
                    {
                        proof {
                            assert(mv.subrange(0, i as int + 1).drop_last() =~= mv.subrange(0, i as int));
                            assert(mv.subrange(0, i as int + 1).last() == (m@[i as int].0@, m@[i as int].1@));
                        }
                        match &m[i].1 {
                            Json::Str(k) => {
                                if !strings_contain(&keys, k) {
                                    let ghost before = strings_view(keys@);
                                    keys.push(k.clone());
                                    assert(strings_view(keys@) =~= before.push(k@));
                                }
                            },
                            _ => {},
                        }
                        i = i + 1;
                    }
                    assert(mv.subrange(0, m@.len() as int) =~= mv);
                },
                Some(_) => {},
                None => push_key_lines(&mut keys, t, true),
            },
            None => {},
        }
        assert(strings_view(keys@) == match opt_str(sdc) {
            Some(t) => match crate::json_access::opt_view(sdc_json) {
                Some(JsonV::Object(m)) => add_member_strings(k1s, m),
                Some(_) => k1s,
                None => add_key_lines(k1s, str_lines(t), true),
            },
            None => k1s,
        });
        match authorized {
            Some(t) => push_key_lines(&mut keys, t, true),
            None => {},
        }
        keys
    }

    /// The name servers of the resolver answers, each where it could be read, as
    /// `smartos_nameservers` says.
    pub fn nameservers_from(&self, resolvers: Option<&str>, individual: &Vec<Option<String>>) -> (r: Vec<String>)
        ensures
            strings_view(r@) == smartos_nameservers(
                opt_str(resolvers),
                Seq::new(individual@.len(), |i: int| opt_view(individual@[i])),
            ),
    {
        let mut ns: Vec<String> = match resolvers {
            Some(r) => match parse_string_list(r) {
                Some(list) => list,
                None => {
                    let lines = lines_of(&chars_of(r));
                    let mut acc: Vec<String> = Vec::new();
                    assert(strings_view(acc@) =~= Seq::<Seq<char>>::empty());
                    push_unique_trimmed(&mut acc, &lines);
                    acc
                },
            },
            None => Vec::new(),
        };
        let ghost n1 = strings_view(ns@);
        assert(n1 == match opt_str(resolvers) {
            Some(r) => match json_string_list(r) {
                Some(list) => list,
                None => add_unique_trimmed(Seq::empty(), str_lines(r)),
            },
            None => Seq::<Seq<char>>::empty(),
        });
        let ghost av = Seq::new(individual@.len(), |i: int| opt_view(individual@[i]));
        let mut i: usize = 0;
        while i < individual.len()
            invariant
                i <= individual@.len(),
                av == Seq::new(individual@.len(), |i: int| opt_view(individual@[i])),
                strings_view(ns@) == add_answers(n1, av.subrange(0, i as int)),
            decreases individual.len() - i,
        {
            proof {
                assert(av.subrange(0, i as int + 1).drop_last() =~= av.subrange(0, i as int));
            }
            match &individual[i] {
                Some(t) => {
                    let one: Vec<Vec<char>> = vec![chars_of(t.as_str())];
                    assert(views_of(one@) =~= seq![t@]);
                    push_unique_trimmed(&mut ns, &one);
                },
                None => {},
            }
            i = i + 1;
        }
        assert(av.subrange(0, individual@.len() as int) =~= av);
        ns
    }

    /// The NTP servers of the `sdc:ntp_hosts` answer, where it could be read, as
    /// `smartos_ntp` says.
    pub fn ntp_servers_from(&self, hosts: Option<&str>) -> (r: Vec<String>)
        ensures
            strings_view(r@) == smartos_ntp(opt_str(hosts)),
    {
        match hosts {
            Some(h) => match parse_string_list(h) {
                Some(list) => list,
                None => {
                    let pieces = split_hosts_of(&chars_of(h));
                    let mut acc: Vec<String> = Vec::new();
                    assert(strings_view(acc@) =~= Seq::<Seq<char>>::empty());
                    push_unique_trimmed(&mut acc, &pieces);
                    acc
                },
            },
            None => Vec::new(),
        }
    }
}
} // verus!

verus! {

/// The interfaces that the `sdc:nics` answer describes: those of the array it
/// reads as, where it reads as a JSON array; none otherwise.
pub open spec fn smartos_nics(nics_text: Option<Seq<char>>) -> Map<Seq<char>, InterfaceConfigV> {
    match nics_text {
        Some(t) => match crate::json_text::json_text_value(t) {
            Some(JsonV::Array(items)) => nics_model(items),
            _ => Map::empty(),
        },
        None => Map::empty(),
    }
}

/// A metadata answer's value: what it reads as JSON, else the text itself.
pub open spec fn metadata_value_spec(text: Seq<char>) -> JsonV {
    match crate::json_text::json_text_value(text) {
        Some(v) => v,
        None => JsonV::Str(text),
    }
}

/// A metadata answer's value, as `metadata_value_spec` says.
pub fn metadata_value(text: String) -> (r: Json)
    ensures
        r@ == metadata_value_spec(text@),
{
    match crate::json_text::parse_json_text(text.as_str()) {
        Some(v) => v,
        None => Json::Str(text),
    }
}

impl SmartOSSource {
    /// The interfaces of the machine: those of the `sdc:nics` answer, and where
    /// it gives none, the primary interface that the individual network keys
    /// describe, named `net0`.
    pub fn network_config_from(
        &self,
        nics_text: Option<&str>,
        primary_mac: Option<String>,
        primary_ip: Option<String>,
        primary_netmask: Option<String>,
        primary_gateway: Option<String>,
    ) -> (r: Vec<(String, InterfaceConfig)>)
        ensures
            names_distinct(pairs_view(r@)),
            smartos_nics(opt_str(nics_text)) != Map::<Seq<char>, InterfaceConfigV>::empty() ==> entries_map(pairs_view(r@))
                == smartos_nics(opt_str(nics_text)),
            smartos_nics(opt_str(nics_text)) == Map::<Seq<char>, InterfaceConfigV>::empty() ==> match primary_interface_spec(
                opt_view(primary_mac),
                opt_view(primary_ip),
                opt_view(primary_netmask),
                opt_view(primary_gateway),
            ) {
                Some(i) => pairs_view(r@) == seq![("net0"@, i)],
                None => r@.len() == 0,
            },
    {
        let ghost nm = smartos_nics(opt_str(nics_text));
        let mut ifs: Vec<(String, InterfaceConfig)> = Vec::new();
        assert(pairs_view(ifs@) =~= Seq::<(Seq<char>, InterfaceConfigV)>::empty());
        match nics_text {
            Some(t) => match crate::json_text::parse_json_text(t) {
                Some(Json::Array(items)) => {
                    proof {
                        crate::json::lemma_array_view(items);
                    }
                    ifs = self.parse_nics(&items);
                },
                Some(other) => {
                    assert(!(other@ is Array));
                },
                None => {},
            },
            None => {},
        }
        assert(entries_map(pairs_view(ifs@)) == nm);
        proof {
            crate::keyed::lemma_entries_map_dom(pairs_view(ifs@));
        }
        if ifs.len() == 0 {
            assert(pairs_view(ifs@) =~= Seq::<(Seq<char>, InterfaceConfigV)>::empty());
            let mut out: Vec<(String, InterfaceConfig)> = Vec::new();
            match self.primary_interface(primary_mac, primary_ip, primary_netmask, primary_gateway) {
                Some(i) => {
                    out.push(("net0".to_owned(), i));
                    assert(pairs_view(out@) =~= seq![("net0"@, out@[0].1@)]);
                },
                None => {},
            }
            out
        } else {
            assert(entries_map(pairs_view(ifs@)).contains_key(pairs_view(ifs@)[0].0));
            ifs
        }
    }

    /// The SSH keys of the key answers, as `smartos_keys` says, with the
    /// `sdc:ssh_keys` answer read as JSON where it reads so.
    pub fn ssh_keys_of_answers(&self, root: Option<&str>, sdc: Option<&str>, authorized: Option<&str>) -> (r: Vec<String>)
        ensures
            strings_view(r@) == smartos_keys(
                opt_str(root),
                opt_str(sdc),
                match opt_str(sdc) {
                    Some(t) => crate::json_text::json_text_value(t),
                    None => None,
                },
                opt_str(authorized),
            ),
    {
        let parsed = match sdc {
            Some(t) => crate::json_text::parse_json_text(t),
            None => None,
        };
        match &parsed {
            Some(j) => self.ssh_keys_from(root, sdc, Some(j), authorized),
            None => self.ssh_keys_from(root, sdc, None, authorized),
        }
    }
}

} // verus!

verus! {

/// A nic with an `ip` gets, as its first address, a static address of that ip
/// with the prefix length its netmask encodes, carrying the nic's gateway,
/// primary as the nic says (else where it is the first nic); its MAC address is
/// the nic's, normalised.
pub proof fn law_nic_static_address(nic: JsonV, idx: nat, ip: Seq<char>, nm: Seq<char>, q: nat)
    requires
        jstr(jget(nic, "ip"@)) == Some(ip),
        jstr(jget(nic, "netmask"@)) == Some(nm),
        netmask_to_cidr_spec(nm) == Ok::<nat, crate::netutil::NetErrorKind>(q),
    ensures
        nic_interface(nic, idx).addresses.len() >= 1,
        nic_interface(nic, idx).addresses[0] == (AddressConfigV {
            addr_type: AddressType::Static,
            address: Some(ip + "/"@ + dec_digits(q)),
            gateway: jstr(jget(nic, "gateway"@)),
            primary: match jbool(jget(nic, "primary"@)) {
                Some(b) => b,
                None => idx == 0,
            },
        }),
        nic_interface(nic, idx).mac_address == opt_mac(jstr(jget(nic, "mac"@))),
{
    let i = nic_interface(nic, idx);
    let a0 = seq![
        AddressConfigV {
            addr_type: AddressType::Static,
            address: Some(ip + "/"@ + dec_digits(q)),
            gateway: jstr(jget(nic, "gateway"@)),
            primary: match jbool(jget(nic, "primary"@)) {
                Some(b) => b,
                None => idx == 0,
            },
        },
    ];
    match jarr(jget(nic, "ips"@)) {
        Some(items) => {
            assert((a0 + nic_ips(items))[0] == a0[0]);
        },
        None => {},
    }
}

/// Each nic is found under its name, where no later nic has the same name.
pub proof fn law_nic_under_its_name(nics: Seq<JsonV>, k: int)
    requires
        0 <= k < nics.len(),
        forall|j: int| k < j < nics.len() ==> nic_name(nics[j], j as nat) != nic_name(nics[k], k as nat),
    ensures
        nics_model(nics).contains_key(nic_name(nics[k], k as nat)),
        nics_model(nics)[nic_name(nics[k], k as nat)] == nic_interface(nics[k], k as nat),
    decreases nics.len(),
{
    if k < nics.len() - 1 {
        assert(nics.drop_last()[k] == nics[k]);
        assert forall|j: int| k < j < nics.drop_last().len() implies nic_name(nics.drop_last()[j], j as nat) != nic_name(
            nics.drop_last()[k],
            k as nat,
        ) by {
            assert(nics.drop_last()[j] == nics[j]);
        }
        law_nic_under_its_name(nics.drop_last(), k);
        let l = (nics.len() - 1) as int;
        assert(nic_name(nics[l], l as nat) != nic_name(nics[k], k as nat));
    }
}

/// With a primary IP and a netmask that reads as a prefix length, the primary
/// interface has exactly one address: that ip with that prefix length, the given
/// gateway, primary; it carries the given MAC address.
pub proof fn law_primary_interface_address(mac: Option<Seq<char>>, ip: Seq<char>, nm: Seq<char>, gateway: Option<Seq<char>>, q: nat)
    requires
        netmask_to_cidr_spec(nm) == Ok::<nat, crate::netutil::NetErrorKind>(q),
    ensures
        primary_interface_spec(mac, Some(ip), Some(nm), gateway) matches Some(i) && i.mac_address == mac && i.addresses
            == seq![
            AddressConfigV {
                addr_type: AddressType::Static,
                address: Some(ip + "/"@ + dec_digits(q)),
                gateway,
                primary: true,
            },
        ],
{
}

} // verus!

verus! {

proof fn lemma_add_unique_trimmed_keeps(acc: Seq<Seq<char>>, items: Seq<Seq<char>>)
    ensures
        forall|x: Seq<char>| acc.contains(x) ==> #[trigger] add_unique_trimmed(acc, items).contains(x),
        forall|k: int| 0 <= k < items.len() && trim(#[trigger] items[k]).len() > 0 ==> add_unique_trimmed(acc, items).contains(
            trim(items[k]),
        ),
    decreases items.len(),
{
    if items.len() > 0 {
        lemma_add_unique_trimmed_keeps(acc, items.drop_last());
        let a = add_unique_trimmed(acc, items.drop_last());
        let r = add_unique_trimmed(acc, items);
        let t = trim(items.last());
        assert forall|x: Seq<char>| a.contains(x) implies r.contains(x) by {
            if t.len() > 0 && !a.contains(t) {
                let j = choose|j: int| 0 <= j < a.len() && a[j] == x;
                assert(r[j] == x);
            }
        }
        assert forall|k: int| 0 <= k < items.len() && trim(#[trigger] items[k]).len() > 0 implies r.contains(trim(items[k])) by {
            if k < items.len() - 1 {
                assert(items.drop_last()[k] == items[k]);
                assert(a.contains(trim(items[k])));
            } else if !a.contains(t) {
                assert(r[a.len() as int] == t);
            }
        }
        assert forall|x: Seq<char>| acc.contains(x) implies #[trigger] r.contains(x) by {
            assert(a.contains(x));
        }
    }
}

proof fn lemma_add_answers_keeps(acc: Seq<Seq<char>>, answers: Seq<Option<Seq<char>>>)
    ensures
        forall|x: Seq<char>| acc.contains(x) ==> #[trigger] add_answers(acc, answers).contains(x),
        forall|k: int| 0 <= k < answers.len() && (#[trigger] answers[k]) is Some && trim(answers[k]->0).len() > 0
            ==> add_answers(acc, answers).contains(trim(answers[k]->0)),
    decreases answers.len(),
{
    if answers.len() > 0 {
        lemma_add_answers_keeps(acc, answers.drop_last());
        let a = add_answers(acc, answers.drop_last());
        match answers.last() {
            Some(t) => {
                lemma_add_unique_trimmed_keeps(a, seq![t]);
                assert(seq![t][0] == t);
            },
            None => {},
        }
        assert forall|k: int| 0 <= k < answers.len() && (#[trigger] answers[k]) is Some && trim(answers[k]->0).len() > 0
            implies add_answers(acc, answers).contains(trim(answers[k]->0)) by {
            if k < answers.len() - 1 {
                assert(answers.drop_last()[k] == answers[k]);
                assert(a.contains(trim(answers[k]->0)));
            }
        }
    }
}

/// Every individual resolver answer that is not blank is among the name
/// servers, trimmed, and so is every name server of the `sdc:resolvers` list.
pub proof fn law_smartos_nameservers_keep_every_answer(resolvers: Option<Seq<char>>, individual: Seq<Option<Seq<char>>>, k: int)
    ensures
        (0 <= k < individual.len() && individual[k] is Some && trim(individual[k]->0).len() > 0) ==> smartos_nameservers(
            resolvers,
            individual,
        ).contains(trim(individual[k]->0)),
        (resolvers is Some && json_string_list(resolvers->0) is Some && 0 <= k < json_string_list(resolvers->0)->0.len())
            ==> smartos_nameservers(resolvers, individual).contains(json_string_list(resolvers->0)->0[k]),
{
    let n1 = match resolvers {
        Some(r) => match json_string_list(r) {
            Some(list) => list,
            None => add_unique_trimmed(Seq::empty(), str_lines(r)),
        },
        None => Seq::empty(),
    };
    lemma_add_answers_keeps(n1, individual);
    if resolvers is Some && json_string_list(resolvers->0) is Some && 0 <= k < json_string_list(resolvers->0)->0.len() {
        assert(n1[k] == json_string_list(resolvers->0)->0[k]);
        assert(n1.contains(json_string_list(resolvers->0)->0[k]));
    }
}

/// Every host of a plain `sdc:ntp_hosts` answer (pieces between spaces, commas
/// and newlines) that is not blank is among the NTP servers, trimmed; a JSON
/// list answer is taken as it is.
pub proof fn law_smartos_ntp_keeps_every_host(h: Seq<char>, k: int)
    ensures
        (json_string_list(h) is None && 0 <= k < split_hosts(h).len() && trim(split_hosts(h)[k]).len() > 0)
            ==> smartos_ntp(Some(h)).contains(trim(split_hosts(h)[k])),
        json_string_list(h) is Some ==> smartos_ntp(Some(h)) == json_string_list(h)->0,
{
    lemma_add_unique_trimmed_keeps(Seq::empty(), split_hosts(h));
}

} // verus!
