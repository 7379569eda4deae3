//! Reading the answers of the EC2 instance metadata service: host name,
//! network interfaces, SSH keys, tags and instance metadata.
use vstd::prelude::*;
use crate::json::{entries_view, members_insert, lemma_object_view, obj_insert, Json, JsonV};
use crate::keyed::{entries_map, names_distinct, pairs_view, put_entry};
use crate::kdl_parser::strings_view;
use crate::meta_text::{nonempty_trimmed, short_hostname, short_hostname_of, trimmed_lines, trimmed_lines_of};
use crate::netutil::{normal_mac, normalize_mac_address};
use crate::openstack::{addrs_view, dynamic, dynamic_address};
use crate::gcp::{opt_trim, put_text, put_text_entry, trimmed};
use crate::prov_config::{AddressConfig, AddressConfigV, AddressType, InterfaceConfig, InterfaceConfigV};
use crate::smartos::address_text;
use crate::sources::EC2Source;
use crate::text::{
    append_chars, chars_of, dec_digits, find_char, first_index, lemma_first_index_bounds, lines_of, opt_str,
    parse_unsigned, parse_unsigned_chars, slice_chars, str_lines, string_from_chars, trim, trim_chars, u64_to_dec,
    views_of,
};

verus! {

/// The text without the slashes at its end, as `trim_end_matches('/')` gives it.
pub open spec fn strip_slashes(s: Seq<char>) -> Seq<char>
    decreases s.len(),
{
    if s.len() > 0 && s.last() == '/' {
        strip_slashes(s.drop_last())
    } else {
        s
    }
}

/// The MAC addresses of the listed lines: each line without its trailing
/// slashes, the empty ones left out.
pub open spec fn mac_lines(lines: Seq<Seq<char>>) -> Seq<Seq<char>>
    decreases lines.len(),
{
    if lines.len() == 0 {
        Seq::empty()
    } else if strip_slashes(lines.last()).len() > 0 {
        mac_lines(lines.drop_last()).push(strip_slashes(lines.last()))
    } else {
        mac_lines(lines.drop_last())
    }
}

/// The prefix length after the `/` of a CIDR block, 24 where there is none that
/// reads as a `u8`.
pub open spec fn cidr_prefix(cidr: Seq<char>) -> nat {
    match first_index(cidr, '/') {
        Some(i) => match parse_unsigned(cidr.subrange(i + 1, cidr.len() as int), 255) {
            Some(p) => p,
            None => 24,
        },
        None => 24,
    }
}

/// The interface with the given MAC address: its IPv4 addresses with their
/// prefix lengths (the first primary), then the IPv6 addresses listed, and DHCP
/// where there is none.
pub open spec fn ec2_interface(mac: Seq<char>, ipv4: Seq<(Seq<char>, u8)>, ipv6_text: Option<Seq<char>>) -> InterfaceConfigV {
    let a0 = Seq::new(
        ipv4.len(),
        |i: int|
            AddressConfigV {
                addr_type: AddressType::Static,
                address: Some(ipv4[i].0 + "/"@ + dec_digits(ipv4[i].1 as nat)),
                gateway: None,
                primary: i == 0,
            },
    );
    let v6 = match ipv6_text {
        Some(t) => trimmed_lines(t),
        None => Seq::empty(),
    };
    let a1 = a0 + Seq::new(
        v6.len(),
        |i: int| AddressConfigV { addr_type: AddressType::Static, address: Some(v6[i]), gateway: None, primary: false },
    );
    InterfaceConfigV {
        mac_address: Some(normal_mac(mac)),
        mtu: None,
        addresses: if a1.len() == 0 {
            seq![dynamic_address(AddressType::Dhcp4, true)]
        } else {
            a1
        },
        enabled: true,
        description: Some("EC2 network interface"@),
        vlan_id: None,
        parent: None,
    }
}

/// The interfaces in order, named `eth` and their position.
pub open spec fn numbered_interfaces(ifs: Seq<InterfaceConfigV>) -> Map<Seq<char>, InterfaceConfigV>
    decreases ifs.len(),
{
    if ifs.len() == 0 {
        Map::empty()
    } else {
        numbered_interfaces(ifs.drop_last()).insert("eth"@ + dec_digits((ifs.len() - 1) as nat), ifs.last())
    }
}

/// The indexes of the listed public keys: the text before the first `=` of each
/// non-empty line that has one.
pub open spec fn key_indexes(lines: Seq<Seq<char>>) -> Seq<Seq<char>>
    decreases lines.len(),
{
    if lines.len() == 0 {
        Seq::empty()
    } else {
        let ks = key_indexes(lines.drop_last());
        let l = lines.last();
        if l.len() > 0 {
            match first_index(l, '=') {
                Some(i) => ks.push(l.subrange(0, i)),
                None => ks,
            }
        } else {
            ks
        }
    }
}

/// The tags as a JSON object: each value trimmed, in key order, a later tag
/// replacing an earlier one of the same name.
pub open spec fn tags_object(tags: Seq<(Seq<char>, Seq<char>)>) -> Seq<(Seq<char>, JsonV)>
    decreases tags.len(),
{
    if tags.len() == 0 {
        Seq::empty()
    } else {
        obj_insert(tags_object(tags.drop_last()), tags.last().0, JsonV::Str(trim(tags.last().1)))
    }
}

/// The first line of a text, empty where it has none.
pub open spec fn first_line(t: Seq<char>) -> Seq<char> {
    if str_lines(t).len() > 0 {
        str_lines(t)[0]
    } else {
        Seq::empty()
    }
}

/// The instance metadata that the answers give, each where it could be read:
/// trimmed identifiers and placement, the IAM role on the first line of its
/// answer where that is not blank, and the tags.
pub open spec fn ec2_metadata(
    id: Option<Seq<char>>,
    instance_type: Option<Seq<char>>,
    zone: Option<Seq<char>>,
    region: Option<Seq<char>>,
    public_hostname: Option<Seq<char>>,
    public_ipv4: Option<Seq<char>>,
    iam: Option<Seq<char>>,
    tags: Seq<(Seq<char>, Seq<char>)>,
) -> Map<Seq<char>, JsonV> {
    let m1 = put_text(Map::empty(), "instance-id"@, opt_trim(id));
    let m2 = put_text(m1, "instance-type"@, opt_trim(instance_type));
    let m3 = put_text(m2, "availability-zone"@, opt_trim(zone));
    let m4 = put_text(m3, "region"@, opt_trim(region));
    let m5 = put_text(m4, "public-hostname"@, opt_trim(public_hostname));
    let m6 = put_text(m5, "public-ipv4"@, opt_trim(public_ipv4));
    let m7 = match iam {
        Some(t) => if trim(first_line(t)).len() > 0 {
            m6.insert("iam-role"@, JsonV::Str(trim(first_line(t))))
        } else {
            m6
        },
        None => m6,
    };
    m7.insert("tags"@, JsonV::Object(tags_object(tags)))
}


fn strip_slashes_of(s: &Vec<char>) -> (r: Vec<char>)
    ensures
        r@ == strip_slashes(s@),
{
    let mut n: usize = s.len();
    assert(s@.subrange(0, n as int) =~= s@);
    while n > 0 && s[n - 1] == '/'
        invariant
            n <= s@.len(),
            strip_slashes(s@) == strip_slashes(s@.subrange(0, n as int)),
        decreases n,
    {
        assert(s@.subrange(0, n as int).drop_last() =~= s@.subrange(0, n as int - 1));
        n = n - 1;
    }
    slice_chars(s, 0, n)
}

fn tags_members(tags: &Vec<(String, String)>) -> (r: Vec<(String, Json)>)
    ensures
        entries_view(r@) == tags_object(Seq::new(tags@.len(), |i: int| (tags@[i].0@, tags@[i].1@))),
{
    let ghost tv = Seq::new(tags@.len(), |i: int| (tags@[i].0@, tags@[i].1@));
    let mut e: Vec<(String, Json)> = Vec::new();
    let mut i: usize = 0;
    assert(entries_view(e@) =~= tags_object(tv.subrange(0, 0)));
    while i < tags.len()
        invariant
            i <= tags@.len(),
            tv == Seq::new(tags@.len(), |i: int| (tags@[i].0@, tags@[i].1@)),
            entries_view(e@) == tags_object(tv.subrange(0, i as int)),
        decreases tags.len() - i,
    {
        proof {
            assert(tv.subrange(0, i as int + 1).drop_last() =~= tv.subrange(0, i as int));
        }
        let v = trim_chars(&chars_of(tags[i].1.as_str()));
        members_insert(&mut e, &chars_of(tags[i].0.as_str()), Json::Str(string_from_chars(&v)));
        i = i + 1;
    }
    assert(tv.subrange(0, tags@.len() as int) =~= tv);
    e
}

impl EC2Source {
    /// The host name in the answer for the instance's host name, as
    /// `short_hostname` says.
    pub fn hostname_from(text: &str) -> (r: String)
        ensures
            r@ == short_hostname(text@),
    {
        short_hostname_of(text)
    }

    /// The MAC addresses that the interface list gives, as `mac_lines` says.
    pub fn interface_macs(text: &str) -> (r: Vec<String>)
        ensures
            strings_view(r@) == mac_lines(str_lines(text@)),
    {
        let lines = lines_of(&chars_of(text));
        let ghost lv = views_of(lines@);
        let mut out: Vec<String> = Vec::new();
        let mut i: usize = 0;
        assert(strings_view(out@) =~= mac_lines(lv.subrange(0, 0)));
        while i < lines.len()
            invariant
                i <= lines@.len(),
                lv == views_of(lines@),
                strings_view(out@) == mac_lines(lv.subrange(0, i as int)),
            decreases lines.len() - i,
        {
            proof {
                assert(lv.subrange(0, i as int + 1).drop_last() =~= lv.subrange(0, i as int));
                assert(lv.subrange(0, i as int + 1).last() == lines@[i as int]@);
            }
            let m = strip_slashes_of(&lines[i]);
            if m.len() > 0 {
                let ghost before = strings_view(out@);
                out.push(string_from_chars(&m));
                assert(strings_view(out@) =~= before.push(m@));
            }
            i = i + 1;
        }
        assert(lv.subrange(0, lines@.len() as int) =~= lv);
        out
    }

    /// The addresses listed one per line: trimmed, the blank lines left out.
    pub fn address_lines(text: &str) -> (r: Vec<String>)
        ensures
            strings_view(r@) == trimmed_lines(text@),
    {
        trimmed_lines_of(text)
    }

    /// The prefix length of a subnet's CIDR block, as `cidr_prefix` says.
    pub fn subnet_prefix(cidr: &str) -> (r: u8)
        ensures
            r as nat == cidr_prefix(cidr@),
    {
        let c = chars_of(cidr);
        proof {
            lemma_first_index_bounds(c@, '/');
        }
        match find_char(&c, '/') {
            Some(i) => {
                assert(i < c.len());
                match parse_unsigned_chars(&slice_chars(&c, i + 1, c.len()), 255) {
                    Some(p) => p as u8,
                    None => 24,
                }
            },
            None => 24,
        }
    }

    /// The interface with the MAC address `mac`, its IPv4 addresses with their
    /// prefix lengths, and the answer that lists its IPv6 addresses where it
    /// could be read; as `ec2_interface` says.
    pub fn interface_from(mac: &str, ipv4: &Vec<(String, u8)>, ipv6_text: Option<&str>) -> (r: InterfaceConfig)
        ensures
            r@ == ec2_interface(mac@, Seq::new(ipv4@.len(), |i: int| (ipv4@[i].0@, ipv4@[i].1)), opt_str(ipv6_text)),
    {
        let ghost pv = Seq::new(ipv4@.len(), |i: int| (ipv4@[i].0@, ipv4@[i].1));
        let mut addrs: Vec<AddressConfig> = Vec::new();
        let mut i: usize = 0;
        while i < ipv4.len()
            invariant
                i <= ipv4@.len(),
                pv == Seq::new(ipv4@.len(), |i: int| (ipv4@[i].0@, ipv4@[i].1)),
                addrs_view(addrs@) =~= Seq::new(
                    i as nat,
                    |k: int|
                        AddressConfigV {
                            addr_type: AddressType::Static,
                            address: Some(pv[k].0 + "/"@ + dec_digits(pv[k].1 as nat)),
                            gateway: None,
                            primary: k == 0,
                        },
                ),
            decreases ipv4.len() - i,
        {
            let a = AddressConfig {
                addr_type: AddressType::Static,
                address: Some(address_text(ipv4[i].0.as_str(), ipv4[i].1 as u64)),
                gateway: None,
                primary: addrs.len() == 0,
            };
            let ghost before = addrs_view(addrs@);
            addrs.push(a);
            assert(addrs_view(addrs@) =~= before.push(a@));
            i = i + 1;
        }
        let ghost a0 = addrs_view(addrs@);
        let v6 = match ipv6_text {
            Some(t) => trimmed_lines_of(t),
            None => Vec::new(),
        };
        let ghost v6v = strings_view(v6@);
        assert(v6v == match opt_str(ipv6_text) {
            Some(t) => trimmed_lines(t),
            None => Seq::<Seq<char>>::empty(),
        });
        let mut j: usize = 0;
        while j < v6.len()
            invariant
                j <= v6@.len(),
                v6v == strings_view(v6@),
                addrs_view(addrs@) =~= a0 + Seq::new(
                    j as nat,
                    |k: int| AddressConfigV { addr_type: AddressType::Static, address: Some(v6v[k]), gateway: None, primary: false },
                ),
            decreases v6.len() - j,
        {
            let a = AddressConfig { addr_type: AddressType::Static, address: Some(v6[j].clone()), gateway: None, primary: false };
            let ghost before = addrs_view(addrs@);
            addrs.push(a);
            assert(addrs_view(addrs@) =~= before.push(a@));
            j = j + 1;
        }
        if addrs.len() == 0 {
            let x = dynamic(AddressType::Dhcp4, true);
            addrs.push(x);
            assert(addrs_view(addrs@) =~= seq![x@]);
        }
        let r = InterfaceConfig {
            mac_address: Some(normalize_mac_address(mac)),
            mtu: None,
            addresses: addrs,
            enabled: true,
            description: Some("EC2 network interface".to_owned()),
            vlan_id: None,
            parent: None,
        };
        assert(r@.addresses =~= addrs_view(r.addresses@));
        r
    }

    /// The interfaces in order, named `eth` and their position, as
    /// `numbered_interfaces` says.
    pub fn name_interfaces(ifs: Vec<InterfaceConfig>) -> (r: Vec<(String, InterfaceConfig)>)
        ensures
            names_distinct(pairs_view(r@)),
            entries_map(pairs_view(r@)) == numbered_interfaces(Seq::new(ifs@.len(), |i: int| ifs@[i]@)),
    {
        let ghost iv = Seq::new(ifs@.len(), |i: int| ifs@[i]@);
        let mut out: Vec<(String, InterfaceConfig)> = Vec::new();
        assert(pairs_view(out@) =~= Seq::<(Seq<char>, InterfaceConfigV)>::empty());
        let mut rest = ifs;
        let n = rest.len();
        let mut k: usize = 0;
        while rest.len() > 0
            invariant
                k + rest@.len() == n,
                n == iv.len(),
                forall|j: int| 0 <= j < rest@.len() ==> rest@[j]@ == iv[k + j],
                names_distinct(pairs_view(out@)),
                entries_map(pairs_view(out@)) == numbered_interfaces(iv.subrange(0, k as int)),
            decreases rest@.len(),
        {
            let ghost r0 = rest@;
            let x = rest.remove(0);
            proof {
                assert(x@ == iv[k as int]);
                assert forall|j: int| 0 <= j < rest@.len() implies rest@[j]@ == iv[k + 1 + j] by {
                    assert(rest@[j] == r0[j + 1]);
                }
                assert(iv.subrange(0, k as int + 1).drop_last() =~= iv.subrange(0, k as int));
            }
            let mut name = chars_of("eth");
            append_chars(&mut name, &u64_to_dec(k as u64));
            put_entry(&mut out, string_from_chars(&name), x);
            k = k + 1;
        }
        assert(iv.subrange(0, n as int) =~= iv);
        out
    }

    /// The indexes of the keys that the public-keys list gives, as `key_indexes`
    /// says.
    pub fn public_key_indexes(text: &str) -> (r: Vec<String>)
        ensures
            strings_view(r@) == key_indexes(str_lines(text@)),
    {
        let lines = lines_of(&chars_of(text));
        let ghost lv = views_of(lines@);
        let mut out: Vec<String> = Vec::new();
        let mut i: usize = 0;
        assert(strings_view(out@) =~= key_indexes(lv.subrange(0, 0)));
        while i < lines.len()
            invariant
                i <= lines@.len(),
                lv == views_of(lines@),
                strings_view(out@) == key_indexes(lv.subrange(0, i as int)),
            decreases lines.len() - i,
        {
            proof {
                assert(lv.subrange(0, i as int + 1).drop_last() =~= lv.subrange(0, i as int));
                assert(lv.subrange(0, i as int + 1).last() == lines@[i as int]@);
                lemma_first_index_bounds(lines@[i as int]@, '=');
            }
            let l = &lines[i];
            if l.len() > 0 {
                match find_char(l, '=') {
                    Some(p) => {
                        let ghost before = strings_view(out@);
                        let x = slice_chars(l, 0, p);
                        out.push(string_from_chars(&x));
                        assert(strings_view(out@) =~= before.push(x@));
                    },
                    None => {},
                }
            }
            i = i + 1;
        }
        assert(lv.subrange(0, lines@.len() as int) =~= lv);
        out
    }

    /// The SSH keys that the answers for the listed keys give: trimmed, the blank
    /// ones left out.
    pub fn public_keys_from(answers: &Vec<String>) -> (r: Vec<String>)
        ensures
            strings_view(r@) == nonempty_trimmed(strings_view(answers@)),
    {
        let ghost av = strings_view(answers@);
        let mut out: Vec<String> = Vec::new();
        let mut i: usize = 0;
        assert(strings_view(out@) =~= nonempty_trimmed(av.subrange(0, 0)));
        while i < answers.len()
            invariant
                i <= answers@.len(),
                av == strings_view(answers@),
                strings_view(out@) == nonempty_trimmed(av.subrange(0, i as int)),
            decreases answers.len() - i,
        {
            proof {
                assert(av.subrange(0, i as int + 1).drop_last() =~= av.subrange(0, i as int));
                assert(av.subrange(0, i as int + 1).last() == answers@[i as int]@);
            }
            let t = trim_chars(&chars_of(answers[i].as_str()));
            if t.len() > 0 {
                let ghost before = strings_view(out@);
                out.push(string_from_chars(&t));
                assert(strings_view(out@) =~= before.push(t@));
            }
            i = i + 1;
        }
        assert(av.subrange(0, answers@.len() as int) =~= av);
        out
    }

    /// The instance metadata that the answers give, each where it could be read,
    /// with the tags read (name and answer); as `ec2_metadata` says.
    pub fn instance_metadata(
        id: Option<&str>,
        instance_type: Option<&str>,
        zone: Option<&str>,
        region: Option<&str>,
        public_hostname: Option<&str>,
        public_ipv4: Option<&str>,
        iam: Option<&str>,
        tags: &Vec<(String, String)>,
    ) -> (r: Vec<(String, Json)>)
        ensures
            names_distinct(pairs_view(r@)),
            entries_map(pairs_view(r@)) == ec2_metadata(
                opt_str(id),
                opt_str(instance_type),
                opt_str(zone),
                opt_str(region),
                opt_str(public_hostname),
                opt_str(public_ipv4),
                opt_str(iam),
                Seq::new(tags@.len(), |i: int| (tags@[i].0@, tags@[i].1@)),
            ),
    {
        let mut m: Vec<(String, Json)> = Vec::new();
        assert(pairs_view(m@) =~= Seq::<(Seq<char>, JsonV)>::empty());
        put_text_entry(&mut m, "instance-id", trimmed(id));
        put_text_entry(&mut m, "instance-type", trimmed(instance_type));
        put_text_entry(&mut m, "availability-zone", trimmed(zone));
        put_text_entry(&mut m, "region", trimmed(region));
        put_text_entry(&mut m, "public-hostname", trimmed(public_hostname));
        put_text_entry(&mut m, "public-ipv4", trimmed(public_ipv4));
        match iam {
            Some(t) => {
                let lines = lines_of(&chars_of(t));
                let first: Vec<char> = if lines.len() > 0 {
                    lines[0].clone()
                } else {
                    Vec::new()
                };
                assert(first@ == first_line(t@));
                let role = trim_chars(&first);
                if role.len() > 0 {
                    put_entry(&mut m, "iam-role".to_owned(), Json::Str(string_from_chars(&role)));
                }
            },
            None => {},
        }
        let e = tags_members(tags);
        proof {
            lemma_object_view(e);
        }
        put_entry(&mut m, "tags".to_owned(), Json::Object(e));
        m
    }
}

/// Every EC2 interface has at least one address: DHCP where none is listed;
/// where it has an IPv4 address, the first address is primary.
pub proof fn law_ec2_interface_has_an_address(mac: Seq<char>, ipv4: Seq<(Seq<char>, u8)>, ipv6_text: Option<Seq<char>>)
    ensures
        ec2_interface(mac, ipv4, ipv6_text).addresses.len() > 0,
        ipv4.len() > 0 ==> ec2_interface(mac, ipv4, ipv6_text).addresses[0].primary,
{
}
} // verus!

verus! {

proof fn lemma_no_index(s: Seq<char>, c: char)
    requires
        forall|i: int| 0 <= i < s.len() ==> s[i] != c,
    ensures
        crate::text::first_index(s, c) is None,
    decreases s.len(),
{
    if s.len() > 0 {
        lemma_no_index(s.drop_last(), c);
    }
}

proof fn lemma_first_slash(net: Seq<char>, rest: Seq<char>)
    requires
        forall|i: int| 0 <= i < net.len() ==> net[i] != '/',
    ensures
        crate::text::first_index(net + seq!['/'] + rest, '/') == Some(net.len() as int),
    decreases rest.len(),
{
    let s = net + seq!['/'] + rest;
    if rest.len() == 0 {
        assert(s.drop_last() =~= net);
        lemma_no_index(net, '/');
    } else {
        assert(s.drop_last() =~= net + seq!['/'] + rest.drop_last());
        lemma_first_slash(net, rest.drop_last());
    }
}

/// A CIDR block `net/q` (with no slash in `net`) has the prefix length `q`.
pub proof fn law_cidr_prefix_reads_the_length(net: Seq<char>, q: nat)
    requires
        forall|i: int| 0 <= i < net.len() ==> net[i] != '/',
        q <= 255,
    ensures
        cidr_prefix(net + "/"@ + dec_digits(q)) == q,
{
    reveal_strlit("/");
    assert("/"@ =~= seq!['/']);
    let s = net + "/"@ + dec_digits(q);
    lemma_first_slash(net, dec_digits(q));
    assert(s.subrange(net.len() as int + 1, s.len() as int) =~= dec_digits(q));
    crate::text::lemma_parse_dec_digits(q, 255);
}

/// Each IPv4 address of an interface keeps its own prefix length, in order, the
/// first primary, without a gateway; the MAC address is normalised.
pub proof fn law_ec2_ipv4_addresses(mac: Seq<char>, ipv4: Seq<(Seq<char>, u8)>, ipv6_text: Option<Seq<char>>, k: int)
    requires
        0 <= k < ipv4.len(),
    ensures
        ec2_interface(mac, ipv4, ipv6_text).addresses[k] == (AddressConfigV {
            addr_type: AddressType::Static,
            address: Some(ipv4[k].0 + "/"@ + dec_digits(ipv4[k].1 as nat)),
            gateway: None,
            primary: k == 0,
        }),
        ec2_interface(mac, ipv4, ipv6_text).mac_address == Some(normal_mac(mac)),
{
}

} // verus!
