//! The JSON form of provisioning configurations, and the system state that a
//! configuration stands for.
use vstd::prelude::*;
use crate::json::{entries_view, items_view, lemma_array_view, lemma_object_view, members_insert, obj_insert, Json, JsonV};
use crate::keyed::pairs_view;
use crate::kdl_parser::{opt_view, strings_view};
use crate::prov_config::{
    AddressConfig, AddressConfigV, AddressType, InterfaceConfig, InterfaceConfigV, ProvisioningConfig, RouteConfig,
    RouteConfigV, UserConfig, UserConfigV,
};
use crate::text::chars_of;

verus! {

/// A member that is present only where its value is.
pub open spec fn opt_member(key: Seq<char>, v: Option<JsonV>) -> Seq<(Seq<char>, JsonV)> {
    match v {
        Some(x) => seq![(key, x)],
        None => Seq::empty(),
    }
}

/// A text value, where there is a text.
pub open spec fn opt_text(o: Option<Seq<char>>) -> Option<JsonV> {
    match o {
        Some(t) => Some(JsonV::Str(t)),
        None => None,
    }
}

/// A number value, where there is a number.
pub open spec fn opt_num(o: Option<u64>) -> Option<JsonV> {
    match o {
        Some(n) => Some(JsonV::PosInt(n)),
        None => None,
    }
}

/// A list of texts.
pub open spec fn texts_json(v: Seq<Seq<char>>) -> JsonV {
    JsonV::Array(Seq::new(v.len(), |i: int| JsonV::Str(v[i])))
}

/// A member holding a list of texts, present only where the list is not empty.
pub open spec fn texts_member(key: Seq<char>, v: Seq<Seq<char>>) -> Seq<(Seq<char>, JsonV)> {
    if v.len() > 0 {
        seq![(key, texts_json(v))]
    } else {
        Seq::empty()
    }
}

/// The name under which an address type is written.
pub open spec fn address_type_name(t: AddressType) -> Seq<char> {
    match t {
        AddressType::Dhcp4 => "dhcp4"@,
        AddressType::Dhcp6 => "dhcp6"@,
        AddressType::Dhcp => "dhcp"@,
        AddressType::Static => "static"@,
        AddressType::Slaac => "slaac"@,
        AddressType::Addrconf => "addrconf"@,
    }
}

/// The JSON form of an address: its type under `type`, absent parts left out.
pub open spec fn address_json(a: AddressConfigV) -> JsonV {
    JsonV::Object(
        opt_member("address"@, opt_text(a.address)) + opt_member("gateway"@, opt_text(a.gateway)) + seq![
            ("primary"@, JsonV::Bool(a.primary)),
            ("type"@, JsonV::Str(address_type_name(a.addr_type))),
        ],
    )
}

/// The JSON form of an interface, absent parts left out.
pub open spec fn interface_json(i: InterfaceConfigV) -> JsonV {
    JsonV::Object(
        seq![("addresses"@, JsonV::Array(Seq::new(i.addresses.len(), |k: int| address_json(i.addresses[k]))))]
            + opt_member("description"@, opt_text(i.description)) + seq![("enabled"@, JsonV::Bool(i.enabled))]
            + opt_member("mac_address"@, opt_text(i.mac_address)) + opt_member(
            "mtu"@,
            opt_num(
                match i.mtu {
                    Some(m) => Some(m as u64),
                    None => None,
                },
            ),
        ) + opt_member("parent"@, opt_text(i.parent)) + opt_member(
            "vlan_id"@,
            opt_num(
                match i.vlan_id {
                    Some(v) => Some(v as u64),
                    None => None,
                },
            ),
        ),
    )
}

/// The JSON form of a user, absent parts and empty lists left out.
pub open spec fn user_json(u: UserConfigV) -> JsonV {
    JsonV::Object(
        seq![("create_home"@, JsonV::Bool(u.create_home))] + opt_member("gecos"@, opt_text(u.gecos)) + opt_member(
            "group"@,
            opt_text(u.group),
        ) + texts_member("groups"@, u.groups) + opt_member("home"@, opt_text(u.home)) + seq![("name"@, JsonV::Str(u.name))]
            + opt_member("password_hash"@, opt_text(u.password_hash)) + opt_member("shell"@, opt_text(u.shell))
            + texts_member("ssh_authorized_keys"@, u.ssh_authorized_keys) + seq![("sudo"@, JsonV::Bool(u.sudo))]
            + opt_member(
            "uid"@,
            opt_num(
                match u.uid {
                    Some(n) => Some(n as u64),
                    None => None,
                },
            ),
        ),
    )
}

/// The JSON form of a route, absent parts left out.
pub open spec fn route_json(r: RouteConfigV) -> JsonV {
    JsonV::Object(
        seq![("destination"@, JsonV::Str(r.destination)), ("gateway"@, JsonV::Str(r.gateway))] + opt_member(
            "interface"@,
            opt_text(r.interface),
        ) + opt_member(
            "metric"@,
            opt_num(
                match r.metric {
                    Some(n) => Some(n as u64),
                    None => None,
                },
            ),
        ),
    )
}

/// The JSON list of routes.
pub open spec fn routes_json(rs: Seq<RouteConfigV>) -> JsonV {
    JsonV::Array(Seq::new(rs.len(), |i: int| route_json(rs[i])))
}

/// The JSON list of users.
pub open spec fn users_json(us: Seq<UserConfigV>) -> JsonV {
    JsonV::Array(Seq::new(us.len(), |i: int| user_json(us[i])))
}

/// The members after each entry is stored in turn, in key order.
pub open spec fn insert_members(m: Seq<(Seq<char>, JsonV)>, e: Seq<(Seq<char>, JsonV)>) -> Seq<(Seq<char>, JsonV)>
    decreases e.len(),
{
    if e.len() == 0 {
        m
    } else {
        obj_insert(insert_members(m, e.drop_last()), e.last().0, e.last().1)
    }
}

/// The `network.links` members: each interface under its name, then the routes.
pub open spec fn links_members(ifs: Seq<(Seq<char>, InterfaceConfigV)>, routes: Seq<RouteConfigV>) -> Seq<(Seq<char>, JsonV)> {
    let base = insert_members(Seq::empty(), Seq::new(ifs.len(), |i: int| (ifs[i].0, interface_json(ifs[i].1))));
    if routes.len() > 0 {
        obj_insert(base, "routes"@, routes_json(routes))
    } else {
        base
    }
}

/// The `network.settings` members: the DNS servers and search domains where
/// there are some, and the host name.
pub open spec fn settings_members(hostname: Option<Seq<char>>, ns: Seq<Seq<char>>, sd: Seq<Seq<char>>) -> Seq<(Seq<char>, JsonV)> {
    (if ns.len() > 0 || sd.len() > 0 {
        seq![("dns"@, JsonV::Object(texts_member("nameservers"@, ns) + texts_member("search"@, sd)))]
    } else {
        Seq::empty()
    }) + opt_member("hostname"@, opt_text(hostname))
}

/// The system state that a configuration stands for: the network settings and
/// links, SSH keys, users, NTP servers, time zone and metadata, each where the
/// configuration has some.
pub open spec fn config_state(
    hostname: Option<Seq<char>>,
    nameservers: Seq<Seq<char>>,
    search_domains: Seq<Seq<char>>,
    interfaces: Seq<(Seq<char>, InterfaceConfigV)>,
    routes: Seq<RouteConfigV>,
    keys: Seq<Seq<char>>,
    users: Seq<UserConfigV>,
    ntp: Seq<Seq<char>>,
    timezone: Option<Seq<char>>,
    metadata: Seq<(Seq<char>, JsonV)>,
) -> JsonV {
    let has_settings = hostname is Some || nameservers.len() > 0 || search_domains.len() > 0;
    let has_links = interfaces.len() > 0 || routes.len() > 0;
    let network = (if has_links {
        seq![("links"@, JsonV::Object(links_members(interfaces, routes)))]
    } else {
        Seq::empty()
    }) + (if has_settings {
        seq![("settings"@, JsonV::Object(settings_members(hostname, nameservers, search_domains)))]
    } else {
        Seq::empty()
    });
    JsonV::Object(
        (if metadata.len() > 0 {
            seq![("metadata"@, JsonV::Object(insert_members(Seq::empty(), metadata)))]
        } else {
            Seq::empty()
        }) + (if has_settings || has_links {
            seq![("network"@, JsonV::Object(network))]
        } else {
            Seq::empty()
        }) + texts_member("ntp_servers"@, ntp) + texts_member("ssh_authorized_keys"@, keys) + opt_member(
            "timezone"@,
            opt_text(timezone),
        ) + (if users.len() > 0 {
            seq![("users"@, users_json(users))]
        } else {
            Seq::empty()
        }),
    )
}


fn push_member(m: &mut Vec<(String, Json)>, key: &str, v: Json)
    ensures
        entries_view(final(m)@) == entries_view(old(m)@) + seq![(key@, v@)],
{
    let ghost before = entries_view(m@);
    let ghost vv = v@;
    m.push((key.to_owned(), v));
    assert(entries_view(m@) =~= before + seq![(key@, vv)]);
}

fn push_opt_text(m: &mut Vec<(String, Json)>, key: &str, o: &Option<String>)
    ensures
        entries_view(final(m)@) == entries_view(old(m)@) + opt_member(key@, opt_text(opt_view(*o))),
{
    match o {
        Some(t) => push_member(m, key, Json::Str(t.clone())),
        None => {
            assert(entries_view(m@) =~= entries_view(m@) + Seq::<(Seq<char>, JsonV)>::empty());
        },
    }
}

fn push_opt_num(m: &mut Vec<(String, Json)>, key: &str, o: Option<u64>)
    ensures
        entries_view(final(m)@) == entries_view(old(m)@) + opt_member(key@, opt_num(o)),
{
    match o {
        Some(n) => push_member(m, key, Json::PosInt(n)),
        None => {
            assert(entries_view(m@) =~= entries_view(m@) + Seq::<(Seq<char>, JsonV)>::empty());
        },
    }
}

/// The JSON list of some texts.
pub fn texts_value(v: &Vec<String>) -> (r: Json)
    ensures
        r@ == texts_json(strings_view(v@)),
{
    let mut items: Vec<Json> = Vec::new();
    let mut i: usize = 0;
    while i < v.len()
        invariant
            i <= v@.len(),
            items_view(items@) =~= Seq::new(i as nat, |k: int| JsonV::Str(v@[k]@)),
        decreases v.len() - i,
    {
        let ghost before = items_view(items@);
        let x = Json::Str(v[i].clone());
        items.push(x);
        assert(items_view(items@) =~= before.push(x@));
        i = i + 1;
    }
    proof {
        lemma_array_view(items);
        assert(items_view(items@) =~= Seq::new(strings_view(v@).len(), |k: int| JsonV::Str(strings_view(v@)[k])));
    }
    Json::Array(items)
}

fn push_texts(m: &mut Vec<(String, Json)>, key: &str, v: &Vec<String>)
    ensures
        entries_view(final(m)@) == entries_view(old(m)@) + texts_member(key@, strings_view(v@)),
{
    if v.len() > 0 {
        push_member(m, key, texts_value(v));
    } else {
        assert(entries_view(m@) =~= entries_view(m@) + Seq::<(Seq<char>, JsonV)>::empty());
    }
}

fn object_of(m: Vec<(String, Json)>) -> (r: Json)
    ensures
        r@ == JsonV::Object(entries_view(m@)),
{
    proof {
        lemma_object_view(m);
    }
    Json::Object(m)
}

fn address_type_text(t: AddressType) -> (r: String)
    ensures
        r@ == address_type_name(t),
{
    match t {
        AddressType::Dhcp4 => "dhcp4".to_owned(),
        AddressType::Dhcp6 => "dhcp6".to_owned(),
        AddressType::Dhcp => "dhcp".to_owned(),
        AddressType::Static => "static".to_owned(),
        AddressType::Slaac => "slaac".to_owned(),
        AddressType::Addrconf => "addrconf".to_owned(),
    }
}

impl AddressConfig {
    /// The JSON form of the address, as `address_json` says.
    pub fn to_json(&self) -> (r: Json)
        ensures
            r@ == address_json(self@),
    {
        let mut m: Vec<(String, Json)> = Vec::new();
        assert(entries_view(m@) =~= Seq::<(Seq<char>, JsonV)>::empty());
        push_opt_text(&mut m, "address", &self.address);
        push_opt_text(&mut m, "gateway", &self.gateway);
        push_member(&mut m, "primary", Json::Bool(self.primary));
        push_member(&mut m, "type", Json::Str(address_type_text(self.addr_type)));
        assert(entries_view(m@) =~= match address_json(self@) {
            JsonV::Object(e) => e,
            _ => Seq::empty(),
        });
        object_of(m)
    }
}

impl InterfaceConfig {
    /// The JSON form of the interface, as `interface_json` says.
    pub fn to_json(&self) -> (r: Json)
        ensures
            r@ == interface_json(self@),
    {
        let mut items: Vec<Json> = Vec::new();
        let mut i: usize = 0;
        while i < self.addresses.len()
            invariant
                i <= self.addresses@.len(),
                items_view(items@) =~= Seq::new(i as nat, |k: int| address_json(self.addresses@[k]@)),
            decreases self.addresses.len() - i,
        {
            let ghost before = items_view(items@);
            let x = self.addresses[i].to_json();
            items.push(x);
            assert(items_view(items@) =~= before.push(x@));
            i = i + 1;
        }
        proof {
            lemma_array_view(items);
            assert(items_view(items@) =~= Seq::new(self@.addresses.len(), |k: int| address_json(self@.addresses[k])));
        }
        let mut m: Vec<(String, Json)> = Vec::new();
        assert(entries_view(m@) =~= Seq::<(Seq<char>, JsonV)>::empty());
        push_member(&mut m, "addresses", Json::Array(items));
        push_opt_text(&mut m, "description", &self.description);
        push_member(&mut m, "enabled", Json::Bool(self.enabled));
        push_opt_text(&mut m, "mac_address", &self.mac_address);
        push_opt_num(
            &mut m,
            "mtu",
            match self.mtu {
                Some(n) => Some(n as u64),
                None => None,
            },
        );
        push_opt_text(&mut m, "parent", &self.parent);
        push_opt_num(
            &mut m,
            "vlan_id",
            match self.vlan_id {
                Some(n) => Some(n as u64),
                None => None,
            },
        );
        object_of(m)
    }
}

impl UserConfig {
    /// The JSON form of the user, as `user_json` says.
    pub fn to_json(&self) -> (r: Json)
        ensures
            r@ == user_json(self@),
    {
        let mut m: Vec<(String, Json)> = Vec::new();
        assert(entries_view(m@) =~= Seq::<(Seq<char>, JsonV)>::empty());
        push_member(&mut m, "create_home", Json::Bool(self.create_home));
        push_opt_text(&mut m, "gecos", &self.gecos);
        push_opt_text(&mut m, "group", &self.group);
        push_texts(&mut m, "groups", &self.groups);
        push_opt_text(&mut m, "home", &self.home);
        push_member(&mut m, "name", Json::Str(self.name.clone()));
        push_opt_text(&mut m, "password_hash", &self.password_hash);
        push_opt_text(&mut m, "shell", &self.shell);
        push_texts(&mut m, "ssh_authorized_keys", &self.ssh_authorized_keys);
        push_member(&mut m, "sudo", Json::Bool(self.sudo));
        push_opt_num(
            &mut m,
            "uid",
            match self.uid {
                Some(n) => Some(n as u64),
                None => None,
            },
        );
        object_of(m)
    }
}

impl RouteConfig {
    /// The JSON form of the route, as `route_json` says.
    pub fn to_json(&self) -> (r: Json)
        ensures
            r@ == route_json(self@),
    {
        let mut m: Vec<(String, Json)> = Vec::new();
        assert(entries_view(m@) =~= Seq::<(Seq<char>, JsonV)>::empty());
        push_member(&mut m, "destination", Json::Str(self.destination.clone()));
        push_member(&mut m, "gateway", Json::Str(self.gateway.clone()));
        push_opt_text(&mut m, "interface", &self.interface);
        push_opt_num(
            &mut m,
            "metric",
            match self.metric {
                Some(n) => Some(n as u64),
                None => None,
            },
        );
        assert(entries_view(m@) =~= match route_json(self@) {
            JsonV::Object(e) => e,
            _ => Seq::empty(),
        });
        object_of(m)
    }
}

fn routes_value(routes: &Vec<RouteConfig>) -> (r: Json)
    ensures
        r@ == routes_json(Seq::new(routes@.len(), |i: int| routes@[i]@)),
{
    let mut items: Vec<Json> = Vec::new();
    let mut i: usize = 0;
    while i < routes.len()
        invariant
            i <= routes@.len(),
            items_view(items@) =~= Seq::new(i as nat, |k: int| route_json(routes@[k]@)),
        decreases routes.len() - i,
    {
        let ghost before = items_view(items@);
        let x = routes[i].to_json();
        items.push(x);
        assert(items_view(items@) =~= before.push(x@));
        i = i + 1;
    }
    proof {
        lemma_array_view(items);
        assert(items_view(items@) =~= Seq::new(routes@.len(), |k: int| route_json(Seq::new(routes@.len(), |i: int| routes@[i]@)[k])));
    }
    Json::Array(items)
}

fn users_value(users: &Vec<UserConfig>) -> (r: Json)
    ensures
        r@ == users_json(Seq::new(users@.len(), |i: int| users@[i]@)),
{
    let mut items: Vec<Json> = Vec::new();
    let mut i: usize = 0;
    while i < users.len()
        invariant
            i <= users@.len(),
            items_view(items@) =~= Seq::new(i as nat, |k: int| user_json(users@[k]@)),
        decreases users.len() - i,
    {
        let ghost before = items_view(items@);
        let x = users[i].to_json();
        items.push(x);
        assert(items_view(items@) =~= before.push(x@));
        i = i + 1;
    }
    proof {
        lemma_array_view(items);
        assert(items_view(items@) =~= Seq::new(users@.len(), |k: int| user_json(Seq::new(users@.len(), |i: int| users@[i]@)[k])));
    }
    Json::Array(items)
}

fn metadata_members(metadata: &Vec<(String, Json)>) -> (r: Vec<(String, Json)>)
    ensures
        entries_view(r@) == insert_members(Seq::empty(), pairs_view(metadata@)),
{
    let ghost pv = pairs_view(metadata@);
    let mut m: Vec<(String, Json)> = Vec::new();
    let mut i: usize = 0;
    assert(entries_view(m@) =~= insert_members(Seq::empty(), pv.subrange(0, 0)));
    while i < metadata.len()
        invariant
            i <= metadata@.len(),
            pv == pairs_view(metadata@),
            entries_view(m@) == insert_members(Seq::empty(), pv.subrange(0, i as int)),
        decreases metadata.len() - i,
    {
        proof {
            assert(pv.subrange(0, i as int + 1).drop_last() =~= pv.subrange(0, i as int));
        }
        members_insert(&mut m, &chars_of(metadata[i].0.as_str()), metadata[i].1.deep_copy());
        i = i + 1;
    }
    assert(pv.subrange(0, metadata@.len() as int) =~= pv);
    m
}

fn links_of(ifs: &Vec<(String, InterfaceConfig)>, routes: &Vec<RouteConfig>) -> (r: Vec<(String, Json)>)
    ensures
        entries_view(r@) == links_members(pairs_view(ifs@), Seq::new(routes@.len(), |i: int| routes@[i]@)),
{
    let ghost pv = pairs_view(ifs@);
    let ghost jv = Seq::new(pv.len(), |i: int| (pv[i].0, interface_json(pv[i].1)));
    let mut m: Vec<(String, Json)> = Vec::new();
    let mut i: usize = 0;
    assert(entries_view(m@) =~= insert_members(Seq::empty(), jv.subrange(0, 0)));
    while i < ifs.len()
        invariant
            i <= ifs@.len(),
            pv == pairs_view(ifs@),
            jv == Seq::new(pv.len(), |i: int| (pv[i].0, interface_json(pv[i].1))),
            entries_view(m@) == insert_members(Seq::empty(), jv.subrange(0, i as int)),
        decreases ifs.len() - i,
    {
        proof {
            assert(jv.subrange(0, i as int + 1).drop_last() =~= jv.subrange(0, i as int));
        }
        members_insert(&mut m, &chars_of(ifs[i].0.as_str()), ifs[i].1.to_json());
        i = i + 1;
    }
    assert(jv.subrange(0, ifs@.len() as int) =~= jv);
    if routes.len() > 0 {
        members_insert(&mut m, &chars_of("routes"), routes_value(routes));
    }
    m
}

/// The system state that a configuration stands for, as `config_state` says.
pub fn config_to_state(config: &ProvisioningConfig) -> (r: Json)
    ensures
        r@ == config_state(
            opt_view(config.hostname),
            strings_view(config.nameservers@),
            strings_view(config.search_domains@),
            pairs_view(config.interfaces@),
            Seq::new(config.routes@.len(), |i: int| config.routes@[i]@),
            strings_view(config.ssh_authorized_keys@),
            Seq::new(config.users@.len(), |i: int| config.users@[i]@),
            strings_view(config.ntp_servers@),
            opt_view(config.timezone),
            pairs_view(config.metadata@),
        ),
{
    let has_settings = config.hostname.is_some() || config.nameservers.len() > 0 || config.search_domains.len() > 0;
    let has_links = config.interfaces.len() > 0 || config.routes.len() > 0;
    let mut state: Vec<(String, Json)> = Vec::new();
    assert(entries_view(state@) =~= Seq::<(Seq<char>, JsonV)>::empty());
    if config.metadata.len() > 0 {
        push_member(&mut state, "metadata", object_of(metadata_members(&config.metadata)));
    }
    if has_settings || has_links {
        let mut network: Vec<(String, Json)> = Vec::new();
        assert(entries_view(network@) =~= Seq::<(Seq<char>, JsonV)>::empty());
        if has_links {
            push_member(&mut network, "links", object_of(links_of(&config.interfaces, &config.routes)));
        }
        if has_settings {
            let mut settings: Vec<(String, Json)> = Vec::new();
            assert(entries_view(settings@) =~= Seq::<(Seq<char>, JsonV)>::empty());
            if config.nameservers.len() > 0 || config.search_domains.len() > 0 {
                let mut dns: Vec<(String, Json)> = Vec::new();
                assert(entries_view(dns@) =~= Seq::<(Seq<char>, JsonV)>::empty());
                push_texts(&mut dns, "nameservers", &config.nameservers);
                push_texts(&mut dns, "search", &config.search_domains);
                push_member(&mut settings, "dns", object_of(dns));
            }
            push_opt_text(&mut settings, "hostname", &config.hostname);
            push_member(&mut network, "settings", object_of(settings));
        }
        push_member(&mut state, "network", object_of(network));
    }
    push_texts(&mut state, "ntp_servers", &config.ntp_servers);
    push_texts(&mut state, "ssh_authorized_keys", &config.ssh_authorized_keys);
    push_opt_text(&mut state, "timezone", &config.timezone);
    if config.users.len() > 0 {
        push_member(&mut state, "users", users_value(&config.users));
    }
    let ghost expected = config_state(
        opt_view(config.hostname),
        strings_view(config.nameservers@),
        strings_view(config.search_domains@),
        pairs_view(config.interfaces@),
        Seq::new(config.routes@.len(), |i: int| config.routes@[i]@),
        strings_view(config.ssh_authorized_keys@),
        Seq::new(config.users@.len(), |i: int| config.users@[i]@),
        strings_view(config.ntp_servers@),
        opt_view(config.timezone),
        pairs_view(config.metadata@),
    );
    assert(entries_view(state@) =~= match expected {
        JsonV::Object(e) => e,
        _ => Seq::empty(),
    });
    object_of(state)
}
} // verus!
