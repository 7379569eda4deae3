//! The provisioning configuration that the data sources produce and merge.
use vstd::prelude::*;
use crate::json::{Json, JsonV};
use crate::keyed::{entries_map, lemma_insert_all_union, names_distinct, pairs_view, put_all};
use crate::kdl_parser::{opt_view, strings_view};
use crate::text::str_eq;

verus! {

/// How an interface address is obtained.
#[derive(Debug, Clone, Copy, PartialEq, Eq, Structural)]
pub enum AddressType {
    Dhcp4,
    Dhcp6,
    Dhcp,
    Static,
    Slaac,
    Addrconf,
}

impl Default for AddressType {
    fn default() -> (r: AddressType)
        ensures
            r == AddressType::Dhcp4,
    {
        AddressType::Dhcp4
    }
}

/// An address of an interface.
#[derive(Debug)]
pub struct AddressConfig {
    /// dhcp4, dhcp6, dhcp, static, slaac or addrconf.
    pub addr_type: AddressType,
    /// The address with its prefix length, for a static address.
    pub address: Option<String>,
    /// The gateway, for a static address.
    pub gateway: Option<String>,
    /// Whether this is the primary address.
    pub primary: bool,
}

pub struct AddressConfigV {
    pub addr_type: AddressType,
    pub address: Option<Seq<char>>,
    pub gateway: Option<Seq<char>>,
    pub primary: bool,
}

impl View for AddressConfig {
    type V = AddressConfigV;

    open spec fn view(&self) -> AddressConfigV {
        AddressConfigV {
            addr_type: self.addr_type,
            address: opt_view(self.address),
            gateway: opt_view(self.gateway),
            primary: self.primary,
        }
    }
}

/// A network interface.
#[derive(Debug)]
pub struct InterfaceConfig {
    /// MAC address, by which the interface is matched.
    pub mac_address: Option<String>,
    /// MTU size.
    pub mtu: Option<u32>,
    /// The interface's addresses.
    pub addresses: Vec<AddressConfig>,
    /// Whether the interface is enabled.
    pub enabled: bool,
    /// A description.
    pub description: Option<String>,
    /// VLAN identifier, for a VLAN interface.
    pub vlan_id: Option<u16>,
    /// Parent interface, for a VLAN interface.
    pub parent: Option<String>,
}

pub struct InterfaceConfigV {
    pub mac_address: Option<Seq<char>>,
    pub mtu: Option<u32>,
    pub addresses: Seq<AddressConfigV>,
    pub enabled: bool,
    pub description: Option<Seq<char>>,
    pub vlan_id: Option<u16>,
    pub parent: Option<Seq<char>>,
}

impl View for InterfaceConfig {
    type V = InterfaceConfigV;

    open spec fn view(&self) -> InterfaceConfigV {
        InterfaceConfigV {
            mac_address: opt_view(self.mac_address),
            mtu: self.mtu,
            addresses: Seq::new(self.addresses@.len(), |i: int| self.addresses@[i]@),
            enabled: self.enabled,
            description: opt_view(self.description),
            vlan_id: self.vlan_id,
            parent: opt_view(self.parent),
        }
    }
}

/// A user account.
#[derive(Debug)]
pub struct UserConfig {
    /// User name.
    pub name: String,
    /// Full name (GECOS field).
    pub gecos: Option<String>,
    /// User identifier.
    pub uid: Option<u32>,
    /// Primary group.
    pub group: Option<String>,
    /// Additional groups.
    pub groups: Vec<String>,
    /// Home directory.
    pub home: Option<String>,
    /// Login shell.
    pub shell: Option<String>,
    /// SSH keys the user may log in with.
    pub ssh_authorized_keys: Vec<String>,
    /// Whether to create the home directory.
    pub create_home: bool,
    /// Password hash.
    pub password_hash: Option<String>,
    /// Whether the user may use sudo.
    pub sudo: bool,
}

pub struct UserConfigV {
    pub name: Seq<char>,
    pub gecos: Option<Seq<char>>,
    pub uid: Option<u32>,
    pub group: Option<Seq<char>>,
    pub groups: Seq<Seq<char>>,
    pub home: Option<Seq<char>>,
    pub shell: Option<Seq<char>>,
    pub ssh_authorized_keys: Seq<Seq<char>>,
    pub create_home: bool,
    pub password_hash: Option<Seq<char>>,
    pub sudo: bool,
}

impl View for UserConfig {
    type V = UserConfigV;

    open spec fn view(&self) -> UserConfigV {
        UserConfigV {
            name: self.name@,
            gecos: opt_view(self.gecos),
            uid: self.uid,
            group: opt_view(self.group),
            groups: strings_view(self.groups@),
            home: opt_view(self.home),
            shell: opt_view(self.shell),
            ssh_authorized_keys: strings_view(self.ssh_authorized_keys@),
            create_home: self.create_home,
            password_hash: opt_view(self.password_hash),
            sudo: self.sudo,
        }
    }
}

/// A static route.
#[derive(Debug)]
pub struct RouteConfig {
    /// Destination network, with its prefix length.
    pub destination: String,
    /// Next hop.
    pub gateway: String,
    /// Interface to use.
    pub interface: Option<String>,
    /// Metric.
    pub metric: Option<u32>,
}

pub struct RouteConfigV {
    pub destination: Seq<char>,
    pub gateway: Seq<char>,
    pub interface: Option<Seq<char>>,
    pub metric: Option<u32>,
}

impl View for RouteConfig {
    type V = RouteConfigV;

    open spec fn view(&self) -> RouteConfigV {
        RouteConfigV {
            destination: self.destination@,
            gateway: self.gateway@,
            interface: opt_view(self.interface),
            metric: self.metric,
        }
    }
}

/// The cloud vendor a machine runs on.
#[derive(Debug, Clone, Copy, PartialEq, Eq, Structural)]
pub enum CloudVendor {
    EC2,
    Azure,
    GCP,
    DigitalOcean,
    Oracle,
    OpenStack,
    SmartOS,
    VMware,
    Unknown,
}

/// The display name of a vendor.
pub open spec fn vendor_name(v: CloudVendor) -> Seq<char> {
    match v {
        CloudVendor::EC2 => "Amazon EC2"@,
        CloudVendor::Azure => "Microsoft Azure"@,
        CloudVendor::GCP => "Google Cloud Platform"@,
        CloudVendor::DigitalOcean => "DigitalOcean"@,
        CloudVendor::Oracle => "Oracle Cloud"@,
        CloudVendor::OpenStack => "OpenStack"@,
        CloudVendor::SmartOS => "SmartOS"@,
        CloudVendor::VMware => "VMware"@,
        CloudVendor::Unknown => "Unknown"@,
    }
}

impl CloudVendor {
    /// The vendor's display name.
    pub fn to_string(&self) -> (r: String)
        ensures
            r@ == vendor_name(*self),
    {
        let s = match self {
            CloudVendor::EC2 => "Amazon EC2",
            CloudVendor::Azure => "Microsoft Azure",
            CloudVendor::GCP => "Google Cloud Platform",
            CloudVendor::DigitalOcean => "DigitalOcean",
            CloudVendor::Oracle => "Oracle Cloud",
            CloudVendor::OpenStack => "OpenStack",
            CloudVendor::SmartOS => "SmartOS",
            CloudVendor::VMware => "VMware",
            CloudVendor::Unknown => "Unknown",
        };
        s.to_owned()
    }
}

/// A subnet of a cloud-init network configuration.
#[derive(Debug)]
pub struct SubnetConfig {
    /// The subnet's type (static, dhcp, dhcp6, ...).
    pub subnet_type: String,
    pub address: Option<String>,
    pub netmask: Option<String>,
    pub gateway: Option<String>,
    pub dns_nameservers: Option<Vec<String>>,
    pub dns_search: Option<Vec<String>>,
    pub routes: Option<Vec<RouteConfig>>,
}

/// A configuration in the form of the sysconfig KDL format.
#[derive(Debug)]
pub struct KdlConfig {
    pub hostname: Option<String>,
    pub nameservers: Vec<String>,
    pub interfaces: Vec<KdlInterface>,
}

/// An interface of a KDL configuration.
#[derive(Debug)]
pub struct KdlInterface {
    pub name: String,
    pub selector: Option<String>,
    pub addresses: Vec<KdlAddress>,
}

/// An address of a KDL interface.
#[derive(Debug)]
pub struct KdlAddress {
    pub name: String,
    pub kind: String,
    pub address: Option<String>,
}

/// The value a missing `enabled` or `create_home` flag takes.
pub fn default_true() -> (r: bool)
    ensures
        r,
{
    true
}

/// The aggregated provisioning configuration.
#[derive(Debug)]
pub struct ProvisioningConfig {
    pub hostname: Option<String>,
    pub nameservers: Vec<String>,
    pub search_domains: Vec<String>,
    /// Interfaces by name; no name occurs twice.
    pub interfaces: Vec<(String, InterfaceConfig)>,
    pub ssh_authorized_keys: Vec<String>,
    pub users: Vec<UserConfig>,
    pub user_data: Option<String>,
    pub user_data_base64: Option<String>,
    /// Metadata by key; no key occurs twice.
    pub metadata: Vec<(String, Json)>,
    pub routes: Vec<RouteConfig>,
    pub ntp_servers: Vec<String>,
    pub timezone: Option<String>,
}

pub struct ProvisioningConfigV {
    pub hostname: Option<Seq<char>>,
    pub nameservers: Seq<Seq<char>>,
    pub search_domains: Seq<Seq<char>>,
    pub interfaces: Map<Seq<char>, InterfaceConfigV>,
    pub ssh_authorized_keys: Seq<Seq<char>>,
    pub users: Seq<UserConfigV>,
    pub user_data: Option<Seq<char>>,
    pub user_data_base64: Option<Seq<char>>,
    pub metadata: Map<Seq<char>, JsonV>,
    pub routes: Seq<RouteConfigV>,
    pub ntp_servers: Seq<Seq<char>>,
    pub timezone: Option<Seq<char>>,
}

pub open spec fn users_view(v: Seq<UserConfig>) -> Seq<UserConfigV> {
    Seq::new(v.len(), |i: int| v[i]@)
}

pub open spec fn routes_view(v: Seq<RouteConfig>) -> Seq<RouteConfigV> {
    Seq::new(v.len(), |i: int| v[i]@)
}

impl View for ProvisioningConfig {
    type V = ProvisioningConfigV;

    open spec fn view(&self) -> ProvisioningConfigV {
        ProvisioningConfigV {
            hostname: opt_view(self.hostname),
            nameservers: strings_view(self.nameservers@),
            search_domains: strings_view(self.search_domains@),
            interfaces: entries_map(pairs_view(self.interfaces@)),
            ssh_authorized_keys: strings_view(self.ssh_authorized_keys@),
            users: users_view(self.users@),
            user_data: opt_view(self.user_data),
            user_data_base64: opt_view(self.user_data_base64),
            metadata: entries_map(pairs_view(self.metadata@)),
            routes: routes_view(self.routes@),
            ntp_servers: strings_view(self.ntp_servers@),
            timezone: opt_view(self.timezone),
        }
    }
}

/// The empty configuration.
pub open spec fn empty_config() -> ProvisioningConfigV {
    ProvisioningConfigV {
        hostname: None,
        nameservers: Seq::empty(),
        search_domains: Seq::empty(),
        interfaces: Map::empty(),
        ssh_authorized_keys: Seq::empty(),
        users: Seq::empty(),
        user_data: None,
        user_data_base64: None,
        metadata: Map::empty(),
        routes: Seq::empty(),
        ntp_servers: Seq::empty(),
        timezone: None,
    }
}

/// The items of `items`, in order, appended to `acc` where not already there.
pub open spec fn add_unique(acc: Seq<Seq<char>>, items: Seq<Seq<char>>) -> Seq<Seq<char>>
    decreases items.len(),
{
    if items.len() == 0 {
        acc
    } else {
        let a = add_unique(acc, items.drop_last());
        if a.contains(items.last()) {
            a
        } else {
            a.push(items.last())
        }
    }
}

/// Whether a user of that name is among `v`.
pub open spec fn has_user(v: Seq<UserConfigV>, name: Seq<char>) -> bool {
    exists|i: int| 0 <= i < v.len() && v[i].name == name
}

/// The users of `items`, in order, appended to `acc` where no user of that name is there.
pub open spec fn add_users(acc: Seq<UserConfigV>, items: Seq<UserConfigV>) -> Seq<UserConfigV>
    decreases items.len(),
{
    if items.len() == 0 {
        acc
    } else {
        let a = add_users(acc, items.drop_last());
        if has_user(a, items.last().name) {
            a
        } else {
            a.push(items.last())
        }
    }
}

/// Whether a route with that destination and gateway is among `v`.
pub open spec fn has_route(v: Seq<RouteConfigV>, r: RouteConfigV) -> bool {
    exists|i: int| 0 <= i < v.len() && v[i].destination == r.destination && v[i].gateway == r.gateway
}

/// The routes of `items`, in order, appended to `acc` where no route with the same
/// destination and gateway is there.
pub open spec fn add_routes(acc: Seq<RouteConfigV>, items: Seq<RouteConfigV>) -> Seq<RouteConfigV>
    decreases items.len(),
{
    if items.len() == 0 {
        acc
    } else {
        let a = add_routes(acc, items.drop_last());
        if has_route(a, items.last()) {
            a
        } else {
            a.push(items.last())
        }
    }
}

/// `b` where it is set, else `a`.
pub open spec fn prefer<T>(a: Option<T>, b: Option<T>) -> Option<T> {
    if b is Some {
        b
    } else {
        a
    }
}

/// `a` merged with `b`, which takes precedence: its scalar settings replace those of
/// `a`, its interfaces and metadata replace those under the same name, its list
/// items are added where new, and its users where no user of that name exists.
pub open spec fn merge_model(a: ProvisioningConfigV, b: ProvisioningConfigV) -> ProvisioningConfigV {
    ProvisioningConfigV {
        hostname: prefer(a.hostname, b.hostname),
        nameservers: add_unique(a.nameservers, b.nameservers),
        search_domains: add_unique(a.search_domains, b.search_domains),
        interfaces: a.interfaces.union_prefer_right(b.interfaces),
        ssh_authorized_keys: add_unique(a.ssh_authorized_keys, b.ssh_authorized_keys),
        users: add_users(a.users, b.users),
        user_data: prefer(a.user_data, b.user_data),
        user_data_base64: prefer(a.user_data_base64, b.user_data_base64),
        metadata: a.metadata.union_prefer_right(b.metadata),
        routes: add_routes(a.routes, b.routes),
        ntp_servers: add_unique(a.ntp_servers, b.ntp_servers),
        timezone: prefer(a.timezone, b.timezone),
    }
}

pub(crate) fn strings_contain(v: &Vec<String>, s: &String) -> (r: bool)
    ensures
        r == strings_view(v@).contains(s@),
{
    let mut i: usize = 0;
    while i < v.len()
        invariant
            i <= v@.len(),
            forall|k: int| 0 <= k < i ==> v@[k]@ != s@,
        decreases v.len() - i,
    {
        if str_eq(v[i].as_str(), s.as_str()) {
            assert(strings_view(v@)[i as int] == s@);
            return true;
        }
        i = i + 1;
    }
    proof {
        if strings_view(v@).contains(s@) {
            let k = choose|k: int| 0 <= k < strings_view(v@).len() && strings_view(v@)[k] == s@;
            assert(v@[k]@ == s@);
        }
    }
    false
}

/// Appends each string of `items` to `acc` where it is not already there.
pub fn push_unique(acc: &mut Vec<String>, items: Vec<String>)
    ensures
        strings_view(final(acc)@) == add_unique(strings_view(old(acc)@), strings_view(items@)),
{
    let ghost a0 = strings_view(acc@);
    let ghost f = strings_view(items@);
    let ghost n = f.len();
    let mut rest = items;
    let total = rest.len();
    let mut i: usize = 0;
    while rest.len() > 0
        invariant
            n == f.len(),
            n == total,
            rest@.len() + i == n,
            strings_view(rest@) == f.subrange(i as int, n as int),
            strings_view(acc@) == add_unique(a0, f.subrange(0, i as int)),
        decreases rest@.len(),
    {
        let ghost r0 = rest@;
        let s = rest.remove(0);
        proof {
            assert(strings_view(r0)[0] == s@);
            assert(rest@ =~= r0.subrange(1, r0.len() as int));
            assert forall|j: int| 0 <= j < rest@.len() implies strings_view(rest@)[j] == f.subrange(i as int + 1, n as int)[j] by {
                assert(rest@[j] == r0[j + 1]);
                assert(strings_view(r0)[j + 1] == f.subrange(i as int, n as int)[j + 1]);
            }
            assert(strings_view(rest@) =~= f.subrange(i as int + 1, n as int));
            assert(f.subrange(0, i as int + 1).drop_last() =~= f.subrange(0, i as int));
            assert(f.subrange(0, i as int + 1).last() == s@);
        }
        if !strings_contain(acc, &s) {
            let ghost before = acc@;
            acc.push(s);
            assert(strings_view(acc@) =~= strings_view(before).push(s@));
        }
        i = i + 1;
    }
    assert(f.subrange(0, n as int) =~= f);
}

fn users_have(v: &Vec<UserConfig>, name: &String) -> (r: bool)
    ensures
        r == has_user(users_view(v@), name@),
{
    let mut i: usize = 0;
    while i < v.len()
        invariant
            i <= v@.len(),
            forall|k: int| 0 <= k < i ==> v@[k].name@ != name@,
        decreases v.len() - i,
    {
        if str_eq(v[i].name.as_str(), name.as_str()) {
            assert(users_view(v@)[i as int].name == name@);
            return true;
        }
        i = i + 1;
    }
    proof {
        if has_user(users_view(v@), name@) {
            let k = choose|k: int| 0 <= k < users_view(v@).len() && users_view(v@)[k].name == name@;
            assert(v@[k].name@ == name@);
        }
    }
    false
}

/// Appends each user of `items` to `acc` where no user of that name is there.
pub fn push_users(acc: &mut Vec<UserConfig>, items: Vec<UserConfig>)
    ensures
        users_view(final(acc)@) == add_users(users_view(old(acc)@), users_view(items@)),
{
    let ghost a0 = users_view(acc@);
    let ghost f = users_view(items@);
    let ghost n = f.len();
    let mut rest = items;
    let total = rest.len();
    let mut i: usize = 0;
    while rest.len() > 0
        invariant
            n == f.len(),
            n == total,
            rest@.len() + i == n,
            users_view(rest@) == f.subrange(i as int, n as int),
            users_view(acc@) == add_users(a0, f.subrange(0, i as int)),
        decreases rest@.len(),
    {
        let ghost r0 = rest@;
        let u = rest.remove(0);
        proof {
            assert(users_view(r0)[0] == u@);
            assert(rest@ =~= r0.subrange(1, r0.len() as int));
            assert forall|j: int| 0 <= j < rest@.len() implies users_view(rest@)[j] == f.subrange(i as int + 1, n as int)[j] by {
                assert(rest@[j] == r0[j + 1]);
                assert(users_view(r0)[j + 1] == f.subrange(i as int, n as int)[j + 1]);
            }
            assert(users_view(rest@) =~= f.subrange(i as int + 1, n as int));
            assert(f.subrange(0, i as int + 1).drop_last() =~= f.subrange(0, i as int));
            assert(f.subrange(0, i as int + 1).last() == u@);
        }
        if !users_have(acc, &u.name) {
            let ghost before = acc@;
            acc.push(u);
            assert(users_view(acc@) =~= users_view(before).push(u@));
        }
        i = i + 1;
    }
    assert(f.subrange(0, n as int) =~= f);
}

fn routes_have(v: &Vec<RouteConfig>, r: &RouteConfig) -> (b: bool)
    ensures
        b == has_route(routes_view(v@), r@),
{
    let mut i: usize = 0;
    while i < v.len()
        invariant
            i <= v@.len(),
            forall|k: int| 0 <= k < i ==> !(v@[k].destination@ == r.destination@ && v@[k].gateway@ == r.gateway@),
        decreases v.len() - i,
    {
        if str_eq(v[i].destination.as_str(), r.destination.as_str()) && str_eq(v[i].gateway.as_str(), r.gateway.as_str()) {
            assert(routes_view(v@)[i as int].destination == r.destination@);
            return true;
        }
        i = i + 1;
    }
    proof {
        if has_route(routes_view(v@), r@) {
            let k = choose|k: int| 0 <= k < routes_view(v@).len() && routes_view(v@)[k].destination == r@.destination
                && routes_view(v@)[k].gateway == r@.gateway;
            assert(v@[k].destination@ == r.destination@);
        }
    }
    false
}

/// Appends each route of `items` to `acc` where no route with its destination and
/// gateway is there.
pub fn push_routes(acc: &mut Vec<RouteConfig>, items: Vec<RouteConfig>)
    ensures
        routes_view(final(acc)@) == add_routes(routes_view(old(acc)@), routes_view(items@)),
{
    let ghost a0 = routes_view(acc@);
    let ghost f = routes_view(items@);
    let ghost n = f.len();
    let mut rest = items;
    let total = rest.len();
    let mut i: usize = 0;
    while rest.len() > 0
        invariant
            n == f.len(),
            n == total,
            rest@.len() + i == n,
            routes_view(rest@) == f.subrange(i as int, n as int),
            routes_view(acc@) == add_routes(a0, f.subrange(0, i as int)),
        decreases rest@.len(),
    {
        let ghost r0 = rest@;
        let r = rest.remove(0);
        proof {
            assert(routes_view(r0)[0] == r@);
            assert(rest@ =~= r0.subrange(1, r0.len() as int));
            assert forall|j: int| 0 <= j < rest@.len() implies routes_view(rest@)[j] == f.subrange(i as int + 1, n as int)[j] by {
                assert(rest@[j] == r0[j + 1]);
                assert(routes_view(r0)[j + 1] == f.subrange(i as int, n as int)[j + 1]);
            }
            assert(routes_view(rest@) =~= f.subrange(i as int + 1, n as int));
            assert(f.subrange(0, i as int + 1).drop_last() =~= f.subrange(0, i as int));
            assert(f.subrange(0, i as int + 1).last() == r@);
        }
        if !routes_have(acc, &r) {
            let ghost before = acc@;
            acc.push(r);
            assert(routes_view(acc@) =~= routes_view(before).push(r@));
        }
        i = i + 1;
    }
    assert(f.subrange(0, n as int) =~= f);
}

fn copy_opt(o: &Option<String>) -> (r: Option<String>)
    ensures
        opt_view(r) == opt_view(*o),
{
    match o {
        Some(s) => Some(s.clone()),
        None => None,
    }
}

fn copy_strs(v: &Vec<String>) -> (r: Vec<String>)
    ensures
        strings_view(r@) == strings_view(v@),
{
    let mut out: Vec<String> = Vec::new();
    let mut i: usize = 0;
    while i < v.len()
        invariant
            i <= v@.len(),
            strings_view(out@) =~= strings_view(v@).subrange(0, i as int),
        decreases v.len() - i,
    {
        let ghost before = out@;
        out.push(v[i].clone());
        assert(strings_view(out@) =~= strings_view(before).push(v@[i as int]@));
        i = i + 1;
    }
    assert(strings_view(v@).subrange(0, v@.len() as int) =~= strings_view(v@));
    out
}

impl AddressConfig {
    /// A copy of the address.
    pub fn duplicate(&self) -> (r: AddressConfig)
        ensures
            r@ == self@,
    {
        AddressConfig {
            addr_type: self.addr_type,
            address: copy_opt(&self.address),
            gateway: copy_opt(&self.gateway),
            primary: self.primary,
        }
    }
}

impl InterfaceConfig {
    /// A copy of the interface.
    pub fn duplicate(&self) -> (r: InterfaceConfig)
        ensures
            r@ == self@,
    {
        let mut addrs: Vec<AddressConfig> = Vec::new();
        let mut i: usize = 0;
        while i < self.addresses.len()
            invariant
                i <= self.addresses@.len(),
                addrs@.len() == i,
                forall|k: int| 0 <= k < i ==> (#[trigger] addrs@[k])@ == self.addresses@[k]@,
            decreases self.addresses.len() - i,
        {
            addrs.push(self.addresses[i].duplicate());
            i = i + 1;
        }
        let r = InterfaceConfig {
            mac_address: copy_opt(&self.mac_address),
            mtu: self.mtu,
            addresses: addrs,
            enabled: self.enabled,
            description: copy_opt(&self.description),
            vlan_id: self.vlan_id,
            parent: copy_opt(&self.parent),
        };
        assert(r@.addresses =~= self@.addresses);
        r
    }
}

impl UserConfig {
    /// A copy of the user.
    pub fn duplicate(&self) -> (r: UserConfig)
        ensures
            r@ == self@,
    {
        UserConfig {
            name: self.name.clone(),
            gecos: copy_opt(&self.gecos),
            uid: self.uid,
            group: copy_opt(&self.group),
            groups: copy_strs(&self.groups),
            home: copy_opt(&self.home),
            shell: copy_opt(&self.shell),
            ssh_authorized_keys: copy_strs(&self.ssh_authorized_keys),
            create_home: self.create_home,
            password_hash: copy_opt(&self.password_hash),
            sudo: self.sudo,
        }
    }
}

impl RouteConfig {
    /// A copy of the route.
    pub fn duplicate(&self) -> (r: RouteConfig)
        ensures
            r@ == self@,
    {
        RouteConfig {
            destination: self.destination.clone(),
            gateway: self.gateway.clone(),
            interface: copy_opt(&self.interface),
            metric: self.metric,
        }
    }
}

impl ProvisioningConfig {
    /// No interface name and no metadata key occurs twice.
    pub open spec fn wf(&self) -> bool {
        &&& names_distinct(pairs_view(self.interfaces@))
        &&& names_distinct(pairs_view(self.metadata@))
    }

    /// The empty configuration.
    pub fn new() -> (r: ProvisioningConfig)
        ensures
            r.wf(),
            r@ == empty_config(),
    {
        let r = ProvisioningConfig {
            hostname: None,
            nameservers: Vec::new(),
            search_domains: Vec::new(),
            interfaces: Vec::new(),
            ssh_authorized_keys: Vec::new(),
            users: Vec::new(),
            user_data: None,
            user_data_base64: None,
            metadata: Vec::new(),
            routes: Vec::new(),
            ntp_servers: Vec::new(),
            timezone: None,
        };
        assert(pairs_view(r.interfaces@) =~= Seq::empty());
        assert(pairs_view(r.metadata@) =~= Seq::empty());
        assert(strings_view(r.nameservers@) =~= Seq::empty());
        assert(strings_view(r.search_domains@) =~= Seq::empty());
        assert(strings_view(r.ssh_authorized_keys@) =~= Seq::empty());
        assert(strings_view(r.ntp_servers@) =~= Seq::empty());
        assert(users_view(r.users@) =~= Seq::empty());
        assert(routes_view(r.routes@) =~= Seq::empty());
        assert(r@ =~= empty_config());
        r
    }

    /// Sets the interface named `name`, replacing one so named.
    pub fn insert_interface(&mut self, name: String, iface: InterfaceConfig)
        requires
            old(self).wf(),
        ensures
            final(self).wf(),
            final(self)@ == (ProvisioningConfigV { interfaces: old(self)@.interfaces.insert(name@, iface@), ..old(self)@ }),
    {
        crate::keyed::put_entry(&mut self.interfaces, name, iface);
    }

    /// Sets the metadata value under `key`, replacing one so keyed.
    pub fn insert_metadata(&mut self, key: String, value: Json)
        requires
            old(self).wf(),
        ensures
            final(self).wf(),
            final(self)@ == (ProvisioningConfigV { metadata: old(self)@.metadata.insert(key@, value@), ..old(self)@ }),
    {
        crate::keyed::put_entry(&mut self.metadata, key, value);
    }

    /// A copy of the configuration.
    pub fn duplicate(&self) -> (r: ProvisioningConfig)
        requires
            self.wf(),
        ensures
            r.wf(),
            r@ == self@,
    {
        let mut ifs: Vec<(String, InterfaceConfig)> = Vec::new();
        let mut i: usize = 0;
        while i < self.interfaces.len()
            invariant
                i <= self.interfaces@.len(),
                pairs_view(ifs@) =~= pairs_view(self.interfaces@).subrange(0, i as int),
            decreases self.interfaces.len() - i,
        {
            let e = (self.interfaces[i].0.clone(), self.interfaces[i].1.duplicate());
            let ghost before = ifs@;
            ifs.push(e);
            assert(pairs_view(ifs@) =~= pairs_view(before).push(pairs_view(self.interfaces@)[i as int]));
            i = i + 1;
        }
        let mut md: Vec<(String, Json)> = Vec::new();
        let mut j: usize = 0;
        while j < self.metadata.len()
            invariant
                j <= self.metadata@.len(),
                pairs_view(md@) =~= pairs_view(self.metadata@).subrange(0, j as int),
            decreases self.metadata.len() - j,
        {
            let e = (self.metadata[j].0.clone(), self.metadata[j].1.deep_copy());
            let ghost before = md@;
            md.push(e);
            assert(pairs_view(md@) =~= pairs_view(before).push(pairs_view(self.metadata@)[j as int]));
            j = j + 1;
        }
        let mut users: Vec<UserConfig> = Vec::new();
        let mut k: usize = 0;
        while k < self.users.len()
            invariant
                k <= self.users@.len(),
                users_view(users@) =~= users_view(self.users@).subrange(0, k as int),
            decreases self.users.len() - k,
        {
            let u = self.users[k].duplicate();
            let ghost before = users@;
            users.push(u);
            assert(users_view(users@) =~= users_view(before).push(u@));
            k = k + 1;
        }
        let mut routes: Vec<RouteConfig> = Vec::new();
        let mut m: usize = 0;
        while m < self.routes.len()
            invariant
                m <= self.routes@.len(),
                routes_view(routes@) =~= routes_view(self.routes@).subrange(0, m as int),
            decreases self.routes.len() - m,
        {
            let x = self.routes[m].duplicate();
            let ghost before = routes@;
            routes.push(x);
            assert(routes_view(routes@) =~= routes_view(before).push(x@));
            m = m + 1;
        }
        proof {
            assert(pairs_view(self.interfaces@).subrange(0, self.interfaces@.len() as int) =~= pairs_view(self.interfaces@));
            assert(pairs_view(self.metadata@).subrange(0, self.metadata@.len() as int) =~= pairs_view(self.metadata@));
            assert(users_view(self.users@).subrange(0, self.users@.len() as int) =~= users_view(self.users@));
            assert(routes_view(self.routes@).subrange(0, self.routes@.len() as int) =~= routes_view(self.routes@));
        }
        let r = ProvisioningConfig {
            hostname: copy_opt(&self.hostname),
            nameservers: copy_strs(&self.nameservers),
            search_domains: copy_strs(&self.search_domains),
            interfaces: ifs,
            ssh_authorized_keys: copy_strs(&self.ssh_authorized_keys),
            users,
            user_data: copy_opt(&self.user_data),
            user_data_base64: copy_opt(&self.user_data_base64),
            metadata: md,
            routes,
            ntp_servers: copy_strs(&self.ntp_servers),
            timezone: copy_opt(&self.timezone),
        };
        assert(r@ =~= self@);
        r
    }

    /// Merges `other` into this configuration; `other` takes precedence.
    pub fn merge(&mut self, other: ProvisioningConfig)
        requires
            old(self).wf(),
            other.wf(),
        ensures
            final(self).wf(),
            final(self)@ == merge_model(old(self)@, other@),
    {
        let ghost a = self@;
        let ghost b = other@;
        let ProvisioningConfig {
            hostname,
            nameservers,
            search_domains,
            interfaces,
            ssh_authorized_keys,
            users,
            user_data,
            user_data_base64,
            metadata,
            routes,
            ntp_servers,
            timezone,
        } = other;
        if hostname.is_some() {
            self.hostname = hostname;
        }
        push_unique(&mut self.nameservers, nameservers);
        push_unique(&mut self.search_domains, search_domains);
        let ghost ie = pairs_view(interfaces@);
        put_all(&mut self.interfaces, interfaces);
        push_unique(&mut self.ssh_authorized_keys, ssh_authorized_keys);
        push_users(&mut self.users, users);
        if user_data.is_some() {
            self.user_data = user_data;
        }
        if user_data_base64.is_some() {
            self.user_data_base64 = user_data_base64;
        }
        let ghost me = pairs_view(metadata@);
        put_all(&mut self.metadata, metadata);
        push_routes(&mut self.routes, routes);
        push_unique(&mut self.ntp_servers, ntp_servers);
        if timezone.is_some() {
            self.timezone = timezone;
        }
        proof {
            lemma_insert_all_union(a.interfaces, ie);
            lemma_insert_all_union(a.metadata, me);
            assert(self@ =~= merge_model(a, b));
        }
    }
}

} // verus!
