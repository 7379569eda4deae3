//! The provisioning configuration that a local system configuration gives.
use vstd::prelude::*;
use crate::config::{AddressKind, AddressObjectV, Interface, InterfaceV, SysConfig, SysConfigV};
use crate::keyed::{entries_map, names_distinct, pairs_view, put_entry};
use crate::openstack::addrs_view;
use crate::prov_config::{
    empty_config, AddressConfig, AddressConfigV, AddressType, InterfaceConfig, InterfaceConfigV, ProvisioningConfig,
    ProvisioningConfigV,
};
use crate::sources::LocalSource;
use crate::text::str_contains_char;

verus! {

/// The address type of an address kind.
pub open spec fn kind_type(k: AddressKind) -> AddressType {
    match k {
        AddressKind::Dhcp4 => AddressType::Dhcp4,
        AddressKind::Dhcp6 => AddressType::Dhcp6,
        AddressKind::Addrconf => AddressType::Addrconf,
        AddressKind::Static => AddressType::Static,
    }
}

/// The address that an address object gives: its type and address, no gateway,
/// not primary.
pub open spec fn local_address(a: AddressObjectV) -> AddressConfigV {
    AddressConfigV { addr_type: kind_type(a.kind), address: a.address, gateway: None, primary: false }
}

/// The interface that an interface of the system configuration gives: its
/// selector as MAC address where it holds a colon, and its addresses.
pub open spec fn local_interface(i: InterfaceV) -> InterfaceConfigV {
    InterfaceConfigV {
        mac_address: match i.selector {
            Some(s) => if s.contains(':') {
                Some(s)
            } else {
                None
            },
            None => None,
        },
        mtu: None,
        addresses: Seq::new(i.addresses.len(), |k: int| local_address(i.addresses[k])),
        enabled: true,
        description: None,
        vlan_id: None,
        parent: None,
    }
}

/// The named interfaces, by name; unnamed ones are left out.
pub open spec fn local_interfaces(ifs: Seq<InterfaceV>) -> Map<Seq<char>, InterfaceConfigV>
    decreases ifs.len(),
{
    if ifs.len() == 0 {
        Map::empty()
    } else {
        match ifs.last().name {
            Some(n) => local_interfaces(ifs.drop_last()).insert(n, local_interface(ifs.last())),
            None => local_interfaces(ifs.drop_last()),
        }
    }
}

/// The provisioning configuration that a system configuration gives: its host
/// name, name servers and named interfaces.
pub open spec fn local_config(k: SysConfigV) -> ProvisioningConfigV {
    ProvisioningConfigV {
        hostname: Some(k.hostname),
        nameservers: k.nameservers,
        interfaces: local_interfaces(k.interfaces),
        ..empty_config()
    }
}

fn kind_type_of(k: AddressKind) -> (r: AddressType)
    ensures
        r == kind_type(k),
{
    match k {
        AddressKind::Dhcp4 => AddressType::Dhcp4,
        AddressKind::Dhcp6 => AddressType::Dhcp6,
        AddressKind::Addrconf => AddressType::Addrconf,
        AddressKind::Static => AddressType::Static,
    }
}

fn interface_of(i: &Interface) -> (r: InterfaceConfig)
    ensures
        r@ == local_interface(i.model()),
{
    let mut addrs: Vec<AddressConfig> = Vec::new();
    let mut k: usize = 0;
    while k < i.addresses.len()
        invariant
            k <= i.addresses@.len(),
            addrs_view(addrs@) =~= Seq::new(k as nat, |j: int| local_address(i.addresses@[j].model())),
        decreases i.addresses.len() - k,
    {
        let a = &i.addresses[k];
        let x = AddressConfig {
            addr_type: kind_type_of(a.kind),
            address: match &a.address {
                Some(t) => Some(t.clone()),
                None => None,
            },
            gateway: None,
            primary: false,
        };
        let ghost before = addrs_view(addrs@);
        addrs.push(x);
        assert(addrs_view(addrs@) =~= before.push(x@));
        k = k + 1;
    }
    let mac = match &i.selector {
        Some(s) => if str_contains_char(s.as_str(), ':') {
            Some(s.clone())
        } else {
            None
        },
        None => None,
    };
    let r = InterfaceConfig {
        mac_address: mac,
        mtu: None,
        addresses: addrs,
        enabled: true,
        description: None,
        vlan_id: None,
        parent: None,
    };
    assert(r@.addresses =~= local_interface(i.model()).addresses);
    r
}

impl LocalSource {
    /// The provisioning configuration that a system configuration gives, as
    /// `local_config` says.
    pub fn from_sysconfig(&self, kdl_config: &SysConfig) -> (r: ProvisioningConfig)
        ensures
            r.wf(),
            r@ == local_config(kdl_config.model()),
    {
        let mut c = ProvisioningConfig::new();
        c.hostname = Some(kdl_config.hostname.clone());
        let mut ns: Vec<String> = Vec::new();
        let mut j: usize = 0;
        while j < kdl_config.nameservers.len()
            invariant
                j <= kdl_config.nameservers@.len(),
                crate::kdl_parser::strings_view(ns@) =~= Seq::new(j as nat, |m: int| kdl_config.nameservers@[m]@),
            decreases kdl_config.nameservers.len() - j,
        {
            let ghost before = crate::kdl_parser::strings_view(ns@);
            ns.push(kdl_config.nameservers[j].clone());
            assert(crate::kdl_parser::strings_view(ns@) =~= before.push(kdl_config.nameservers@[j as int]@));
            j = j + 1;
        }
        c.nameservers = ns;
        let ghost iv = kdl_config.model().interfaces;
        let mut ifs: Vec<(String, InterfaceConfig)> = Vec::new();
        assert(pairs_view(ifs@) =~= Seq::<(Seq<char>, InterfaceConfigV)>::empty());
        let mut k: usize = 0;
        while k < kdl_config.interfaces.len()
            invariant
                k <= kdl_config.interfaces@.len(),
                iv == kdl_config.model().interfaces,
                names_distinct(pairs_view(ifs@)),
                entries_map(pairs_view(ifs@)) == local_interfaces(iv.subrange(0, k as int)),
            decreases kdl_config.interfaces.len() - k,
        {
            proof {
                assert(iv.subrange(0, k as int + 1).drop_last() =~= iv.subrange(0, k as int));
                assert(iv.subrange(0, k as int + 1).last() == kdl_config.interfaces@[k as int].model());
            }
            let i = &kdl_config.interfaces[k];
            match &i.name {
                Some(n) => {
                    let x = interface_of(i);
                    put_entry(&mut ifs, n.clone(), x);
                },
                None => {},
            }
            k = k + 1;
        }
        assert(iv.subrange(0, kdl_config.interfaces@.len() as int) =~= iv);
        c.interfaces = ifs;
        c
    }
}

} // verus!
