//! The configuration model that the service applies.
use vstd::prelude::*;

verus! {

/// How an address is obtained.
#[derive(Debug, Clone, Copy, PartialEq, Eq, Structural)]
pub enum AddressKind {
    Dhcp4,
    Dhcp6,
    Addrconf,
    Static,
}

/// An address of an interface.
#[derive(Debug)]
pub struct AddressObject {
    pub name: String,
    pub kind: AddressKind,
    pub address: Option<String>,
}

/// A network interface.
#[derive(Debug)]
pub struct Interface {
    pub name: Option<String>,
    pub selector: Option<String>,
    pub addresses: Vec<AddressObject>,
}

/// The system configuration.
#[derive(Debug)]
pub struct SysConfig {
    pub hostname: String,
    pub nameservers: Vec<String>,
    pub interfaces: Vec<Interface>,
}

pub struct AddressObjectV {
    pub name: Seq<char>,
    pub kind: AddressKind,
    pub address: Option<Seq<char>>,
}

pub struct InterfaceV {
    pub name: Option<Seq<char>>,
    pub selector: Option<Seq<char>>,
    pub addresses: Seq<AddressObjectV>,
}

pub struct SysConfigV {
    pub hostname: Seq<char>,
    pub nameservers: Seq<Seq<char>>,
    pub interfaces: Seq<InterfaceV>,
}

pub open spec fn opt_str(o: Option<String>) -> Option<Seq<char>> {
    match o {
        Some(s) => Some(s@),
        None => None,
    }
}

impl AddressObject {
    pub open spec fn model(&self) -> AddressObjectV {
        AddressObjectV { name: self.name@, kind: self.kind, address: opt_str(self.address) }
    }
}

impl Interface {
    pub open spec fn model(&self) -> InterfaceV {
        InterfaceV {
            name: opt_str(self.name),
            selector: opt_str(self.selector),
            addresses: Seq::new(self.addresses@.len(), |i: int| self.addresses@[i].model()),
        }
    }
}

impl SysConfig {
    pub open spec fn model(&self) -> SysConfigV {
        SysConfigV {
            hostname: self.hostname@,
            nameservers: Seq::new(self.nameservers@.len(), |i: int| self.nameservers@[i]@),
            interfaces: Seq::new(self.interfaces@.len(), |i: int| self.interfaces@[i].model()),
        }
    }

    /// The empty configuration.
    pub fn default() -> (r: SysConfig)
        ensures
            r.model() == (SysConfigV { hostname: Seq::empty(), nameservers: Seq::empty(), interfaces: Seq::empty() }),
    {
        let r = SysConfig { hostname: String::new(), nameservers: Vec::new(), interfaces: Vec::new() };
        assert(r.model().nameservers =~= Seq::<Seq<char>>::empty());
        assert(r.model().interfaces =~= Seq::<InterfaceV>::empty());
        r
    }
}

} // verus!
