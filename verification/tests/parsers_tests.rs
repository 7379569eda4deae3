use sysconfig::json::Json;
use sysconfig::openstack::{metadata_hostname_of, metadata_ssh_keys_of};
use sysconfig::prov_config::{AddressType, InterfaceConfig, ProvisioningConfig};
use sysconfig::sources::{CloudInitSource, OpenStackSource, SmartOSSource};

fn to_json(v: &serde_json::Value) -> Json {
    match v {
        serde_json::Value::Null => Json::Null,
        serde_json::Value::Bool(b) => Json::Bool(*b),
        serde_json::Value::Number(n) => {
            if let Some(u) = n.as_u64() {
                Json::PosInt(u)
            } else if let Some(i) = n.as_i64() {
                Json::NegInt(i)
            } else {
                Json::Float(n.to_string())
            }
        }
        serde_json::Value::String(s) => Json::Str(s.clone()),
        serde_json::Value::Array(a) => Json::Array(a.iter().map(to_json).collect()),
        serde_json::Value::Object(m) => Json::Object(m.iter().map(|(k, v)| (k.clone(), to_json(v))).collect()),
    }
}

fn parse(text: &str) -> Json {
    to_json(&serde_json::from_str::<serde_json::Value>(text).unwrap())
}

fn find<'a>(ifs: &'a [(String, InterfaceConfig)], name: &str) -> &'a InterfaceConfig {
    &ifs.iter().find(|(k, _)| k == name).expect("interface").1
}

#[test]
fn test_openstack_network_v1() {
    let data = parse(
        r#"{
        "links": [
            {"id": "tap1", "name": "eth0", "ethernet_mac_address": "FA:16:3E:00:00:01", "mtu": 1450},
            {"id": "tap2", "ethernet_mac_address": "fa-16-3e-00-00-02", "vlan_id": 42, "vlan_link": "eth0"},
            {"name": "ignored"}
        ],
        "networks": [
            {"link": "tap1", "type": "ipv4", "ip_address": "10.0.0.5", "netmask": "255.255.255.0", "gateway": "10.0.0.1"},
            {"link": "tap1", "type": "ipv6_dhcp"},
            {"link": "tap2", "type": "ipv4_dhcp"},
            {"link": "tap2", "type": "ipv6", "ip_address": "2001:db8::5"},
            {"link": "nowhere", "type": "ipv4_dhcp"}
        ]
    }"#,
    );
    let source = OpenStackSource::new();
    let ifs = source.parse_network_v1(&data);
    assert_eq!(ifs.len(), 2);
    let eth0 = find(&ifs, "eth0");
    assert_eq!(eth0.mac_address, Some("fa:16:3e:00:00:01".to_string()));
    assert_eq!(eth0.mtu, Some(1450));
    assert_eq!(eth0.addresses.len(), 2);
    assert_eq!(eth0.addresses[0].address, Some("10.0.0.5/24".to_string()));
    assert_eq!(eth0.addresses[0].gateway, Some("10.0.0.1".to_string()));
    assert!(eth0.addresses[0].primary);
    assert_eq!(eth0.addresses[1].addr_type, AddressType::Dhcp6);
    let tap2 = find(&ifs, "tap2");
    assert_eq!(tap2.mac_address, Some("fa:16:3e:00:00:02".to_string()));
    assert_eq!(tap2.vlan_id, Some(42));
    assert_eq!(tap2.parent, Some("eth0".to_string()));
    assert_eq!(tap2.addresses[0].addr_type, AddressType::Dhcp4);
    assert!(tap2.addresses[0].primary);
    assert_eq!(tap2.addresses[1].address, Some("2001:db8::5/64".to_string()));
    assert!(!tap2.addresses[1].primary);
}

#[test]
fn test_openstack_network_v2() {
    let data = parse(
        r#"{
        "version": 2,
        "ethernets": {
            "eth0": {
                "match": {"macaddress": "AA:BB:CC:DD:EE:FF"},
                "addresses": ["10.0.0.5/24", "2001:db8::5/64"],
                "gateway4": "10.0.0.1",
                "gateway6": "2001:db8::1",
                "mtu": 9000
            },
            "eth1": {"set-name": "lan1", "dhcp4": true, "dhcp6": true}
        },
        "vlans": {"vlan10": {"id": 10, "link": "eth0", "mtu": 1500}}
    }"#,
    );
    let source = OpenStackSource::new();
    let ifs = source.parse_network_data(&data);
    assert_eq!(ifs.len(), 3);
    let eth0 = find(&ifs, "eth0");
    assert_eq!(eth0.mac_address, Some("aa:bb:cc:dd:ee:ff".to_string()));
    assert_eq!(eth0.mtu, Some(9000));
    assert_eq!(eth0.addresses[0].gateway, Some("10.0.0.1".to_string()));
    assert_eq!(eth0.addresses[1].gateway, Some("2001:db8::1".to_string()));
    let eth1 = find(&ifs, "eth1");
    assert_eq!(eth1.mac_address, Some("lan1".to_string()));
    assert_eq!(eth1.addresses.len(), 2);
    assert!(eth1.addresses[0].primary);
    assert_eq!(eth1.addresses[1].addr_type, AddressType::Dhcp6);
    let vlan = find(&ifs, "vlan10");
    assert_eq!(vlan.vlan_id, Some(10));
    assert_eq!(vlan.parent, Some("eth0".to_string()));
    assert_eq!(vlan.description, Some("OpenStack VLAN interface".to_string()));
}

#[test]
fn test_openstack_metadata() {
    let md = parse(r#"{"name": "vm-1", "public_keys": {"a": "ssh-rsa AAA", "b": 3}}"#);
    assert_eq!(metadata_hostname_of(&md), Some("vm-1".to_string()));
    assert_eq!(metadata_ssh_keys_of(&md), vec!["ssh-rsa AAA".to_string()]);
    let md = parse(r#"{"hostname": "h", "keys": [{"data": "ssh-ed25519 K"}, {"name": "x"}]}"#);
    assert_eq!(metadata_hostname_of(&md), Some("h".to_string()));
    assert_eq!(metadata_ssh_keys_of(&md), vec!["ssh-ed25519 K".to_string()]);
}

#[test]
fn test_cloud_init_network_v1() {
    let c = parse(
        r#"{
        "version": 1,
        "config": [
            {"type": "physical", "name": "eth0", "mac_address": "AA:BB:CC:00:11:22",
             "subnets": [{"type": "static", "address": "192.168.1.10/24", "gateway": "192.168.1.1"}, {"type": "dhcp6"}]},
            {"type": "vlan", "name": "eth0.100", "vlan_id": 100, "vlan_link": "eth0", "subnets": [{"type": "dhcp"}]},
            {"type": "nameserver", "address": ["1.1.1.1"]}
        ]
    }"#,
    );
    let source = CloudInitSource::new();
    let ifs = source.parse_network_config(&c).unwrap();
    assert_eq!(ifs.len(), 2);
    let eth0 = find(&ifs, "eth0");
    assert_eq!(eth0.mac_address, Some("aa:bb:cc:00:11:22".to_string()));
    assert_eq!(eth0.addresses[0].address, Some("192.168.1.10/24".to_string()));
    assert!(eth0.addresses[0].primary);
    assert_eq!(eth0.addresses[1].addr_type, AddressType::Dhcp6);
    let vlan = find(&ifs, "eth0.100");
    assert_eq!(vlan.vlan_id, Some(100));
    assert_eq!(vlan.addresses[0].addr_type, AddressType::Dhcp4);
}

#[test]
fn test_cloud_init_network_errors() {
    let source = CloudInitSource::new();
    assert_eq!(
        source.parse_network_config(&parse(r#"{"version": 1}"#)).unwrap_err(),
        "No config array in network configuration"
    );
    assert_eq!(
        source.parse_network_config(&parse(r#"{"config": [{"type": "physical"}]}"#)).unwrap_err(),
        "Physical interface missing name"
    );
    assert_eq!(
        source.parse_network_config(&parse(r#"{"config": [{"type": "vlan"}]}"#)).unwrap_err(),
        "VLAN interface missing name"
    );
    assert_eq!(
        source
            .parse_network_config(&parse(r#"{"config": [{"type": "physical", "name": "e", "subnets": [{}]}]}"#))
            .unwrap_err(),
        "Static subnet missing address"
    );
    assert_eq!(
        source.parse_network_config(&parse(r#"{"version": 3}"#)).unwrap_err(),
        "Unsupported network config version"
    );
}

#[test]
fn test_cloud_init_network_v2() {
    let c = parse(
        r#"{
        "version": 2,
        "ethernets": {"eth0": {"set-name": "x", "addresses": ["10.0.0.2/24"], "gateway4": "10.0.0.1"}},
        "vlans": {"v5": {"id": 5, "link": "eth0", "addresses": ["10.5.0.2/24"]}}
    }"#,
    );
    let source = CloudInitSource::new();
    let ifs = source.parse_network_config(&c).unwrap();
    let eth0 = find(&ifs, "eth0");
    assert_eq!(eth0.mac_address, None);
    assert_eq!(eth0.description, Some("Cloud-init network interface".to_string()));
    assert_eq!(eth0.addresses[0].gateway, Some("10.0.0.1".to_string()));
    let v5 = find(&ifs, "v5");
    assert_eq!(v5.addresses[0].address, Some("10.5.0.2/24".to_string()));
    assert!(v5.addresses[0].primary);
}

#[test]
fn test_cloud_init_metadata() {
    let md = parse(
        r#"{
        "instance-id": "i-123",
        "public-keys": "ssh-rsa A one\n# comment\n\n  ssh-rsa B two  \n",
        "ssh_authorized_keys": ["ssh-rsa A one", "ssh-rsa C three"]
    }"#,
    );
    let source = CloudInitSource::new();
    let mut config = ProvisioningConfig::new();
    source.parse_metadata(&md, &mut config).unwrap();
    assert_eq!(config.hostname, Some("i-123".to_string()));
    assert_eq!(
        config.ssh_authorized_keys,
        vec!["ssh-rsa A one".to_string(), "ssh-rsa B two".to_string(), "ssh-rsa C three".to_string()]
    );
    assert_eq!(config.metadata.len(), 1);
    assert_eq!(config.metadata[0].0, "cloud-init");
}

#[test]
fn test_cloud_init_metadata_key_objects() {
    let md = parse(r#"{"public-keys": ["ssh-rsa X", {"openssh-key": "ssh-rsa Y"}, {"other": 1}]}"#);
    let source = CloudInitSource::new();
    let mut config = ProvisioningConfig::new();
    config.hostname = Some("keep".to_string());
    source.parse_metadata(&md, &mut config).unwrap();
    assert_eq!(config.hostname, Some("keep".to_string()));
    assert_eq!(config.ssh_authorized_keys, vec!["ssh-rsa X".to_string(), "ssh-rsa Y".to_string()]);
}

#[test]
fn test_smartos_nics() {
    let nics = match parse(
        r#"[
        {"interface": "net0", "mac": "90:B8:D0:00:00:01", "ip": "10.88.88.5", "netmask": "255.255.255.0",
         "gateway": "10.88.88.1", "mtu": 1500,
         "ips": ["10.88.88.5/24", "fd00::5/64", {"ip": "fd00::6", "gateway": "fd00::1"}, {"ip": "10.1.1.1", "prefix": 16}]},
        {"mac": "90:b8:d0:00:00:02", "dhcp": true, "vlan_id": 7},
        {"interface": "net9", "ip": "192.168.0.2", "netmask": "bad", "primary": true}
    ]"#,
    ) {
        Json::Array(a) => a,
        _ => panic!("array"),
    };
    let source = SmartOSSource::with_locations(false, false);
    let ifs = source.parse_nics(&nics);
    assert_eq!(ifs.len(), 3);
    let net0 = find(&ifs, "net0");
    assert_eq!(net0.mac_address, Some("90:b8:d0:00:00:01".to_string()));
    assert_eq!(net0.addresses.len(), 4);
    assert_eq!(net0.addresses[0].address, Some("10.88.88.5/24".to_string()));
    assert!(net0.addresses[0].primary);
    assert_eq!(net0.addresses[1].address, Some("fd00::5/64".to_string()));
    assert_eq!(net0.addresses[2].address, Some("fd00::6/64".to_string()));
    assert_eq!(net0.addresses[2].gateway, Some("fd00::1".to_string()));
    assert_eq!(net0.addresses[3].address, Some("10.1.1.1/16".to_string()));
    let net1 = find(&ifs, "net1");
    assert_eq!(net1.vlan_id, Some(7));
    assert_eq!(net1.addresses[0].addr_type, AddressType::Dhcp4);
    let net9 = find(&ifs, "net9");
    assert_eq!(net9.addresses[0].address, Some("192.168.0.2/24".to_string()));
}

#[test]
fn test_smartos_primary_interface() {
    let source = SmartOSSource::with_locations(false, false);
    let i = source
        .primary_interface(None, Some("10.0.0.9".to_string()), Some("255.255.0.0".to_string()), None)
        .unwrap();
    assert_eq!(i.addresses[0].address, Some("10.0.0.9/16".to_string()));
    assert!(source.primary_interface(None, None, None, None).is_none());
    let j = source.primary_interface(Some("aa:bb".to_string()), None, None, None).unwrap();
    assert!(j.addresses.is_empty());
}
