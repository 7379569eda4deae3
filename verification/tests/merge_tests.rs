use sysconfig::json::Json;
use sysconfig::merger::ConfigMerger;
use sysconfig::prov_config::{
    default_true, AddressConfig, AddressType, InterfaceConfig, ProvisioningConfig, RouteConfig, UserConfig,
};
use sysconfig::provisioning::{merge_configurations, parse_data_sources, DataSource};

fn to_json(v: &serde_json::Value) -> Json {
    match v {
        serde_json::Value::Null => Json::Null,
        serde_json::Value::Bool(b) => Json::Bool(*b),
        serde_json::Value::Number(n) => {
            if let Some(u) = n.as_u64() {
                Json::PosInt(u)
            } else if let Some(i) = n.as_i64() {
                Json::NegInt(i)
            } else {
                Json::Float(n.to_string())
            }
        }
        serde_json::Value::String(s) => Json::Str(s.clone()),
        serde_json::Value::Array(a) => Json::Array(a.iter().map(to_json).collect()),
        serde_json::Value::Object(m) => Json::Object(m.iter().map(|(k, v)| (k.clone(), to_json(v))).collect()),
    }
}

fn parse(text: &str) -> Json {
    to_json(&serde_json::from_str::<serde_json::Value>(text).unwrap())
}

fn str_of(j: &Json) -> &str {
    match j {
        Json::Str(s) => s.as_str(),
        _ => panic!("not a string"),
    }
}

fn member<'a>(j: &'a Json, key: &str) -> &'a Json {
    match j {
        Json::Object(e) => &e.iter().find(|(k, _)| k == key).expect("member").1,
        _ => panic!("not an object"),
    }
}

fn interface<'a>(c: &'a ProvisioningConfig, name: &str) -> Option<&'a InterfaceConfig> {
    c.interfaces.iter().find(|(k, _)| k == name).map(|(_, v)| v)
}

fn metadata<'a>(c: &'a ProvisioningConfig, key: &str) -> Option<&'a Json> {
    c.metadata.iter().find(|(k, _)| k == key).map(|(_, v)| v)
}

#[test]
fn test_merge_configurations() {
    let mut base = parse(r#"{"system": {"hostname": "old-host"}, "users": ["user1"]}"#);
    let overlay = parse(
        r#"{"system": {"timezone": "UTC"}, "users": ["user2"], "networking": {"interfaces": []}}"#,
    );

    merge_configurations(&mut base, overlay).unwrap();

    assert_eq!(str_of(member(member(&base, "system"), "hostname")), "old-host");
    assert_eq!(str_of(member(member(&base, "system"), "timezone")), "UTC");
    match member(&base, "users") {
        Json::Array(a) => {
            assert_eq!(a.len(), 1);
            assert_eq!(str_of(&a[0]), "user2");
        }
        _ => panic!("users should be an array"),
    }
    match member(member(&base, "networking"), "interfaces") {
        Json::Array(a) => assert!(a.is_empty()),
        _ => panic!("interfaces should be an array"),
    }
}

#[test]
fn test_parse_data_sources() {
    let sources = parse_data_sources(
        "local,cloud-init,ec2",
        Some("/tmp/config.json"),
        "/tmp/meta-data",
        "/tmp/user-data",
        "/tmp/network-config",
    )
    .unwrap();

    assert_eq!(sources.len(), 3);
    assert_eq!(sources[0].priority, 10);
    assert_eq!(sources[1].priority, 20);
    assert_eq!(sources[2].priority, 30);
    assert!(matches!(&sources[0].source, DataSource::Local(p) if p == "/tmp/config.json"));

    let sources_no_local = parse_data_sources(
        "local,cloud-init",
        None,
        "/tmp/meta-data",
        "/tmp/user-data",
        "/tmp/network-config",
    )
    .unwrap();

    assert_eq!(sources_no_local.len(), 1);
}

fn eth(mac: &str, mtu: u32, t: AddressType, address: Option<&str>, gateway: Option<&str>, primary: bool) -> InterfaceConfig {
    InterfaceConfig {
        mac_address: Some(mac.to_string()),
        mtu: Some(mtu),
        addresses: vec![AddressConfig {
            addr_type: t,
            address: address.map(|s| s.to_string()),
            gateway: gateway.map(|s| s.to_string()),
            primary,
        }],
        enabled: true,
        description: None,
        vlan_id: None,
        parent: None,
    }
}

#[test]
fn test_priority_override() {
    let mut merger = ConfigMerger::new();

    let mut config1 = ProvisioningConfig::new();
    config1.hostname = Some("low-priority-host".to_string());
    config1.nameservers = vec!["8.8.8.8".to_string()];
    merger.add_config(config1, 10);

    let mut config2 = ProvisioningConfig::new();
    config2.hostname = Some("high-priority-host".to_string());
    config2.nameservers = vec!["1.1.1.1".to_string()];
    merger.add_config(config2, 1);

    let merged = merger.merge();

    assert_eq!(merged.hostname, Some("high-priority-host".to_string()));
    assert!(merged.nameservers.contains(&"8.8.8.8".to_string()));
    assert!(merged.nameservers.contains(&"1.1.1.1".to_string()));
}

#[test]
fn test_interface_merge() {
    let mut merger = ConfigMerger::new();

    let mut config1 = ProvisioningConfig::new();
    let eth0 = eth("aa:bb:cc:dd:ee:ff", 1500, AddressType::Static, Some("192.168.1.10/24"), Some("192.168.1.1"), true);
    config1.insert_interface("eth0".to_string(), eth0);
    merger.add_config(config1, 10);

    let mut config2 = ProvisioningConfig::new();
    let eth0_override = eth("aa:bb:cc:dd:ee:ff", 9000, AddressType::Dhcp4, None, None, true);
    let eth1 = eth("11:22:33:44:55:66", 1500, AddressType::Static, Some("10.0.0.10/24"), None, false);
    config2.insert_interface("eth0".to_string(), eth0_override);
    config2.insert_interface("eth1".to_string(), eth1);
    merger.add_config(config2, 1);

    let merged = merger.merge();

    assert_eq!(merged.interfaces.len(), 2);
    let eth0_merged = interface(&merged, "eth0").unwrap();
    assert_eq!(eth0_merged.mtu, Some(9000));
    assert_eq!(eth0_merged.addresses[0].addr_type, AddressType::Dhcp4);
    assert!(interface(&merged, "eth1").is_some());
}

#[test]
fn test_ssh_key_merge() {
    let mut merger = ConfigMerger::new();

    let mut config1 = ProvisioningConfig::new();
    config1.ssh_authorized_keys = vec!["ssh-rsa KEY1 user1@host".to_string(), "ssh-rsa KEY2 user2@host".to_string()];
    merger.add_config(config1, 10);

    let mut config2 = ProvisioningConfig::new();
    config2.ssh_authorized_keys = vec!["ssh-rsa KEY2 user2@host".to_string(), "ssh-rsa KEY3 user3@host".to_string()];
    merger.add_config(config2, 5);

    let merged = merger.merge();

    assert_eq!(merged.ssh_authorized_keys.len(), 3);
    assert!(merged.ssh_authorized_keys.contains(&"ssh-rsa KEY1 user1@host".to_string()));
    assert!(merged.ssh_authorized_keys.contains(&"ssh-rsa KEY2 user2@host".to_string()));
    assert!(merged.ssh_authorized_keys.contains(&"ssh-rsa KEY3 user3@host".to_string()));
}

#[test]
fn test_metadata_merge() {
    let mut merger = ConfigMerger::new();

    let mut config1 = ProvisioningConfig::new();
    config1.insert_metadata("key1".to_string(), Json::Str("value1".to_string()));
    config1.insert_metadata("key2".to_string(), Json::Str("value2".to_string()));
    merger.add_config(config1, 10);

    let mut config2 = ProvisioningConfig::new();
    config2.insert_metadata("key2".to_string(), Json::Str("overridden".to_string()));
    config2.insert_metadata("key3".to_string(), Json::Str("value3".to_string()));
    merger.add_config(config2, 1);

    let merged = merger.merge();

    assert_eq!(merged.metadata.len(), 3);
    assert_eq!(str_of(metadata(&merged, "key1").unwrap()), "value1");
    assert_eq!(str_of(metadata(&merged, "key2").unwrap()), "overridden");
    assert_eq!(str_of(metadata(&merged, "key3").unwrap()), "value3");
}

#[test]
fn test_merger_bookkeeping() {
    let mut merger = ConfigMerger::new();
    assert!(merger.is_empty());
    merger.add_config(ProvisioningConfig::new(), 3);
    merger.add_config(ProvisioningConfig::new(), 3);
    merger.add_config(ProvisioningConfig::new(), 1);
    assert_eq!(merger.len(), 2);
    merger.clear();
    assert_eq!(merger.len(), 0);
}

#[test]
fn test_merger_timezone_and_users() {
    let mut merger = ConfigMerger::new();
    let mut low = ProvisioningConfig::new();
    low.timezone = Some("UTC".to_string());
    low.users = vec![user("admin", Some(1000))];
    merger.add_config(low, 20);
    let mut high = ProvisioningConfig::new();
    high.timezone = Some("Europe/Berlin".to_string());
    high.users = vec![user("admin", Some(2000)), user("ops", None)];
    merger.add_config(high, 2);
    let merged = merger.merge();
    assert_eq!(merged.timezone, Some("Europe/Berlin".to_string()));
    assert_eq!(merged.users.len(), 2);
    assert_eq!(merged.users[0].name, "admin");
    assert_eq!(merged.users[0].uid, Some(1000));
}

fn user(name: &str, uid: Option<u32>) -> UserConfig {
    UserConfig {
        name: name.to_string(),
        gecos: None,
        uid,
        group: None,
        groups: vec![],
        home: None,
        shell: None,
        ssh_authorized_keys: vec![],
        create_home: default_true(),
        password_hash: None,
        sudo: false,
    }
}

fn route(dest: &str, gw: &str) -> RouteConfig {
    RouteConfig { destination: dest.to_string(), gateway: gw.to_string(), interface: None, metric: None }
}

#[test]
fn test_provisioning_config_merge() {
    let mut a = ProvisioningConfig::new();
    a.hostname = Some("a".to_string());
    a.nameservers = vec!["1.1.1.1".to_string()];
    a.users = vec![user("root", Some(0))];
    a.routes = vec![route("0.0.0.0/0", "10.0.0.1")];
    a.insert_interface("eth0".to_string(), eth("aa", 1500, AddressType::Dhcp4, None, None, true));

    let mut b = ProvisioningConfig::new();
    b.nameservers = vec!["1.1.1.1".to_string(), "8.8.8.8".to_string()];
    b.users = vec![user("root", Some(5)), user("ops", None)];
    b.routes = vec![route("0.0.0.0/0", "10.0.0.1"), route("10.1.0.0/16", "10.0.0.2")];
    b.user_data = Some("#!/bin/sh".to_string());
    b.insert_interface("eth0".to_string(), eth("bb", 9000, AddressType::Static, Some("10.0.0.5/24"), None, true));

    a.merge(b);
    assert_eq!(a.hostname, Some("a".to_string()));
    assert_eq!(a.nameservers, vec!["1.1.1.1".to_string(), "8.8.8.8".to_string()]);
    assert_eq!(a.users.len(), 2);
    assert_eq!(a.users[0].uid, Some(0));
    assert_eq!(a.routes.len(), 2);
    assert_eq!(a.user_data, Some("#!/bin/sh".to_string()));
    assert_eq!(interface(&a, "eth0").unwrap().mtu, Some(9000));
}

#[test]
fn test_merge_with_empty_keeps_config() {
    let mut a = ProvisioningConfig::new();
    a.hostname = Some("keep".to_string());
    a.ntp_servers = vec!["pool.ntp.org".to_string()];
    a.merge(ProvisioningConfig::new());
    assert_eq!(a.hostname, Some("keep".to_string()));
    assert_eq!(a.ntp_servers, vec!["pool.ntp.org".to_string()]);
}
