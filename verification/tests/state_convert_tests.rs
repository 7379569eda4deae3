use sysconfig::json::Json;
use sysconfig::prov_config::{AddressConfig, AddressType, InterfaceConfig, ProvisioningConfig, RouteConfig, UserConfig};
use sysconfig::prov_json::config_to_state;

fn from_json(j: &Json) -> serde_json::Value {
    match j {
        Json::Null => serde_json::Value::Null,
        Json::Bool(b) => serde_json::Value::Bool(*b),
        Json::PosInt(n) => serde_json::Value::from(*n),
        Json::NegInt(n) => serde_json::Value::from(*n),
        Json::Float(s) => serde_json::from_str(s).unwrap(),
        Json::Str(s) => serde_json::Value::String(s.clone()),
        Json::Array(a) => serde_json::Value::Array(a.iter().map(from_json).collect()),
        Json::Object(m) => serde_json::Value::Object(m.iter().map(|(k, v)| (k.clone(), from_json(v))).collect()),
    }
}

fn value(text: &str) -> serde_json::Value {
    serde_json::from_str(text).unwrap()
}

fn keys_sorted(j: &Json) -> bool {
    match j {
        Json::Object(m) => m.windows(2).all(|w| w[0].0 < w[1].0) && m.iter().all(|(_, v)| keys_sorted(v)),
        Json::Array(a) => a.iter().all(keys_sorted),
        _ => true,
    }
}

#[test]
fn test_config_to_state_empty() {
    let state = config_to_state(&ProvisioningConfig::new());
    assert_eq!(from_json(&state), value("{}"));
}

#[test]
fn test_config_to_state_full() {
    let mut c = ProvisioningConfig::new();
    c.hostname = Some("web01".to_string());
    c.nameservers = vec!["1.1.1.1".to_string()];
    c.insert_interface(
        "eth0".to_string(),
        InterfaceConfig {
            mac_address: Some("aa:bb:cc:dd:ee:ff".to_string()),
            mtu: Some(1500),
            addresses: vec![AddressConfig {
                addr_type: AddressType::Static,
                address: Some("10.0.0.5/24".to_string()),
                gateway: Some("10.0.0.1".to_string()),
                primary: true,
            }],
            enabled: true,
            description: None,
            vlan_id: None,
            parent: None,
        },
    );
    c.routes = vec![RouteConfig {
        destination: "10.1.0.0/16".to_string(),
        gateway: "10.0.0.2".to_string(),
        interface: None,
        metric: Some(100),
    }];
    c.ssh_authorized_keys = vec!["ssh-rsa AAA".to_string()];
    c.users = vec![UserConfig {
        name: "ops".to_string(),
        gecos: None,
        uid: Some(1001),
        group: None,
        groups: vec!["wheel".to_string()],
        home: None,
        shell: Some("/bin/sh".to_string()),
        ssh_authorized_keys: vec![],
        create_home: true,
        password_hash: None,
        sudo: true,
    }];
    c.ntp_servers = vec!["pool.ntp.org".to_string()];
    c.timezone = Some("UTC".to_string());
    c.insert_metadata("zone".to_string(), Json::Str("a".to_string()));
    c.insert_metadata("id".to_string(), Json::PosInt(7));

    let state = config_to_state(&c);
    assert!(keys_sorted(&state));
    let expected = value(
        r#"{
        "metadata": {"id": 7, "zone": "a"},
        "network": {
            "links": {
                "eth0": {
                    "addresses": [{"address": "10.0.0.5/24", "gateway": "10.0.0.1", "primary": true, "type": "static"}],
                    "enabled": true,
                    "mac_address": "aa:bb:cc:dd:ee:ff",
                    "mtu": 1500
                },
                "routes": [{"destination": "10.1.0.0/16", "gateway": "10.0.0.2", "metric": 100}]
            },
            "settings": {"dns": {"nameservers": ["1.1.1.1"]}, "hostname": "web01"}
        },
        "ntp_servers": ["pool.ntp.org"],
        "ssh_authorized_keys": ["ssh-rsa AAA"],
        "timezone": "UTC",
        "users": [{"create_home": true, "groups": ["wheel"], "name": "ops", "shell": "/bin/sh", "sudo": true, "uid": 1001}]
    }"#,
    );
    assert_eq!(from_json(&state), expected);
}

#[test]
fn test_config_to_state_settings_only() {
    let mut c = ProvisioningConfig::new();
    c.search_domains = vec!["example.com".to_string()];
    let state = config_to_state(&c);
    assert_eq!(
        from_json(&state),
        value(r#"{"network": {"settings": {"dns": {"search": ["example.com"]}}}}"#)
    );
}

#[test]
fn test_address_type_names() {
    let a = AddressConfig { addr_type: AddressType::Dhcp6, address: None, gateway: None, primary: false };
    assert_eq!(from_json(&a.to_json()), value(r#"{"primary": false, "type": "dhcp6"}"#));
    let b = AddressConfig { addr_type: AddressType::Addrconf, address: None, gateway: None, primary: true };
    assert_eq!(from_json(&b.to_json()), value(r#"{"primary": true, "type": "addrconf"}"#));
}
