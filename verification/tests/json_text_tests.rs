use sysconfig::error::Error;
use sysconfig::json::Json;
use sysconfig::json_text::{
    json_to_text, parse_json_or_yaml, parse_json_text, parse_json_then_yaml, parse_yaml_text, user_data_value,
};
use sysconfig::prov_config::{AddressType, InterfaceConfig, ProvisioningConfig};
use sysconfig::smartos::metadata_value;
use sysconfig::sources::{CloudInitSource, DigitalOceanSource, OpenStackSource, SmartOSSource};
use sysconfig::state::SystemState;

fn member<'a>(j: &'a Json, key: &str) -> Option<&'a Json> {
    match j {
        Json::Object(m) => m.iter().find(|(k, _)| k == key).map(|(_, v)| v),
        _ => None,
    }
}

fn find<'a>(ifs: &'a [(String, InterfaceConfig)], name: &str) -> &'a InterfaceConfig {
    &ifs.iter().find(|(n, _)| n == name).expect("interface present").1
}

#[test]
fn test_parse_json_text_values() {
    let j = parse_json_text("{\"b\": [1, -2, 2.5, \"x\", null, true]}").unwrap();
    match member(&j, "b") {
        Some(Json::Array(items)) => {
            assert!(matches!(items[0], Json::PosInt(1)));
            assert!(matches!(items[1], Json::NegInt(-2)));
            assert!(matches!(&items[2], Json::Float(s) if s == "2.5"));
            assert!(matches!(&items[3], Json::Str(s) if s == "x"));
            assert!(matches!(items[4], Json::Null));
            assert!(matches!(items[5], Json::Bool(true)));
        }
        _ => panic!("expected an array"),
    }
    assert!(parse_json_text("{not json").is_none());
}

#[test]
fn test_parse_yaml_and_choice() {
    let y = parse_yaml_text("hostname: web-1\ncount: 3\n").unwrap();
    assert!(matches!(member(&y, "hostname"), Some(Json::Str(s)) if s == "web-1"));
    assert!(matches!(member(&y, "count"), Some(Json::PosInt(3))));
    let j = parse_json_or_yaml("  {\"hostname\": \"a\"}").unwrap();
    assert!(matches!(member(&j, "hostname"), Some(Json::Str(s)) if s == "a"));
    assert!(parse_json_or_yaml("{broken").is_none());
    let t = parse_json_then_yaml("key: value").unwrap();
    assert!(matches!(member(&t, "key"), Some(Json::Str(s)) if s == "value"));
}

#[test]
fn test_json_to_text_is_compact_with_sorted_keys() {
    let j = Json::Object(vec![
        ("b".to_string(), Json::PosInt(2)),
        ("a".to_string(), Json::Array(vec![Json::Bool(false), Json::Null])),
    ]);
    assert_eq!(json_to_text(&j), "{\"a\":[false,null],\"b\":2}");
}

#[test]
fn test_system_state_json_round_trip() {
    let s = SystemState::from_json("{\"network\":{\"hostname\":\"h\"}}").unwrap();
    assert!(matches!(s.get("network.hostname"), Some(Json::Str(h)) if h == "h"));
    assert_eq!(s.to_json().unwrap(), "{\"network\":{\"hostname\":\"h\"}}");
    match SystemState::from_json("not json") {
        Err(Error::Decode(m)) => assert_eq!(m, "Invalid JSON state"),
        _ => panic!("expected a decode error"),
    }
}

#[test]
fn test_smartos_network_config_from_nics() {
    let source = SmartOSSource::with_locations(false, false);
    let nics = "[{\"interface\":\"net0\",\"mac\":\"90:B8:D0:00:00:01\",\"ip\":\"10.0.0.5\",\"netmask\":\"255.255.255.0\"}]";
    let ifs = source.network_config_from(Some(nics), Some("aa".to_string()), Some("1.2.3.4".to_string()), None, None);
    assert_eq!(ifs.len(), 1);
    let net0 = find(&ifs, "net0");
    assert_eq!(net0.addresses[0].address.as_deref(), Some("10.0.0.5/24"));
}

#[test]
fn test_smartos_network_config_falls_back_to_primary() {
    let source = SmartOSSource::with_locations(false, false);
    let ifs = source.network_config_from(
        Some("not json"),
        Some("90:b8:d0:00:00:02".to_string()),
        Some("192.168.1.9".to_string()),
        Some("255.255.0.0".to_string()),
        Some("192.168.0.1".to_string()),
    );
    assert_eq!(ifs.len(), 1);
    assert_eq!(ifs[0].0, "net0");
    assert_eq!(ifs[0].1.addresses[0].addr_type, AddressType::Static);
    assert_eq!(ifs[0].1.addresses[0].address.as_deref(), Some("192.168.1.9/16"));
    assert!(source.network_config_from(None, None, None, None, None).is_empty());
}

#[test]
fn test_smartos_metadata_value_and_keys() {
    assert!(matches!(metadata_value("42".to_string()), Json::PosInt(42)));
    assert!(matches!(metadata_value("plain text".to_string()), Json::Str(s) if s == "plain text"));
    let source = SmartOSSource::with_locations(false, false);
    let keys = source.ssh_keys_of_answers(None, Some("{\"a\":\"ssh-rsa AAA a\"}"), None);
    assert_eq!(keys, vec!["ssh-rsa AAA a".to_string()]);
}

#[test]
fn test_cloud_init_texts() {
    let source = CloudInitSource::new();
    let mut config = ProvisioningConfig::new();
    source.metadata_text_into("hostname: ci-host\n", &mut config).unwrap();
    assert_eq!(config.hostname.as_deref(), Some("ci-host"));
    assert_eq!(source.metadata_text_into("{bad", &mut config), Err("Failed to parse meta-data".to_string()));
    source
        .network_text_into("version: 2\nethernets:\n  eth0:\n    dhcp4: true\n", &mut config)
        .unwrap();
    assert_eq!(find(&config.interfaces, "eth0").addresses[0].addr_type, AddressType::Dhcp4);
}

#[test]
fn test_digitalocean_metadata_text() {
    let source = DigitalOceanSource::new();
    let config = source.config_from_metadata_text("{\"hostname\":\"droplet\"}").unwrap();
    assert_eq!(config.hostname.as_deref(), Some("droplet"));
    assert_eq!(source.config_from_metadata_text("nope").unwrap_err(), "Failed to parse meta_data.json");
}

#[test]
fn test_openstack_texts() {
    let source = OpenStackSource::new();
    let config = source
        .config_from_texts(Some("{\"hostname\":\"os-1\",\"public_keys\":{\"k\":\"ssh-ed25519 AAA\"}}"), None, Some("#!/bin/sh".to_string()))
        .unwrap();
    assert_eq!(config.hostname.as_deref(), Some("os-1"));
    assert_eq!(config.ssh_authorized_keys, vec!["ssh-ed25519 AAA".to_string()]);
    assert_eq!(config.user_data.as_deref(), Some("#!/bin/sh"));
    assert!(config.metadata.iter().any(|(k, _)| k == "openstack-instance"));
    assert_eq!(source.config_from_texts(Some("{}"), Some("bad"), None).unwrap_err(), "Failed to parse network_data.json");
    assert_eq!(source.config_from_texts(Some("bad"), None, None).unwrap_err(), "Failed to parse meta_data.json");
}

#[test]
fn test_user_data_forms() {
    let cc = user_data_value("#cloud-config\npackages:\n  - vim\n").unwrap();
    match member(&cc, "packages") {
        Some(Json::Array(items)) => assert!(matches!(&items[0], Json::Str(s) if s == "vim")),
        _ => panic!("expected packages"),
    }
    let script = user_data_value("#!/bin/sh\necho hi\n").unwrap();
    match member(&script, "runcmd") {
        Some(Json::Array(items)) => assert!(matches!(&items[0], Json::Str(s) if s == "#!/bin/sh\necho hi\n")),
        _ => panic!("expected runcmd"),
    }
    let j = user_data_value("{\"a\": 1}").unwrap();
    assert!(matches!(member(&j, "a"), Some(Json::PosInt(1))));
}
