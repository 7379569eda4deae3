use sysconfig::config::{AddressKind, AddressObject, Interface, SysConfig};
use sysconfig::json::Json;
use sysconfig::netutil::{decode_base64, encode_base64};
use sysconfig::prov_config::{AddressType, InterfaceConfig};
use sysconfig::sources::{AzureSource, DigitalOceanSource, EC2Source, GCPSource, LocalSource, SmartOSSource};

fn to_json(v: &serde_json::Value) -> Json {
    match v {
        serde_json::Value::Null => Json::Null,
        serde_json::Value::Bool(b) => Json::Bool(*b),
        serde_json::Value::Number(n) => {
            if let Some(u) = n.as_u64() {
                Json::PosInt(u)
            } else if let Some(i) = n.as_i64() {
                Json::NegInt(i)
            } else {
                Json::Float(n.to_string())
            }
        }
        serde_json::Value::String(s) => Json::Str(s.clone()),
        serde_json::Value::Array(a) => Json::Array(a.iter().map(to_json).collect()),
        serde_json::Value::Object(m) => Json::Object(m.iter().map(|(k, v)| (k.clone(), to_json(v))).collect()),
    }
}

fn parse(text: &str) -> Json {
    to_json(&serde_json::from_str::<serde_json::Value>(text).unwrap())
}

fn find<'a>(ifs: &'a [(String, InterfaceConfig)], name: &str) -> &'a InterfaceConfig {
    &ifs.iter().find(|(k, _)| k == name).expect("interface").1
}

fn entry<'a>(m: &'a [(String, Json)], key: &str) -> Option<&'a Json> {
    m.iter().find(|(k, _)| k == key).map(|(_, v)| v)
}

fn text(j: Option<&Json>) -> &str {
    match j {
        Some(Json::Str(s)) => s.as_str(),
        _ => panic!("not a string"),
    }
}

#[test]
fn test_extract_hostname() {
    let source = AzureSource::new();
    let metadata = parse(r#"{"compute": {"name": "my-vm", "computerName": "my-computer"}}"#);
    let hostname = source.extract_hostname(&metadata);
    assert_eq!(hostname, Some("my-vm".to_string()));

    let only_computer_name = parse(r#"{"compute": {"computerName": "my-computer"}}"#);
    assert_eq!(source.extract_hostname(&only_computer_name), Some("my-computer".to_string()));
    assert_eq!(source.extract_hostname(&parse("{}")), None);
}

#[test]
fn test_azure_network_config() {
    let source = AzureSource::new();
    let metadata = parse(
        r#"{"network": {"interface": [
            {"macAddress": "000D3A1B2C3D",
             "ipv4": {"ipAddress": [{"privateIpAddress": "10.0.0.4", "publicIpAddress": "1.2.3.4"},
                                    {"privateIpAddress": ""},
                                    {"privateIpAddress": "10.0.0.5"}],
                      "subnet": [{"address": "10.0.0.0", "prefix": "/26"}]},
             "ipv6": {"ipAddress": [{"privateIpAddress": "fd00::4"}]}},
            {"macAddress": "000D3A1B2C3E"}
        ]}}"#,
    );
    let ifs = source.parse_network_config(&metadata).unwrap();
    assert_eq!(ifs.len(), 2);
    let eth0 = find(&ifs, "eth0");
    assert_eq!(eth0.mac_address, Some("00:0d:3a:1b:2c:3d".to_string()));
    assert_eq!(eth0.addresses.len(), 3);
    assert_eq!(eth0.addresses[0].address, Some("10.0.0.4/26".to_string()));
    assert!(eth0.addresses[0].primary);
    assert_eq!(eth0.addresses[1].address, Some("10.0.0.5/26".to_string()));
    assert!(!eth0.addresses[1].primary);
    assert_eq!(eth0.addresses[2].address, Some("fd00::4".to_string()));
    assert_eq!(eth0.description, Some("Azure network interface".to_string()));
    let eth1 = find(&ifs, "eth1");
    assert_eq!(eth1.addresses.len(), 1);
    assert_eq!(eth1.addresses[0].addr_type, AddressType::Dhcp4);

    assert_eq!(source.parse_network_config(&parse("{}")).unwrap_err(), "No network information in metadata");
    assert_eq!(
        source.parse_network_config(&parse(r#"{"network": {}}"#)).unwrap_err(),
        "No interface array in network metadata"
    );
}

#[test]
fn test_azure_ssh_keys_and_user_data() {
    let source = AzureSource::new();
    let metadata = parse(
        r#"{"compute": {"publicKeys": [{"keyData": "ssh-rsa AAAAB3 user@host"}, {"path": "x"}],
             "osProfile": {"linuxConfiguration": {"ssh": {"publicKeys": [
                 {"keyData": "ssh-rsa AAAAB3 user@host"}, {"keyData": "ssh-ed25519 ZZZ admin"}]}}}}}"#,
    );
    let custom = "c3NoLXJzYSBBQUFBQjMgdXNlckBob3N0ICAKI2Nsb3VkLWNvbmZpZwpzc2gtZWQyNTUxOSBBQUFBQzMgb3RoZXIK";
    let keys = source.ssh_keys_from(&metadata, Some(custom));
    assert_eq!(
        keys,
        vec![
            "ssh-rsa AAAAB3 user@host".to_string(),
            "ssh-ed25519 ZZZ admin".to_string(),
            "ssh-ed25519 AAAAC3 other".to_string(),
        ]
    );
    let without_custom = source.ssh_keys_from(&metadata, Some("not base64!"));
    assert_eq!(without_custom.len(), 2);

    assert_eq!(AzureSource::user_data_from("IyEvYmluL3NoCmVjaG8gaGkK"), "#!/bin/sh\necho hi\n");
    assert_eq!(AzureSource::user_data_from("plain text"), "plain text");

    let config = source.config_from_metadata(metadata, keys, Some("data".to_string()));
    assert_eq!(config.hostname, None);
    assert!(config.interfaces.is_empty());
    assert_eq!(config.ssh_authorized_keys.len(), 3);
    assert_eq!(config.user_data, Some("data".to_string()));
    assert!(entry(&config.metadata, "azure-instance").is_some());
}

#[test]
fn test_base64_helpers() {
    assert_eq!(decode_base64("aGVsbG8gd29ybGQ=").unwrap(), b"hello world".to_vec());
    assert_eq!(decode_base64("***").unwrap_err(), "Failed to decode base64 data");
    assert_eq!(encode_base64(b"hello world"), "aGVsbG8gd29ybGQ=");
}

#[test]
fn test_digitalocean_network_config() {
    let source = DigitalOceanSource::new();
    let metadata = parse(
        r#"{"hostname": "droplet", "public_keys": ["ssh-rsa A", 7, "ssh-rsa B"],
            "interfaces": {
              "public": [{"mac": "AA:BB:CC:00:11:22",
                          "ipv4": {"ip_address": "203.0.113.5", "netmask": "255.255.240.0", "gateway": "203.0.113.1"},
                          "ipv6": {"ip_address": "2001:db8::5", "cidr": 64, "gateway": "2001:db8::1"},
                          "anchor_ipv4": {"ip_address": "10.10.0.5", "netmask": "255.255.0.0"}}],
              "private": [{"mac": "aa:bb:cc:00:11:33", "ipv4": {"ip_address": "10.132.0.2"}}]}}"#,
    );
    let ifs = source.parse_network_config(&metadata);
    assert_eq!(ifs.len(), 2);
    let eth0 = find(&ifs, "eth0");
    assert_eq!(eth0.description, Some("DigitalOcean public interface".to_string()));
    assert_eq!(eth0.addresses.len(), 3);
    assert_eq!(eth0.addresses[0].address, Some("203.0.113.5/20".to_string()));
    assert_eq!(eth0.addresses[0].gateway, Some("203.0.113.1".to_string()));
    assert!(eth0.addresses[0].primary);
    assert_eq!(eth0.addresses[1].address, Some("2001:db8::5/64".to_string()));
    assert_eq!(eth0.addresses[2].address, Some("10.10.0.5/16".to_string()));
    assert_eq!(eth0.addresses[2].gateway, None);
    let eth1 = find(&ifs, "eth1");
    assert_eq!(eth1.description, Some("DigitalOcean private interface".to_string()));
    assert_eq!(eth1.addresses[0].address, Some("10.132.0.2/24".to_string()));

    let config = source.config_from_metadata(metadata);
    assert_eq!(config.hostname, Some("droplet".to_string()));
    assert_eq!(config.ssh_authorized_keys, vec!["ssh-rsa A".to_string(), "ssh-rsa B".to_string()]);
    assert_eq!(config.interfaces.len(), 2);
    assert!(entry(&config.metadata, "digitalocean-droplet").is_some());
}

#[test]
fn test_digitalocean_legacy_interfaces() {
    let source = DigitalOceanSource::new();
    let legacy = parse(r#"{"interfaces": [{"mac": "aa:bb:cc:dd:ee:ff"}, {}]}"#);
    let ifs = source.parse_network_config(&legacy);
    assert_eq!(ifs.len(), 2);
    let eth0 = find(&ifs, "eth0");
    assert_eq!(eth0.description, None);
    assert_eq!(eth0.addresses[0].addr_type, AddressType::Dhcp4);
    let iface = DigitalOceanSource::parse_interface(&parse(r#"{"ipv6": {"ip_address": "2001:db8::9"}}"#), None);
    assert_eq!(iface.addresses[0].address, Some("2001:db8::9/64".to_string()));
}

#[test]
fn test_gcp_responses() {
    assert_eq!(GCPSource::hostname_from("  vm-1.c.project.internal\n"), "vm-1");
    assert_eq!(GCPSource::hostname_from("plain"), "plain");

    let source = GCPSource::new();
    let interfaces = parse(
        r#"[{"mac": "42:01:0A:80:00:02", "mtu": 1460, "ip": "10.128.0.2", "subnetmask": "255.255.240.0",
             "gateway": "10.128.0.1", "ipAliases": ["10.8.0.0/24", 5]},
            {"mac": "42:01:0a:80:00:03"}]"#,
    );
    let ifs = source.parse_network_interfaces(&interfaces);
    assert_eq!(ifs.len(), 2);
    let eth0 = find(&ifs, "eth0");
    assert_eq!(eth0.mac_address, Some("42:01:0a:80:00:02".to_string()));
    assert_eq!(eth0.mtu, Some(1460));
    assert_eq!(eth0.addresses.len(), 2);
    assert_eq!(eth0.addresses[0].address, Some("10.128.0.2/20".to_string()));
    assert_eq!(eth0.addresses[0].gateway, Some("10.128.0.1".to_string()));
    assert_eq!(eth0.addresses[1].address, Some("10.8.0.0/24".to_string()));
    assert_eq!(find(&ifs, "eth1").addresses[0].addr_type, AddressType::Dhcp4);
    assert!(source.parse_network_interfaces(&parse("{}")).is_empty());

    let keys = GCPSource::ssh_keys_from(
        Some("alice:ssh-rsa AAA alice\nbob:not-a-key\nnocolon\ncarol:ssh-rsa AAA alice\n"),
        Some("dave: ssh-ed25519 BBB dave \nerin:ssh-rsa AAA alice\n"),
    );
    assert_eq!(
        keys,
        vec!["ssh-rsa AAA alice".to_string(), "ssh-rsa AAA alice".to_string(), "ssh-ed25519 BBB dave".to_string()]
    );
}

#[test]
fn test_gcp_instance_metadata() {
    let m = GCPSource::instance_metadata(
        Some(" 1234 \n"),
        Some("vm-1"),
        Some("projects/42/machineTypes/e2-medium"),
        Some("projects/42/zones/us-central1-a\n"),
        Some("my-project"),
        Some(r#"["web", "prod"]"#),
        None,
        Some(parse(r#"{"startup-script": "echo"}"#)),
    );
    assert_eq!(text(entry(&m, "instance-id")), "1234");
    assert_eq!(text(entry(&m, "instance-name")), "vm-1");
    assert_eq!(text(entry(&m, "machine-type")), "e2-medium");
    assert_eq!(text(entry(&m, "zone")), "us-central1-a");
    assert_eq!(text(entry(&m, "region")), "us-central1");
    assert_eq!(text(entry(&m, "project-id")), "my-project");
    match entry(&m, "tags") {
        Some(Json::Array(t)) => assert_eq!(t.len(), 2),
        _ => panic!("tags missing"),
    }
    assert!(entry(&m, "service-accounts").is_none());
    assert!(entry(&m, "attributes").is_some());

    let bad_tags = GCPSource::instance_metadata(None, None, None, Some("nodash"), None, Some("not json"), None, None);
    assert!(entry(&bad_tags, "tags").is_none());
    assert!(entry(&bad_tags, "region").is_none());
    assert_eq!(text(entry(&bad_tags, "zone")), "nodash");
}

#[test]
fn test_ec2_responses() {
    assert_eq!(EC2Source::hostname_from("ip-10-0-0-1.ec2.internal"), "ip-10-0-0-1");
    assert_eq!(
        EC2Source::interface_macs("0a:1b:2c:3d:4e:5f/\n0a:1b:2c:3d:4e:60//\n/\n"),
        vec!["0a:1b:2c:3d:4e:5f".to_string(), "0a:1b:2c:3d:4e:60".to_string()]
    );
    assert_eq!(EC2Source::address_lines(" 10.0.0.5 \n\n10.0.0.6"), vec!["10.0.0.5".to_string(), "10.0.0.6".to_string()]);
    assert_eq!(EC2Source::subnet_prefix("10.0.0.0/20"), 20);
    assert_eq!(EC2Source::subnet_prefix("10.0.0.0/x"), 24);
    assert_eq!(EC2Source::subnet_prefix(""), 24);
    assert_eq!(EC2Source::subnet_prefix("10.0.0.0/300"), 24);

    let iface = EC2Source::interface_from(
        "0A:1B:2C:3D:4E:5F",
        &vec![("10.0.0.5".to_string(), 20), ("10.0.0.6".to_string(), 20)],
        Some("2600:1f18::5\n"),
    );
    assert_eq!(iface.mac_address, Some("0a:1b:2c:3d:4e:5f".to_string()));
    assert_eq!(iface.addresses.len(), 3);
    assert_eq!(iface.addresses[0].address, Some("10.0.0.5/20".to_string()));
    assert!(iface.addresses[0].primary);
    assert!(!iface.addresses[1].primary);
    assert_eq!(iface.addresses[2].address, Some("2600:1f18::5".to_string()));
    let bare = EC2Source::interface_from("0a:1b:2c:3d:4e:61", &vec![], None);
    assert_eq!(bare.addresses[0].addr_type, AddressType::Dhcp4);
    let named = EC2Source::name_interfaces(vec![iface, bare]);
    assert_eq!(named.len(), 2);
    assert_eq!(find(&named, "eth1").mac_address, Some("0a:1b:2c:3d:4e:61".to_string()));

    assert_eq!(EC2Source::public_key_indexes("0=my-key\n\n1=other\nbad"), vec!["0".to_string(), "1".to_string()]);
    assert_eq!(
        EC2Source::public_keys_from(&vec![" ssh-rsa AAA k \n".to_string(), "  ".to_string()]),
        vec!["ssh-rsa AAA k".to_string()]
    );
}

#[test]
fn test_ec2_instance_metadata() {
    let m = EC2Source::instance_metadata(
        Some("i-0abc\n"),
        Some("t3.micro"),
        Some("us-east-1a"),
        Some("us-east-1"),
        None,
        Some("203.0.113.9"),
        Some("web-role\nother\n"),
        &vec![("Name".to_string(), " web \n".to_string()), ("Env".to_string(), "prod".to_string())],
    );
    assert_eq!(text(entry(&m, "instance-id")), "i-0abc");
    assert_eq!(text(entry(&m, "instance-type")), "t3.micro");
    assert_eq!(text(entry(&m, "availability-zone")), "us-east-1a");
    assert_eq!(text(entry(&m, "region")), "us-east-1");
    assert!(entry(&m, "public-hostname").is_none());
    assert_eq!(text(entry(&m, "public-ipv4")), "203.0.113.9");
    assert_eq!(text(entry(&m, "iam-role")), "web-role");
    match entry(&m, "tags") {
        Some(Json::Object(t)) => {
            assert_eq!(t.len(), 2);
            assert_eq!(t[0].0, "Env");
            assert_eq!(t[1].0, "Name");
            assert!(matches!(&t[1].1, Json::Str(s) if s == "web"));
        }
        _ => panic!("tags missing"),
    }
    let blank_role = EC2Source::instance_metadata(None, None, None, None, None, None, Some("  \n"), &vec![]);
    assert!(entry(&blank_role, "iam-role").is_none());
    assert!(matches!(entry(&blank_role, "tags"), Some(Json::Object(t)) if t.is_empty()));
}

#[test]
fn test_local_config_from_sysconfig() {
    let kdl = SysConfig {
        hostname: "test-host".to_string(),
        nameservers: vec!["8.8.8.8".to_string(), "8.8.4.4".to_string()],
        interfaces: vec![
            Interface {
                name: Some("eth0".to_string()),
                selector: Some("aa:bb:cc:dd:ee:ff".to_string()),
                addresses: vec![
                    AddressObject { name: "v4".to_string(), kind: AddressKind::Static, address: Some("192.168.1.10/24".to_string()) },
                    AddressObject { name: "v6".to_string(), kind: AddressKind::Dhcp6, address: None },
                ],
            },
            Interface { name: None, selector: Some("name:eth1".to_string()), addresses: vec![] },
            Interface { name: Some("eth2".to_string()), selector: Some("pci-0".to_string()), addresses: vec![] },
        ],
    };
    let config = LocalSource::new().from_sysconfig(&kdl);
    assert_eq!(config.hostname, Some("test-host".to_string()));
    assert_eq!(config.nameservers.len(), 2);
    assert_eq!(config.interfaces.len(), 2);
    let eth0 = find(&config.interfaces, "eth0");
    assert_eq!(eth0.mac_address, Some("aa:bb:cc:dd:ee:ff".to_string()));
    assert_eq!(eth0.addresses.len(), 2);
    assert_eq!(eth0.addresses[0].addr_type, AddressType::Static);
    assert_eq!(eth0.addresses[0].address, Some("192.168.1.10/24".to_string()));
    assert_eq!(eth0.addresses[1].addr_type, AddressType::Dhcp6);
    assert_eq!(find(&config.interfaces, "eth2").mac_address, None);
}

#[test]
fn test_smartos_keys_and_servers() {
    let source = SmartOSSource::new();
    let sdc_text = r#"{"a": "ssh-rsa ROOT", "b": "ssh-ed25519 SDC", "c": 5}"#;
    let sdc_json = parse(sdc_text);
    let keys = source.ssh_keys_from(
        Some("ssh-rsa ROOT\n# comment\n\n ssh-rsa ROOT \n"),
        Some(sdc_text),
        Some(&sdc_json),
        Some("ssh-ed25519 SDC\nssh-rsa AUTH\n"),
    );
    assert_eq!(
        keys,
        vec![
            "ssh-rsa ROOT".to_string(),
            "ssh-rsa ROOT".to_string(),
            "ssh-ed25519 SDC".to_string(),
            "ssh-rsa AUTH".to_string(),
        ]
    );
    let plain = source.ssh_keys_from(None, Some("ssh-rsa X\nssh-rsa X\n#c"), None, None);
    assert_eq!(plain, vec!["ssh-rsa X".to_string()]);
    let not_object = parse("[1]");
    assert!(source.ssh_keys_from(None, Some("[1]"), Some(&not_object), None).is_empty());

    let ns = source.nameservers_from(
        Some(r#"["8.8.8.8", "8.8.8.8"]"#),
        &vec![Some(" 1.1.1.1 ".to_string()), None, Some("8.8.8.8".to_string()), Some("".to_string())],
    );
    assert_eq!(ns, vec!["8.8.8.8".to_string(), "8.8.8.8".to_string(), "1.1.1.1".to_string()]);
    let ns_lines = source.nameservers_from(Some("8.8.4.4\n\n8.8.4.4\n9.9.9.9"), &vec![]);
    assert_eq!(ns_lines, vec!["8.8.4.4".to_string(), "9.9.9.9".to_string()]);

    assert_eq!(
        source.ntp_servers_from(Some("0.pool.ntp.org, 1.pool.ntp.org 0.pool.ntp.org\n2.pool.ntp.org")),
        vec!["0.pool.ntp.org".to_string(), "1.pool.ntp.org".to_string(), "2.pool.ntp.org".to_string()]
    );
    assert_eq!(source.ntp_servers_from(Some(r#"["a", "b"]"#)), vec!["a".to_string(), "b".to_string()]);
    assert!(source.ntp_servers_from(None).is_empty());
}
