use sysconfig::json::Json;
use sysconfig::kdl_loader::KdlConfigLoader;
use sysconfig::kdl_parser::{KdlParseError, KdlSysConfig};

const MINIMAL_KDL: &str = r#"
sysconfig {
    hostname "minimal-host"
    nameserver "9.9.9.9"
    interface "eth0" {
        address name="v4" kind="dhcp4"
    }
}
"#;

const CONFIG_KDL: &str = r#"
sysconfig {
    hostname "example-host"
    nameserver "8.8.8.8"
    nameserver "8.8.4.4"
    nameserver "1.1.1.1"

    interface "eth0" {
        address name="v4" kind="dhcp4"
        address name="v6" kind="addrconf"
    }

    interface "eth1" selector="mac:00:11:22:33:44:55" {
        address name="v4" kind="static" "192.168.1.100/24"
        address name="v6" kind="static" "2001:db8::100/64"
    }

    interface "eth2" {
        address name="v4" kind="dhcp4"
    }

    interface "eth3" {
        address name="v6" kind="dhcp6"
    }
}
"#;

const FULL_SYSTEM_KDL: &str = r#"
sysconfig {
    hostname "production-server-01"
    nameserver "9.9.9.9"
    nameserver "149.112.112.112"
    nameserver "1.1.1.1"
    nameserver "2620:fe::fe"
    nameserver "2606:4700:4700::1111"
    nameserver "8.8.8.8"

    interface "net0" selector="mac:00:0c:29:3e:4f:50" {
        address name="v4-primary" kind="static" "192.168.1.200/24"
        address name="v4-secondary" kind="static" "192.168.1.201/24"
        address name="v6-primary" kind="static" "2001:db8:1::200/64"
        address name="v6-link" kind="addrconf"
    }

    interface "net1" selector="mac:00:0c:29:3e:4f:51" {
        address name="v4" kind="static" "10.0.0.10/24"
    }

    interface "net2" {
        address name="v4" kind="static" "10.1.0.10/24"
    }

    interface "net3" {
        address name="v6" kind="static" "2001:db8:3::10/64"
    }

    interface "net4" {
        address name="v4" kind="dhcp4"
        address name="v6" kind="dhcp6"
        address name="slaac" kind="addrconf"
    }

    interface "net5" {
        address name="v4" kind="dhcp4"
    }
}
"#;

fn str_of(j: &Json) -> &str {
    match j {
        Json::Str(s) => s.as_str(),
        _ => panic!("not a string"),
    }
}

#[test]
fn test_loader_creation() {
    let loader = KdlConfigLoader::new();
    assert!(loader.get_config().is_none());
}

#[test]
fn test_load_string() {
    let mut loader = KdlConfigLoader::new();
    let kdl = r#"
        sysconfig {
            hostname "test-host"
            nameserver "8.8.8.8"
        }
    "#;

    loader.load_string(kdl).unwrap();
    let config = loader.get_config().unwrap();
    assert_eq!(config.hostname, Some("test-host".to_string()));
}

#[test]
fn test_validation() {
    let mut loader = KdlConfigLoader::new();
    let kdl = r#"
        sysconfig {
            hostname "valid-hostname"
            nameserver "8.8.8.8"

            interface "eth0" {
                address name="v4" kind="dhcp4"
            }
        }
    "#;

    loader.load_string(kdl).unwrap();
    assert!(loader.validate().is_ok());
}

#[test]
fn test_validation_error_empty_hostname() {
    let mut loader = KdlConfigLoader::new();
    let kdl = r#"
        sysconfig {
            hostname ""
        }
    "#;

    loader.load_string(kdl).unwrap();
    assert!(loader.validate().is_err());
}

#[test]
fn test_to_system_state() {
    let mut loader = KdlConfigLoader::new();
    let kdl = r#"
        sysconfig {
            hostname "test-host"
            nameserver "8.8.8.8"

            interface "eth0" {
                address name="v4" kind="static" "192.168.1.100/24"
            }
        }
    "#;

    loader.load_string(kdl).unwrap();
    let state = loader.to_system_state().unwrap();

    assert_eq!(str_of(&state.get("hostname").unwrap()), "test-host");
    match state.get("nameservers").unwrap() {
        Json::Array(items) => {
            assert_eq!(items.len(), 1);
            assert_eq!(str_of(&items[0]), "8.8.8.8");
        }
        _ => panic!("nameservers should be an array"),
    }

    let interfaces = state.get("interfaces").unwrap();
    assert!(matches!(interfaces, Json::Array(_)));
    assert_eq!(str_of(&state.get("interfaces.0.addresses.0.address").unwrap()), "192.168.1.100/24");
    assert_eq!(str_of(&state.get("interfaces.0.addresses.0.kind").unwrap()), "static");
    assert_eq!(str_of(&state.get("interfaces.0.name").unwrap()), "eth0");
}

#[test]
fn test_to_system_state_without_config() {
    let loader = KdlConfigLoader::new();
    assert!(loader.to_system_state().is_err());
    assert!(loader.validate().is_err());
}

#[test]
fn test_summary() {
    let mut loader = KdlConfigLoader::new();
    let kdl = r#"
        sysconfig {
            hostname "test-host"
            nameserver "8.8.8.8"
            interface "eth0" {
                address name="v4" kind="dhcp4"
            }
        }
    "#;

    loader.load_string(kdl).unwrap();
    let summary = loader.summary();

    assert!(summary.contains("Hostname: test-host"));
    assert!(summary.contains("Nameservers: 8.8.8.8"));
    assert!(summary.contains("Interfaces: eth0"));
}

#[test]
fn test_summary_exact_text() {
    let mut loader = KdlConfigLoader::new();
    assert_eq!(loader.summary(), "No configuration loaded");
    loader.load_string(CONFIG_KDL).unwrap();
    assert_eq!(
        loader.summary(),
        "Hostname: example-host\nNameservers: 8.8.8.8, 8.8.4.4, 1.1.1.1\nInterfaces: eth0, eth1, eth2, eth3\n"
    );
}

#[test]
fn test_parse_minimal_example() {
    let mut loader = KdlConfigLoader::new();
    let result = loader.load_file("examples/minimal.kdl", Ok(MINIMAL_KDL.to_string()));
    assert!(result.is_ok());

    let config = loader.get_config().expect("Config should be loaded");
    assert_eq!(config.hostname, Some("minimal-host".to_string()));
    assert_eq!(config.nameservers, vec!["9.9.9.9"]);
    assert_eq!(config.interfaces.len(), 1);
    assert_eq!(config.interfaces[0].name, "eth0");
    assert_eq!(config.interfaces[0].addresses.len(), 1);
    assert_eq!(config.interfaces[0].addresses[0].kind, "dhcp4");
    assert!(loader.validate().is_ok());
}

#[test]
fn test_parse_config_example() {
    let mut loader = KdlConfigLoader::new();
    let result = loader.load_file("examples/config.kdl", Ok(CONFIG_KDL.to_string()));
    assert!(result.is_ok());

    let config = loader.get_config().expect("Config should be loaded");
    assert_eq!(config.hostname, Some("example-host".to_string()));
    assert_eq!(config.nameservers.len(), 3);
    assert!(config.nameservers.contains(&"8.8.8.8".to_string()));
    assert!(config.nameservers.contains(&"1.1.1.1".to_string()));
    assert_eq!(config.interfaces.len(), 4);

    let eth0 = config.interfaces.iter().find(|i| i.name == "eth0").expect("eth0 should exist");
    assert_eq!(eth0.addresses.len(), 2);

    let eth1 = config.interfaces.iter().find(|i| i.name == "eth1").expect("eth1 should exist");
    assert_eq!(eth1.selector, Some("mac:00:11:22:33:44:55".to_string()));
    assert_eq!(eth1.addresses.len(), 2);

    let static_addr = eth1
        .addresses
        .iter()
        .find(|a| a.kind == "static" && a.name == "v4")
        .expect("Static v4 address should exist");
    assert_eq!(static_addr.address, Some("192.168.1.100/24".to_string()));
    assert!(loader.validate().is_ok());
}

#[test]
fn test_parse_full_system_example() {
    let mut loader = KdlConfigLoader::new();
    let result = loader.load_file("examples/full-system.kdl", Ok(FULL_SYSTEM_KDL.to_string()));
    assert!(result.is_ok());

    let config = loader.get_config().expect("Config should be loaded");
    assert_eq!(config.hostname, Some("production-server-01".to_string()));
    assert_eq!(config.nameservers.len(), 6);
    assert!(config.nameservers.contains(&"9.9.9.9".to_string()));
    assert!(config.nameservers.contains(&"2606:4700:4700::1111".to_string()));
    assert_eq!(config.interfaces.len(), 6);

    let net0 = config.interfaces.iter().find(|i| i.name == "net0").expect("net0 should exist");
    assert_eq!(net0.selector, Some("mac:00:0c:29:3e:4f:50".to_string()));
    assert_eq!(net0.addresses.len(), 4);

    let v4_primary = net0.addresses.iter().find(|a| a.name == "v4-primary").expect("v4-primary should exist");
    assert_eq!(v4_primary.kind, "static");
    assert_eq!(v4_primary.address, Some("192.168.1.200/24".to_string()));

    let v6_primary = net0.addresses.iter().find(|a| a.name == "v6-primary").expect("v6-primary should exist");
    assert_eq!(v6_primary.kind, "static");
    assert_eq!(v6_primary.address, Some("2001:db8:1::200/64".to_string()));

    let net4 = config.interfaces.iter().find(|i| i.name == "net4").expect("net4 should exist");
    assert_eq!(net4.addresses.len(), 3);
    let dhcp4 = net4.addresses.iter().find(|a| a.kind == "dhcp4").expect("dhcp4 address should exist");
    assert_eq!(dhcp4.address, None);
    assert!(loader.validate().is_ok());
}

#[test]
fn test_to_system_state_conversion() {
    let mut loader = KdlConfigLoader::new();
    loader.load_file("examples/minimal.kdl", Ok(MINIMAL_KDL.to_string())).expect("Should load minimal.kdl");

    let state = loader.to_system_state().expect("Should convert to system state");
    assert_eq!(str_of(&state.get("hostname").expect("Hostname should be in state")), "minimal-host");

    match state.get("nameservers").expect("Nameservers should be in state") {
        Json::Array(items) => assert_eq!(str_of(&items[0]), "9.9.9.9"),
        _ => panic!("nameservers should be an array"),
    }

    match state.get("interfaces").expect("Interfaces should be in state") {
        Json::Array(items) => assert_eq!(items.len(), 1),
        _ => panic!("interfaces should be an array"),
    }
}

#[test]
fn test_load_file_read_error() {
    let mut loader = KdlConfigLoader::with_path("/etc/sysconfig.kdl");
    let result = loader.load_file("/missing.kdl", Err("No such file or directory".to_string()));
    assert!(result.is_err());
    assert!(loader.get_config().is_none());
    assert_eq!(loader.config_path().unwrap(), "/etc/sysconfig.kdl");
}

#[test]
fn test_validate_only_mode() {
    let loader = KdlConfigLoader::new().validate_only(true);
    assert!(loader.is_validate_only_mode());
    assert!(loader.config_path().is_none());
}

#[test]
fn test_summary_generation() {
    let mut loader = KdlConfigLoader::new();
    loader.load_file("examples/config.kdl", Ok(CONFIG_KDL.to_string())).expect("Should load config.kdl");

    let summary = loader.summary();
    assert!(summary.contains("Hostname: example-host"));
    assert!(summary.contains("Nameservers:"));
    assert!(summary.contains("8.8.8.8"));
    assert!(summary.contains("Interfaces:"));
    assert!(summary.contains("eth0"));
    assert!(summary.contains("eth1"));
}

#[test]
fn test_validation_with_complex_config() {
    let mut loader = KdlConfigLoader::new();
    loader
        .load_file("examples/full-system.kdl", Ok(FULL_SYSTEM_KDL.to_string()))
        .expect("Should load full-system.kdl");

    let validation_result = loader.validate();
    assert!(validation_result.is_ok());
}

#[test]
fn test_kdl_string_parsing() {
    let kdl = r#"
        sysconfig {
            hostname "test-host"
            nameserver "1.1.1.1"
            interface "test0" {
                address name="test" kind="dhcp4"
            }
        }
    "#;

    let mut loader = KdlConfigLoader::new();
    loader.load_string(kdl).expect("Should parse KDL string");

    let config = loader.get_config().expect("Config should be loaded");
    assert_eq!(config.hostname, Some("test-host".to_string()));
    assert_eq!(config.nameservers, vec!["1.1.1.1"]);
}

#[test]
fn test_interface_with_selector() {
    let kdl = r#"
        sysconfig {
            hostname "selector-test"
            interface "net0" selector="mac:aa:bb:cc:dd:ee:ff" {
                address name="v4" kind="static" "10.0.0.1/24"
            }
        }
    "#;

    let mut loader = KdlConfigLoader::new();
    loader.load_string(kdl).expect("Should parse KDL string");

    let config = loader.get_config().expect("Config should be loaded");
    let iface = &config.interfaces[0];
    assert_eq!(iface.name, "net0");
    assert_eq!(iface.selector, Some("mac:aa:bb:cc:dd:ee:ff".to_string()));
}

#[test]
fn test_multiple_addresses_per_interface() {
    let kdl = r#"
        sysconfig {
            hostname "multi-addr"
            interface "net0" {
                address name="v4-1" kind="static" "192.168.1.1/24"
                address name="v4-2" kind="static" "192.168.1.2/24"
                address name="v6" kind="static" "2001:db8::1/64"
                address name="dhcp" kind="dhcp4"
                address name="slaac" kind="addrconf"
            }
        }
    "#;

    let mut loader = KdlConfigLoader::new();
    loader.load_string(kdl).expect("Should parse KDL string");

    let config = loader.get_config().expect("Config should be loaded");
    assert_eq!(config.interfaces[0].addresses.len(), 5);

    let addrs = &config.interfaces[0].addresses;
    assert!(addrs.iter().any(|a| a.kind == "static" && a.address.is_some()));
    assert!(addrs.iter().any(|a| a.kind == "dhcp4" && a.address.is_none()));
    assert!(addrs.iter().any(|a| a.kind == "addrconf" && a.address.is_none()));
}

#[test]
fn test_validation_errors() {
    let kdl = r#"
        sysconfig {
            hostname ""
        }
    "#;

    let mut loader = KdlConfigLoader::new();
    loader.load_string(kdl).expect("Should parse KDL string");
    assert!(loader.validate().is_err());

    let kdl = r#"
        sysconfig {
            hostname "test"
            interface "net0" {
                address name="v4" kind="static"
            }
        }
    "#;

    let mut loader = KdlConfigLoader::new();
    loader.load_string(kdl).expect("Should parse KDL string");
    assert!(loader.validate().is_err());

    let kdl = r#"
        sysconfig {
            hostname "test"
            interface "" {
                address name="v4" kind="dhcp4"
            }
        }
    "#;

    let mut loader = KdlConfigLoader::new();
    loader.load_string(kdl).expect("Should parse KDL string");
    assert!(loader.validate().is_err());
}

#[test]
fn test_validation_error_messages() {
    let mut loader = KdlConfigLoader::new();
    loader
        .load_string("sysconfig {\n hostname \"h\"\n interface \"net0\" {\n address name=\"v4\" kind=\"static\"\n }\n}\n")
        .unwrap();
    match loader.validate() {
        Err(sysconfig::error::Error::State(m)) => {
            assert_eq!(m, "Static address v4 on interface net0 requires an address value")
        }
        _ => panic!("expected a state error"),
    }
    let mut loader = KdlConfigLoader::new();
    loader.load_string("sysconfig {\n nameserver \"\"\n}\n").unwrap();
    match loader.validate() {
        Err(sysconfig::error::Error::State(m)) => assert_eq!(m, "Nameserver address cannot be empty"),
        _ => panic!("expected a state error"),
    }
    let long = "h".repeat(256);
    let mut loader = KdlConfigLoader::new();
    loader.load_string(&format!("sysconfig {{\n hostname \"{}\"\n}}\n", long)).unwrap();
    match loader.validate() {
        Err(sysconfig::error::Error::State(m)) => assert_eq!(m, "Hostname too long (max 255 characters)"),
        _ => panic!("expected a state error"),
    }
}

#[test]
fn test_ipv6_nameservers() {
    let kdl = r#"
        sysconfig {
            hostname "ipv6-test"
            nameserver "2001:4860:4860::8888"
            nameserver "2001:4860:4860::8844"
            nameserver "2606:4700:4700::1111"
        }
    "#;

    let mut loader = KdlConfigLoader::new();
    loader.load_string(kdl).expect("Should parse KDL string");

    let config = loader.get_config().expect("Config should be loaded");
    assert_eq!(config.nameservers.len(), 3);
    assert!(config.nameservers.contains(&"2001:4860:4860::8888".to_string()));
    assert!(config.nameservers.contains(&"2606:4700:4700::1111".to_string()));
}

#[test]
fn test_to_sysconfig_conversion() {
    let kdl = r#"
        sysconfig {
            hostname "conversion-test"
            nameserver "8.8.8.8"
            interface "eth0" {
                address name="v4" kind="dhcp4"
                address name="v6" kind="dhcp6"
            }
        }
    "#;

    let config = KdlSysConfig::from_kdl_str(kdl).expect("Should parse KDL");

    let sysconfig = config.to_sysconfig();
    assert_eq!(sysconfig.hostname, "conversion-test");
    assert_eq!(sysconfig.nameservers, vec!["8.8.8.8"]);
    assert_eq!(sysconfig.interfaces.len(), 1);
    assert_eq!(sysconfig.interfaces[0].name, Some("eth0".to_string()));
}

#[test]
fn test_parse_basic_kdl() {
    let kdl = r#"
        sysconfig {
            hostname "test-host"
            nameserver "8.8.8.8"
            nameserver "8.8.4.4"

            interface "eth0" {
                address name="v4" kind="dhcp4"
            }
        }
    "#;

    let config = KdlSysConfig::from_kdl_str(kdl).unwrap();
    assert_eq!(config.hostname, Some("test-host".to_string()));
    assert_eq!(config.nameservers, vec!["8.8.8.8", "8.8.4.4"]);
    assert_eq!(config.interfaces.len(), 1);
    assert_eq!(config.interfaces[0].name, "eth0");
    assert_eq!(config.interfaces[0].addresses.len(), 1);
    assert_eq!(config.interfaces[0].addresses[0].kind, "dhcp4");
}

#[test]
fn test_parse_complex_kdl() {
    let kdl = r#"
        pool "rpool" {
            vdev "mirror" {
                disks "c5t0d0" "c6t0d0"
            }
        }

        sysconfig {
            hostname "node01"
            nameserver "9.9.9.9"
            nameserver "149.112.112.112"

            interface "net0" selector="mac:00:00:00:00" {
                address name="v4" kind="static" "192.168.1.200/24"
                address name="v6" kind="static" "fe80:01::1/64"
            }

            interface "net1" selector="mac:00:00:00:01" {
                address name="v4" kind="dhcp4"
                address name="v6" kind="dhcp6"
                address name="addrconf" kind="addrconf"
            }
        }
    "#;

    let config = KdlSysConfig::from_kdl_str(kdl).unwrap();
    assert_eq!(config.hostname, Some("node01".to_string()));
    assert_eq!(config.nameservers, vec!["9.9.9.9", "149.112.112.112"]);
    assert_eq!(config.interfaces.len(), 2);

    let net0 = &config.interfaces[0];
    assert_eq!(net0.name, "net0");
    assert_eq!(net0.selector, Some("mac:00:00:00:00".to_string()));
    assert_eq!(net0.addresses.len(), 2);
    assert_eq!(net0.addresses[0].address, Some("192.168.1.200/24".to_string()));

    let net1 = &config.interfaces[1];
    assert_eq!(net1.name, "net1");
    assert_eq!(net1.selector, Some("mac:00:00:00:01".to_string()));
    assert_eq!(net1.addresses.len(), 3);
}

#[test]
fn test_missing_sysconfig() {
    let kdl = r#"
        pool "rpool" {
            vdev "mirror" {
                disks "c5t0d0" "c6t0d0"
            }
        }
    "#;

    let result = KdlSysConfig::from_kdl_str(kdl);
    assert!(matches!(result, Err(KdlParseError::MissingSysconfig)));
}

#[test]
fn test_kdl_syntax_error() {
    let result = KdlSysConfig::from_kdl_str("sysconfig {");
    assert!(matches!(result, Err(KdlParseError::Kdl(_))));
}

#[test]
fn test_load_string_syntax_error_is_plugin_error() {
    let mut loader = KdlConfigLoader::new();
    let bad = "sysconfig { hostname \"unterminated }";
    let kdl_message = match KdlSysConfig::from_kdl_str(bad) {
        Err(KdlParseError::Kdl(m)) => m,
        _ => panic!("expected a KDL syntax error"),
    };
    match loader.load_string(bad) {
        Err(sysconfig::error::Error::Plugin(m)) => {
            assert_eq!(m, format!("Failed to parse KDL string: KDL parsing error: {}", kdl_message))
        }
        _ => panic!("expected a plugin error"),
    }
    assert!(loader.get_config().is_none());
}
