use sysconfig::netutil::{cidr_to_netmask, netmask_to_cidr, normalize_mac_address, parse_ip_cidr, NetError};

#[test]
fn test_netmask_to_cidr() {
    assert_eq!(netmask_to_cidr("255.255.255.0").unwrap(), 24);
    assert_eq!(netmask_to_cidr("255.255.0.0").unwrap(), 16);
    assert_eq!(netmask_to_cidr("255.0.0.0").unwrap(), 8);
    assert_eq!(netmask_to_cidr("255.255.255.128").unwrap(), 25);
}

#[test]
fn test_netmask_to_cidr_errors() {
    assert!(matches!(netmask_to_cidr("255.255.0"), Err(NetError::InvalidNetmaskFormat(_))));
    assert!(matches!(netmask_to_cidr("255.256.0.0"), Err(NetError::InvalidOctet(_))));
    assert!(matches!(netmask_to_cidr("255.x.0.0"), Err(NetError::InvalidOctet(_))));
}

#[test]
fn test_cidr_to_netmask() {
    assert_eq!(cidr_to_netmask(24).unwrap(), "255.255.255.0");
    assert_eq!(cidr_to_netmask(16).unwrap(), "255.255.0.0");
    assert_eq!(cidr_to_netmask(8).unwrap(), "255.0.0.0");
    assert_eq!(cidr_to_netmask(25).unwrap(), "255.255.255.128");
}

#[test]
fn test_cidr_to_netmask_edges() {
    assert_eq!(cidr_to_netmask(32).unwrap(), "255.255.255.255");
    assert_eq!(cidr_to_netmask(1).unwrap(), "128.0.0.0");
    assert_eq!(cidr_to_netmask(0).unwrap(), "0.0.0.0");
    assert!(matches!(cidr_to_netmask(33), Err(NetError::InvalidPrefixLength(33))));
}

#[test]
fn test_parse_ip_cidr() {
    let (ip, cidr) = parse_ip_cidr("192.168.1.10/24").unwrap();
    assert_eq!(ip, "192.168.1.10");
    assert_eq!(cidr, Some(24));

    let (ip, cidr) = parse_ip_cidr("10.0.0.1").unwrap();
    assert_eq!(ip, "10.0.0.1");
    assert_eq!(cidr, None);
}

#[test]
fn test_parse_ip_cidr_error() {
    assert!(matches!(parse_ip_cidr("10.0.0.1/abc"), Err(NetError::InvalidCidrPrefix(_))));
    assert!(matches!(parse_ip_cidr("10.0.0.1/300"), Err(NetError::InvalidCidrPrefix(_))));
}

#[test]
fn test_normalize_mac_address() {
    assert_eq!(normalize_mac_address("AA:BB:CC:DD:EE:FF"), "aa:bb:cc:dd:ee:ff");
    assert_eq!(normalize_mac_address("aa-bb-cc-dd-ee-ff"), "aa:bb:cc:dd:ee:ff");
}

#[test]
fn test_normalize_mac_address_plain() {
    assert_eq!(normalize_mac_address("AABBCCDDEEFF"), "aa:bb:cc:dd:ee:ff");
}

#[test]
fn test_netmask_round_trip() {
    for p in 0..=32u8 {
        let mask = cidr_to_netmask(p).unwrap();
        assert_eq!(netmask_to_cidr(&mask), Ok(p), "prefix {} gave {}", p, mask);
    }
}

#[test]
fn net_error_messages() {
    assert_eq!(cidr_to_netmask(33).unwrap_err().message(), "Invalid CIDR prefix length: 33");
    assert_eq!(netmask_to_cidr("255.255.0").unwrap_err().message(), "Invalid netmask format: 255.255.0");
    assert_eq!(netmask_to_cidr("255.256.0.0").unwrap_err().message(), "Invalid octet in netmask: 256");
    assert_eq!(parse_ip_cidr("10.0.0.1/x").unwrap_err().message(), "Invalid CIDR prefix in: 10.0.0.1/x");
}

#[test]
fn whitespace_agrees_with_std_on_every_char() {
    for n in 0u32..=0x10FFFF {
        if let Some(c) = char::from_u32(n) {
            assert_eq!(sysconfig::text::char_is_whitespace(c), c.is_whitespace(), "U+{:04X}", n);
        }
    }
}
