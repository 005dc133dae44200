use arlian_perimeter::antiflood::{is_public_target, AntiFlood};
use arlian_perimeter::network::{hosts_of, parse_cidr, CidrError};
use arlian_perimeter::ranges::{ipv4_in_subnet, is_neutral_ip, is_private_ip, is_vpn_or_proxy_ip};

#[test]
fn subnet_membership() {
    assert!(ipv4_in_subnet(0x0a010203, "10.0.0.0", 8));
    assert!(!ipv4_in_subnet(0x0b010203, "10.0.0.0", 8));
    assert!(ipv4_in_subnet(0x0b010203, "10.0.0.0", 0));
    assert!(ipv4_in_subnet(0x08080808, "8.8.8.8", 32));
    assert!(!ipv4_in_subnet(0x08080809, "8.8.8.8", 32));
    assert!(!ipv4_in_subnet(0x08080808, "8.8.8", 32));
}

#[test]
fn neutral_addresses() {
    for ip in [
        "10.1.2.3", "127.0.0.1", "169.254.1.1", "172.16.0.1", "172.31.255.255", "192.168.0.1",
        "0.1.2.3", "224.0.0.1", "255.255.255.255", "100.64.0.1", "192.0.0.5", "198.18.0.1",
        "198.19.255.255", "::1", "fc00::1", "fdff::1", "fe80::1", "febf::1", "ff02::1", "fec0::1",
        "not an address", "1.2.3", ":::",
    ] {
        assert!(is_neutral_ip(ip), "{}", ip);
        assert!(!is_public_target(ip), "{}", ip);
    }
    for ip in ["8.8.8.8", "172.32.0.1", "192.0.1.1", "198.20.0.1", "2001:db8::1", "::2"] {
        assert!(!is_neutral_ip(ip), "{}", ip);
        assert!(is_public_target(ip), "{}", ip);
    }
}

#[test]
fn private_addresses_are_neutral() {
    for ip in ["10.0.0.1", "127.9.9.9", "100.127.0.1", "240.0.0.1", "::1", "fe80::2", "x:y"] {
        assert!(is_private_ip(ip), "{}", ip);
        assert!(is_neutral_ip(ip), "{}", ip);
    }
    assert!(!is_private_ip("198.18.0.1"));
    assert!(!is_private_ip("nonsense"));
    assert!(!is_private_ip("fec0::1"));
}

#[test]
fn vpn_addresses() {
    for ip in ["104.16.1.1", "8.8.8.8", "8.8.4.4", "20.1.1.1", "54.37.0.1", "192.42.119.255"] {
        assert!(is_vpn_or_proxy_ip(ip), "{}", ip);
        assert!(AntiFlood::is_vpn(ip), "{}", ip);
    }
    assert!(!is_vpn_or_proxy_ip("8.8.8.9"));
    assert!(!is_vpn_or_proxy_ip("nonsense"));
    assert!(is_vpn_or_proxy_ip("2001:db8::1"));
    assert!(!is_vpn_or_proxy_ip("fe80::1"));
}

#[test]
fn hosts_of_a_v4_network() {
    let ips = parse_cidr("192.168.1.5/30", 10).unwrap();
    let texts: Vec<String> = ips.iter().map(|a| a.to_string()).collect();
    assert_eq!(texts, ["192.168.1.5", "192.168.1.6"]);
    let pair = parse_cidr("10.0.0.0/31", 10).unwrap();
    assert_eq!(pair.len(), 2);
    assert_eq!(pair[0].to_string(), "10.0.0.0");
    let one = parse_cidr("10.0.0.7/32", 10).unwrap();
    assert_eq!(one.len(), 1);
    assert_eq!(parse_cidr("192.168.1.0/24", 10).unwrap().len(), 254);
}

#[test]
fn hosts_of_a_v6_network() {
    let ips = parse_cidr("fd00::5/126", 10).unwrap();
    let texts: Vec<String> = ips.iter().map(|a| a.to_string()).collect();
    assert_eq!(texts, ["fd00::4", "fd00::5", "fd00::6", "fd00::7"]);
    let few = parse_cidr("2001:db8::/64", 3).unwrap();
    assert_eq!(few.len(), 3);
    assert_eq!(few[0].to_string(), "2001:db8::");
    assert_eq!(few[2].to_string(), "2001:db8::2");
}

#[test]
fn hosts_of_what_was_read() {
    let ips = hosts_of(Some((0x0a000005, 30)), Some((7, 128)), 9).unwrap();
    assert_eq!(ips.len(), 2);
    assert_eq!(ips[1].to_string(), "10.0.0.6");
    let ips = hosts_of(None, Some((7, 128)), 9).unwrap();
    assert_eq!((ips.len(), ips[0].to_string().as_str()), (1, "::7"));
    assert_eq!(hosts_of(None, None, 9), Err(CidrError::Malformed));
}

#[test]
fn malformed_networks() {
    for s in ["", "10.0.0.0", "10.0.0.0/33", "10.0.0/8", "x/8", "fd00::/129", "1.2.3.4/8/8"] {
        let e = parse_cidr(s, 10).unwrap_err();
        assert_eq!(e, CidrError::Malformed, "{}", s);
        assert_eq!(e.message(), "Неверный CIDR формат");
    }
}
