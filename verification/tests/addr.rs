use arlian_perimeter::addr::{
    ip_to_u32, ipv6_subnet64, parse_v4, parse_v6, v4_to_text, v6_to_text, validate_ip, AddrOctets,
    IpAddrUniversal,
};

#[test]
fn v4_text_round_trip() {
    assert_eq!(parse_v4("192.168.1.1"), Some(0xc0a80101));
    assert_eq!(v4_to_text(0xc0a80101), "192.168.1.1");
}

#[test]
fn v4_text_is_strict() {
    assert_eq!(parse_v4("0.0.0.0"), Some(0));
    assert_eq!(parse_v4("255.255.255.255"), Some(0xffff_ffff));
    assert_eq!(parse_v4("01.2.3.4"), None);
    assert_eq!(parse_v4("1.2.3"), None);
    assert_eq!(parse_v4("1.2.3.4.5"), None);
    assert_eq!(parse_v4("1.2.3.256"), None);
    assert_eq!(parse_v4("1.2.3.+4"), None);
    assert_eq!(parse_v4(""), None);
}

#[test]
fn v4_agrees_with_std() {
    for s in ["1.2.3.4", "00.1.2.3", "1..2.3", "256.1.1.1", "9.9.9.9 ", "127.0.0.1", "1.2.3.4/8"] {
        let expected = s.parse::<core::net::Ipv4Addr>().ok().map(u32::from);
        assert_eq!(parse_v4(s), expected, "{}", s);
    }
}

#[test]
fn v6_agrees_with_std() {
    let texts = [
        "::", "::1", "1::", "fe80::1", "2001:db8::8:800:200c:417a", "::ffff:1.2.3.4",
        "1:2:3:4:5:6:7:8", "1:2:3:4:5:6:7", "1:2:3:4:5:6:7:8:9", "1::2::3", ":1", "1:", ":::",
        "12345::", "g::1", "::1.2.3.4", "1:2:3:4:5:6:1.2.3.4", "1:2:3:4:5:6:7:1.2.3.4",
        "::1.2.3", "fd00::/64", "", "FE80::ABCD", "::01.2.3.4", "0:0:0:0:0:0:0:0",
    ];
    for s in texts {
        let expected = s.parse::<core::net::Ipv6Addr>().ok().map(u128::from);
        assert_eq!(parse_v6(s), expected, "{}", s);
    }
}

#[test]
fn v6_text_agrees_with_std() {
    let values: [u128; 10] = [
        0,
        1,
        0xffff,
        0x2001_0db8_0000_0000_0000_0000_0000_0001,
        0x2001_0db8_0000_0001_0000_0000_0000_0001,
        0x0001_0000_0000_0002_0000_0000_0000_0003,
        0x0000_0000_0000_0000_0000_ffff_0102_0304,
        0xffff_ffff_ffff_ffff_ffff_ffff_ffff_ffff,
        0x0001_0000_0002_0000_0003_0000_0004_0000,
        0xfe80_0000_0000_0000_0000_0000_0000_0000,
    ];
    for v in values {
        assert_eq!(v6_to_text(v), core::net::Ipv6Addr::from(v).to_string());
        assert_eq!(parse_v6(&v6_to_text(v)), Some(v));
    }
}

#[test]
fn universal_address() {
    let a = IpAddrUniversal::from_str("10.0.0.1").unwrap();
    assert_eq!(a, IpAddrUniversal::V4(0x0a000001));
    assert!(a.is_v4() && !a.is_v6());
    assert_eq!(a.as_v4(), Some(0x0a000001));
    assert_eq!(a.as_v6(), None);
    assert_eq!(a.to_string(), "10.0.0.1");
    assert_eq!(a.protocol(), "IPv4");
    let b = IpAddrUniversal::from_str("::1").unwrap();
    assert_eq!(b, IpAddrUniversal::V6(1));
    assert_eq!(b.protocol(), "IPv6");
    assert_eq!(b.as_v6(), Some(1));
    assert!(IpAddrUniversal::from_str("host").is_none());
    assert_eq!(
        IpAddrUniversal::new(AddrOctets::V4([1, 2, 3, 4])),
        IpAddrUniversal::V4(0x01020304)
    );
    let mut bytes = [0u8; 16];
    bytes[0] = 0xfe;
    bytes[15] = 9;
    assert_eq!(
        IpAddrUniversal::new(AddrOctets::V6(bytes)).to_string(),
        "fe00::9"
    );
}

#[test]
fn local_addresses() {
    for s in ["0.0.0.0", "127.0.0.1", "169.254.7.8", "::1", "7f00::1"] {
        let a = IpAddrUniversal::from_str(s).unwrap();
        assert!(a.is_local() && !a.is_public(), "{}", s);
    }
    for s in ["127.0.0.2", "192.168.1.1", "fe80::1", "::"] {
        let a = IpAddrUniversal::from_str(s).unwrap();
        assert!(a.is_public(), "{}", s);
    }
}

#[test]
fn loose_addresses() {
    assert_eq!(ip_to_u32("1.2.3.4"), Some(0x01020304));
    assert_eq!(ip_to_u32("+1.002.3.4"), Some(0x01020304));
    assert_eq!(ip_to_u32("1.2.3"), None);
    assert_eq!(ip_to_u32("1.2.3.4.5"), None);
    assert_eq!(ip_to_u32("::1"), None);
    assert!(validate_ip("1.2.3.4"));
    assert!(validate_ip("01.2.3.4"));
    assert!(!validate_ip("1.2.3.256"));
    assert!(validate_ip("fe80::1"));
    assert!(!validate_ip("fe80:::1"));
    assert!(!validate_ip("1.2.3"));
}

#[test]
fn subnets_of_64_bits() {
    assert_eq!(
        ipv6_subnet64("2001:db8:1:2:3:4:5:6"),
        Some("2001:db8:1:2::/64".to_string())
    );
    assert_eq!(ipv6_subnet64("1.2.3.4"), None);
    assert_eq!(ipv6_subnet64("nothing"), None);
}

fn next(state: &mut u64) -> u64 {
    *state ^= *state << 13;
    *state ^= *state >> 7;
    *state ^= *state << 17;
    *state
}

#[test]
fn many_texts_agree_with_std() {
    let pieces = [
        ":", "::", ".", "0", "1", "12", "255", "256", "01", "ffff", "abcd", "0000", "12345", "g",
        "1.2.3.4", "F", "+1", " ", "%",
    ];
    let mut state = 88_172_645_463_325_252;
    for _ in 0..60_000 {
        let mut s = String::new();
        for _ in 0..next(&mut state) % 16 {
            s.push_str(pieces[(next(&mut state) % pieces.len() as u64) as usize]);
        }
        let v4 = s.parse::<core::net::Ipv4Addr>().ok().map(u32::from);
        assert_eq!(parse_v4(&s), v4, "{}", s);
        let v6 = s.parse::<core::net::Ipv6Addr>().ok().map(u128::from);
        assert_eq!(parse_v6(&s), v6, "{}", s);
    }
}

#[test]
fn many_groups_agree_with_std() {
    let groups = ["0", "0", "0", "1", "ffff", "a0", "0db8"];
    let mut state = 1_234_567_891;
    for _ in 0..30_000 {
        let n = 1 + next(&mut state) % 9;
        let gap = next(&mut state) % 12;
        let mut s = String::new();
        for i in 0..n {
            if i == gap {
                s.push_str("::");
            } else if i > 0 {
                s.push(':');
            }
            s.push_str(groups[(next(&mut state) % groups.len() as u64) as usize]);
        }
        if gap == n {
            s.push_str("::");
        }
        if next(&mut state) % 5 == 0 {
            s.push_str(":10.0.0.1");
        }
        let v6 = s.parse::<core::net::Ipv6Addr>().ok().map(u128::from);
        assert_eq!(parse_v6(&s), v6, "{}", s);
        if let Some(v) = v6 {
            assert_eq!(v6_to_text(v), core::net::Ipv6Addr::from(v).to_string());
        }
    }
}
