//! Which addresses are private, neutral, or known to belong to VPN and hosting
//! providers.
use vstd::arithmetic::power2::pow2;
use vstd::bits::lemma_u32_shr_is_div;
use vstd::prelude::*;

use crate::addr::{
    addr_text, ip_to_u32, law_colon_tells_protocol, loose_v4, of_octets, parse_v4, parse_v6, segments,
    v4_text, v6_text, IpAddrUniversal,
};
use crate::text::contains_char;

verus! {

/// Whether the first `bits` bits of the two addresses agree.
pub open spec fn same_prefix(a: u32, b: u32, bits: u32) -> bool {
    if bits == 0 {
        true
    } else if bits >= 32 {
        a == b
    } else {
        a >> ((32 - bits) as u32) == b >> ((32 - bits) as u32)
    }
}

/// Whether an address lies in one of the networks of the list, each given by an address
/// and the number of leading bits that count.
pub open spec fn in_networks(a: u32, list: Seq<(u32, u32)>) -> bool {
    exists|i: int| 0 <= i < list.len() && same_prefix(a, #[trigger] list[i].0, list[i].1)
}

/// Networks of private, local and special use.
pub open spec fn neutral_networks() -> Seq<(u32, u32)> {
    seq![
        // private: 10.0.0.0/8
        (0x0a000000, 8),
        // loopback: 127.0.0.0/8
        (0x7f000000, 8),
        // link-local: 169.254.0.0/16
        (0xa9fe0000, 16),
        // private: 172.16.0.0/12
        (0xac100000, 12),
        // private: 192.168.0.0/16
        (0xc0a80000, 16),
        // this host: 0.0.0.0/8
        (0x00000000, 8),
        // multicast: 224.0.0.0/4
        (0xe0000000, 4),
        // reserved: 240.0.0.0/4
        (0xf0000000, 4),
        // carrier-grade NAT: 100.64.0.0/10
        (0x64400000, 10),
        // IETF: 192.0.0.0/24
        (0xc0000000, 24),
        // benchmarks: 198.18.0.0/15
        (0xc6120000, 15),
    ]
}

/// Networks that the packet monitor passes over.
pub open spec fn private_networks() -> Seq<(u32, u32)> {
    seq![
        // 10.0.0.0/8
        (0x0a000000, 8),
        // 127.0.0.0/8
        (0x7f000000, 8),
        // 169.254.0.0/16
        (0xa9fe0000, 16),
        // 172.16.0.0/12
        (0xac100000, 12),
        // 192.168.0.0/16
        (0xc0a80000, 16),
        // 0.0.0.0/8
        (0x00000000, 8),
        // 224.0.0.0/4
        (0xe0000000, 4),
        // 240.0.0.0/4
        (0xf0000000, 4),
        // 100.64.0.0/10
        (0x64400000, 10),
    ]
}

/// Networks known to belong to VPN, proxy and hosting providers.
pub open spec fn vpn_networks() -> Seq<(u32, u32)> {
    seq![
        // 104.16.0.0/12
        (0x68100000, 12),
        // 104.17.0.0/16
        (0x68110000, 16),
        // 104.18.0.0/16
        (0x68120000, 16),
        // 104.19.0.0/16
        (0x68130000, 16),
        // 104.20.0.0/16
        (0x68140000, 16),
        // 104.21.0.0/16
        (0x68150000, 16),
        // 104.22.0.0/16
        (0x68160000, 16),
        // 104.23.0.0/16
        (0x68170000, 16),
        // 104.24.0.0/16
        (0x68180000, 16),
        // 104.25.0.0/16
        (0x68190000, 16),
        // 104.26.0.0/16
        (0x681a0000, 16),
        // 104.27.0.0/16
        (0x681b0000, 16),
        // 8.8.8.8/32
        (0x08080808, 32),
        // 8.8.4.4/32
        (0x08080404, 32),
        // 185.232.24.0/22
        (0xb9e81800, 22),
        // 185.93.2.0/24
        (0xb95d0200, 24),
        // 104.129.0.0/16
        (0x68810000, 16),
        // 209.222.16.0/24
        (0xd1de1000, 24),
        // 13.248.0.0/16
        (0x0df80000, 16),
        // 15.197.0.0/16
        (0x0fc50000, 16),
        // 16.0.0.0/8
        (0x10000000, 8),
        // 52.94.0.0/16
        (0x345e0000, 16),
        // 20.0.0.0/8
        (0x14000000, 8),
        // 40.64.0.0/10
        (0x28400000, 10),
        // 4.0.0.0/8
        (0x04000000, 8),
        // 138.197.0.0/16
        (0x8ac50000, 16),
        // 159.89.0.0/16
        (0x9f590000, 16),
        // 165.227.0.0/16
        (0xa5e30000, 16),
        // 167.99.0.0/16
        (0xa7630000, 16),
        // 51.68.0.0/16
        (0x33440000, 16),
        // 54.36.0.0/15
        (0x36240000, 15),
        // 78.46.0.0/16
        (0x4e2e0000, 16),
        // 88.198.0.0/16
        (0x58c60000, 16),
        // 139.162.0.0/16
        (0x8ba20000, 16),
        // 172.104.0.0/16
        (0xac680000, 16),
        // 178.79.0.0/16
        (0xb24f0000, 16),
        // 104.156.64.0/19
        (0x689c4000, 19),
        // 108.61.0.0/16
        (0x6c3d0000, 16),
        // 149.28.0.0/16
        (0x951c0000, 16),
        // 207.148.0.0/16
        (0xcf940000, 16),
        // 192.42.116.0/22
        (0xc02a7400, 22),
        // 198.96.155.0/24
        (0xc6609b00, 24),
        // 209.141.32.0/19
        (0xd18d2000, 19),
    ]
}

/// Whether an IPv6 address is the loopback address, or lies in fc00::/7, fe80::/10,
/// fec0::/10 or ff00::/8.
pub open spec fn neutral_v6(a: u128) -> bool {
    let first = segments(a)[0];
    a == 1 || 0xfc00 <= first <= 0xfdff || 0xfe80 <= first
}

/// Whether an IPv6 address is the loopback address, or lies in fc00::/7, fe80::/10 or
/// ff00::/8.
pub open spec fn private_v6(a: u128) -> bool {
    let first = segments(a)[0];
    a == 1 || 0xfc00 <= first <= 0xfdff || 0xfe80 <= first <= 0xfebf || 0xff00 <= first
}

/// Whether a text denotes an address of private, local or special use, or no address
/// at all. Such an address is never banned.
pub open spec fn neutral_ip(s: Seq<char>) -> bool {
    match addr_text(s) {
        None => true,
        Some(IpAddrUniversal::V4(a)) => in_networks(a, neutral_networks()),
        Some(IpAddrUniversal::V6(a)) => neutral_v6(a),
    }
}

/// Whether a text denotes an address of a VPN, proxy or hosting provider. Every IPv6
/// address that is not neutral counts as one.
pub open spec fn vpn_ip(s: Seq<char>) -> bool {
    if s.contains(':') {
        !neutral_ip(s)
    } else {
        match v4_text(s) {
            Some(a) => in_networks(a, vpn_networks()),
            None => false,
        }
    }
}

/// Whether the packet monitor passes over the address: it is private, or it holds a
/// colon and is no IPv6 address.
pub open spec fn private_ip(s: Seq<char>) -> bool {
    if s.contains(':') {
        match v6_text(s) {
            Some(a) => private_v6(a),
            None => true,
        }
    } else {
        match v4_text(s) {
            Some(a) => in_networks(a, private_networks()),
            None => false,
        }
    }
}

/// Whether `ip` lies in the network of `bits` leading bits of the address `prefix`; not
/// if the prefix is no address.
pub open spec fn in_subnet(ip: u32, prefix: Seq<char>, bits: u32) -> bool {
    match loose_v4(prefix) {
        Some(p) => same_prefix(ip, p, bits),
        None => false,
    }
}

fn prefix_matches(a: u32, b: u32, bits: u32) -> (r: bool)
    ensures
        r == same_prefix(a, b, bits),
{
    if bits == 0 {
        return true;
    }
    if bits >= 32 {
        return a == b;
    }
    let mask: u32 = 0xFFFFFFFFu32 << (32 - bits);
    assert((a & (0xFFFFFFFFu32 << ((32 - bits) as u32)) == b & (0xFFFFFFFFu32 << ((32
        - bits) as u32))) == (a >> ((32 - bits) as u32) == b >> ((32 - bits) as u32)))
        by (bit_vector)
        requires
            0 < bits < 32,
    ;
    (a & mask) == (b & mask)
}

/// Whether `ip` lies in the network `prefix_str`/`bits`.
pub fn ipv4_in_subnet(ip: u32, prefix_str: &str, bits: u32) -> (r: bool)
    ensures
        r == in_subnet(ip, prefix_str@, bits),
{
    match ip_to_u32(prefix_str) {
        Some(prefix) => prefix_matches(ip, prefix, bits),
        None => false,
    }
}

fn in_list(a: u32, list: &Vec<(u32, u32)>) -> (r: bool)
    ensures
        r == in_networks(a, list@),
{
    let mut i: usize = 0;
    while i < list.len()
        invariant
            i <= list.len(),
            forall|j: int| 0 <= j < i ==> !same_prefix(a, #[trigger] list@[j].0, list@[j].1),
        decreases list.len() - i,
    {
        if prefix_matches(a, list[i].0, list[i].1) {
            assert(same_prefix(a, list@[i as int].0, list@[i as int].1));
            return true;
        }
        i += 1;
    }
    false
}

fn neutral_list() -> (r: Vec<(u32, u32)>)
    ensures
        r@ == neutral_networks(),
{
    let r: Vec<(u32, u32)> = vec![
        (0x0a000000, 8),
        (0x7f000000, 8),
        (0xa9fe0000, 16),
        (0xac100000, 12),
        (0xc0a80000, 16),
        (0x00000000, 8),
        (0xe0000000, 4),
        (0xf0000000, 4),
        (0x64400000, 10),
        (0xc0000000, 24),
        (0xc6120000, 15),
    ];
    assert(r@ =~= neutral_networks());
    r
}

fn vpn_list() -> (r: Vec<(u32, u32)>)
    ensures
        r@ == vpn_networks(),
{
    let r: Vec<(u32, u32)> = vec![
        (0x68100000, 12),
        (0x68110000, 16),
        (0x68120000, 16),
        (0x68130000, 16),
        (0x68140000, 16),
        (0x68150000, 16),
        (0x68160000, 16),
        (0x68170000, 16),
        (0x68180000, 16),
        (0x68190000, 16),
        (0x681a0000, 16),
        (0x681b0000, 16),
        (0x08080808, 32),
        (0x08080404, 32),
        (0xb9e81800, 22),
        (0xb95d0200, 24),
        (0x68810000, 16),
        (0xd1de1000, 24),
        (0x0df80000, 16),
        (0x0fc50000, 16),
        (0x10000000, 8),
        (0x345e0000, 16),
        (0x14000000, 8),
        (0x28400000, 10),
        (0x04000000, 8),
        (0x8ac50000, 16),
        (0x9f590000, 16),
        (0xa5e30000, 16),
        (0xa7630000, 16),
        (0x33440000, 16),
        (0x36240000, 15),
        (0x4e2e0000, 16),
        (0x58c60000, 16),
        (0x8ba20000, 16),
        (0xac680000, 16),
        (0xb24f0000, 16),
        (0x689c4000, 19),
        (0x6c3d0000, 16),
        (0x951c0000, 16),
        (0xcf940000, 16),
        (0xc02a7400, 22),
        (0xc6609b00, 24),
        (0xd18d2000, 19),
    ];
    assert(r@ =~= vpn_networks());
    r
}

/// Whether an address is of private, local or special use.
pub fn is_neutral_ip(ip: &str) -> (r: bool)
    ensures
        r == neutral_ip(ip@),
{
    match IpAddrUniversal::from_str(ip) {
        None => true,
        Some(IpAddrUniversal::V4(a)) => in_list(a, &neutral_list()),
        Some(IpAddrUniversal::V6(a)) => {
            let first16: u16 = (a >> 112) as u16;
            assert((first16 & 0xFE00 == 0xFC00) == (0xfc00 <= first16 <= 0xfdff)) by (bit_vector);
            assert((first16 & 0xFFC0 == 0xFE80 || first16 & 0xFF00 == 0xFF00 || first16 & 0xFFC0
                == 0xFEC0) == (0xfe80 <= first16)) by (bit_vector);
            a == 1 || (first16 & 0xFE00) == 0xFC00 || (first16 & 0xFFC0) == 0xFE80 || (first16
                & 0xFF00) == 0xFF00 || (first16 & 0xFFC0) == 0xFEC0
        },
    }
}

/// Whether an address is known to belong to a VPN, proxy or hosting provider.
pub fn is_vpn_or_proxy_ip(ip: &str) -> (r: bool)
    ensures
        r == vpn_ip(ip@),
{
    if contains_char(ip, ':') {
        return !is_neutral_ip(ip);
    }
    match parse_v4(ip) {
        Some(a) => in_list(a, &vpn_list()),
        None => false,
    }
}

fn private_v4(v4: u32) -> (r: bool)
    ensures
        r == in_networks(v4, private_networks()),
{
    let a: u8 = (v4 >> 24) as u8;
    let b: u8 = (v4 >> 16) as u8;
    proof {
        let l = private_networks();
        assert((a == 10) == (v4 >> 24 == 0x0a000000u32 >> 24)) by (bit_vector)
            requires
                a == (v4 >> 24) as u8,
        ;
        assert((a == 127) == (v4 >> 24 == 0x7f000000u32 >> 24)) by (bit_vector)
            requires
                a == (v4 >> 24) as u8,
        ;
        assert((a == 169 && b == 254) == (v4 >> 16 == 0xa9fe0000u32 >> 16)) by (bit_vector)
            requires
                a == (v4 >> 24) as u8,
                b == (v4 >> 16) as u8,
        ;
        assert((a == 172 && 16 <= b && b <= 31) == (v4 >> 20 == 0xac100000u32 >> 20))
            by (bit_vector)
            requires
                a == (v4 >> 24) as u8,
                b == (v4 >> 16) as u8,
        ;
        assert((a == 192 && b == 168) == (v4 >> 16 == 0xc0a80000u32 >> 16)) by (bit_vector)
            requires
                a == (v4 >> 24) as u8,
                b == (v4 >> 16) as u8,
        ;
        assert((a == 0) == (v4 >> 24 == 0x00000000u32 >> 24)) by (bit_vector)
            requires
                a == (v4 >> 24) as u8,
        ;
        assert((224 <= a && a <= 239) == (v4 >> 28 == 0xe0000000u32 >> 28)) by (bit_vector)
            requires
                a == (v4 >> 24) as u8,
        ;
        assert((240 <= a) == (v4 >> 28 == 0xf0000000u32 >> 28)) by (bit_vector)
            requires
                a == (v4 >> 24) as u8,
        ;
        assert((a == 100 && 64 <= b && b <= 127) == (v4 >> 22 == 0x64400000u32 >> 22))
            by (bit_vector)
            requires
                a == (v4 >> 24) as u8,
                b == (v4 >> 16) as u8,
        ;
        assert(same_prefix(v4, l[0].0, l[0].1) == (a == 10));
        assert(same_prefix(v4, l[1].0, l[1].1) == (a == 127));
        assert(same_prefix(v4, l[2].0, l[2].1) == (a == 169 && b == 254));
        assert(same_prefix(v4, l[3].0, l[3].1) == (a == 172 && 16 <= b && b <= 31));
        assert(same_prefix(v4, l[4].0, l[4].1) == (a == 192 && b == 168));
        assert(same_prefix(v4, l[5].0, l[5].1) == (a == 0));
        assert(same_prefix(v4, l[6].0, l[6].1) == (224 <= a && a <= 239));
        assert(same_prefix(v4, l[7].0, l[7].1) == (240 <= a));
        assert(same_prefix(v4, l[8].0, l[8].1) == (a == 100 && 64 <= b && b <= 127));
        assert(l.len() == 9);
    }
    if a == 10 || a == 127 {
        return true;
    }
    if a == 169 && b == 254 {
        return true;
    }
    if a == 172 && 16 <= b && b <= 31 {
        return true;
    }
    if a == 192 && b == 168 {
        return true;
    }
    if a == 0 {
        return true;
    }
    if a >= 224 {
        return true;
    }
    a == 100 && 64 <= b && b <= 127
}

/// Whether the packet monitor passes over the address.
pub fn is_private_ip(ip: &str) -> (r: bool)
    ensures
        r == private_ip(ip@),
{
    if contains_char(ip, ':') {
        return match parse_v6(ip) {
            Some(a) => {
                let first16: u16 = (a >> 112) as u16;
                assert((first16 & 0xFE00 == 0xFC00) == (0xfc00 <= first16 <= 0xfdff))
                    by (bit_vector);
                assert((first16 & 0xFFC0 == 0xFE80) == (0xfe80 <= first16 <= 0xfebf))
                    by (bit_vector);
                assert((first16 & 0xFF00 == 0xFF00) == (0xff00 <= first16)) by (bit_vector);
                a == 1 || (first16 & 0xFE00) == 0xFC00 || (first16 & 0xFFC0) == 0xFE80 || (first16
                    & 0xFF00) == 0xFF00
            },
            None => true,
        };
    }
    match parse_v4(ip) {
        Some(a) => private_v4(a),
        None => false,
    }
}

/// An address that the packet monitor passes over is never banned by the flood guard
/// either.
pub proof fn law_private_is_neutral(s: Seq<char>)
    requires
        private_ip(s),
    ensures
        neutral_ip(s),
{
    law_colon_tells_protocol(s);
    if let Some(IpAddrUniversal::V4(a)) = addr_text(s) {
        let l = private_networks();
        let n = neutral_networks();
        let i = choose|i: int| 0 <= i < l.len() && same_prefix(a, #[trigger] l[i].0, l[i].1);
        assert(n[i] == l[i]);
        assert(same_prefix(a, n[i].0, n[i].1));
    }
}

/// A text that is no address at all is neutral, so nothing is ever counted against it.
pub proof fn law_unreadable_is_neutral(s: Seq<char>)
    requires
        addr_text(s) is None,
    ensures
        neutral_ip(s),
        !vpn_ip(s),
{
}

// ---------------------------------------------------------------------------
// Laws
// ---------------------------------------------------------------------------

proof fn lemma_neutral(x: u32, a: u8, b: u8, c: u8, d: u8)
    requires
        x == ((a as u32) << 24) | ((b as u32) << 16) | ((c as u32) << 8) | (d as u32),
    ensures
        in_networks(x, neutral_networks()) <==> (a == 0 || a == 10 || a == 127 || a >= 224 || (a == 100 && 64 <= b && b <= 127) || (a
            == 169 && b == 254) || (a == 172 && 16 <= b && b <= 31) || (a == 192 && b == 168) || (a
            == 192 && b == 0 && c == 0) || (a == 198 && (b == 18 || b == 19))),
{
    let l = neutral_networks();
    assert((
    x >> 24u32 == 0xa
        || x >> 24u32 == 0x7f
        || x >> 16u32 == 0xa9fe
        || x >> 20u32 == 0xac1
        || x >> 16u32 == 0xc0a8
        || x >> 24u32 == 0x0
        || x >> 28u32 == 0xe
        || x >> 28u32 == 0xf
        || x >> 22u32 == 0x191
        || x >> 8u32 == 0xc00000
        || x >> 17u32 == 0x6309
    ) == ((a == 0 || a == 10 || a == 127 || a >= 224 || (a == 100 && 64 <= b && b <= 127) || (a
            == 169 && b == 254) || (a == 172 && 16 <= b && b <= 31) || (a == 192 && b == 168) || (a
            == 192 && b == 0 && c == 0) || (a == 198 && (b == 18 || b == 19))))) by (bit_vector)
        requires
            x == ((a as u32) << 24) | ((b as u32) << 16) | ((c as u32) << 8) | (d as u32),
    ;
    assert(0x0a000000u32 >> 24u32 == 0xa
        && 0x7f000000u32 >> 24u32 == 0x7f
        && 0xa9fe0000u32 >> 16u32 == 0xa9fe
        && 0xac100000u32 >> 20u32 == 0xac1
        && 0xc0a80000u32 >> 16u32 == 0xc0a8
        && 0x00000000u32 >> 24u32 == 0x0
        && 0xe0000000u32 >> 28u32 == 0xe
        && 0xf0000000u32 >> 28u32 == 0xf
        && 0x64400000u32 >> 22u32 == 0x191
        && 0xc0000000u32 >> 8u32 == 0xc00000
        && 0xc6120000u32 >> 17u32 == 0x6309) by (bit_vector);
    assert(l[0] == (0x0a000000u32, 8u32));
    assert(l[1] == (0x7f000000u32, 8u32));
    assert(l[2] == (0xa9fe0000u32, 16u32));
    assert(l[3] == (0xac100000u32, 12u32));
    assert(l[4] == (0xc0a80000u32, 16u32));
    assert(l[5] == (0x00000000u32, 8u32));
    assert(l[6] == (0xe0000000u32, 4u32));
    assert(l[7] == (0xf0000000u32, 4u32));
    assert(l[8] == (0x64400000u32, 10u32));
    assert(l[9] == (0xc0000000u32, 24u32));
    assert(l[10] == (0xc6120000u32, 15u32));
    if x >> 24u32 == 0xa {
        assert(same_prefix(x, l[0].0, l[0].1));
    }
    if x >> 24u32 == 0x7f {
        assert(same_prefix(x, l[1].0, l[1].1));
    }
    if x >> 16u32 == 0xa9fe {
        assert(same_prefix(x, l[2].0, l[2].1));
    }
    if x >> 20u32 == 0xac1 {
        assert(same_prefix(x, l[3].0, l[3].1));
    }
    if x >> 16u32 == 0xc0a8 {
        assert(same_prefix(x, l[4].0, l[4].1));
    }
    if x >> 24u32 == 0x0 {
        assert(same_prefix(x, l[5].0, l[5].1));
    }
    if x >> 28u32 == 0xe {
        assert(same_prefix(x, l[6].0, l[6].1));
    }
    if x >> 28u32 == 0xf {
        assert(same_prefix(x, l[7].0, l[7].1));
    }
    if x >> 22u32 == 0x191 {
        assert(same_prefix(x, l[8].0, l[8].1));
    }
    if x >> 8u32 == 0xc00000 {
        assert(same_prefix(x, l[9].0, l[9].1));
    }
    if x >> 17u32 == 0x6309 {
        assert(same_prefix(x, l[10].0, l[10].1));
    }
    if in_networks(x, l) {
        let i = choose|i: int| 0 <= i < l.len() && same_prefix(x, #[trigger] l[i].0, l[i].1);
        assert(l.len() == 11);
        assert(i == 0 || i == 1 || i == 2 || i == 3 || i == 4 || i == 5 || i == 6 || i == 7 || i == 8 || i == 9 || i == 10);
    }
}

proof fn lemma_private(x: u32, a: u8, b: u8, c: u8, d: u8)
    requires
        x == ((a as u32) << 24) | ((b as u32) << 16) | ((c as u32) << 8) | (d as u32),
    ensures
        in_networks(x, private_networks()) <==> (a == 0 || a == 10 || a == 127 || a >= 224 || (a == 100 && 64 <= b && b <= 127) || (a
            == 169 && b == 254) || (a == 172 && 16 <= b && b <= 31) || (a == 192 && b == 168)),
{
    let l = private_networks();
    assert((
    x >> 24u32 == 0xa
        || x >> 24u32 == 0x7f
        || x >> 16u32 == 0xa9fe
        || x >> 20u32 == 0xac1
        || x >> 16u32 == 0xc0a8
        || x >> 24u32 == 0x0
        || x >> 28u32 == 0xe
        || x >> 28u32 == 0xf
        || x >> 22u32 == 0x191
    ) == ((a == 0 || a == 10 || a == 127 || a >= 224 || (a == 100 && 64 <= b && b <= 127) || (a
            == 169 && b == 254) || (a == 172 && 16 <= b && b <= 31) || (a == 192 && b == 168)))) by (bit_vector)
        requires
            x == ((a as u32) << 24) | ((b as u32) << 16) | ((c as u32) << 8) | (d as u32),
    ;
    assert(0x0a000000u32 >> 24u32 == 0xa
        && 0x7f000000u32 >> 24u32 == 0x7f
        && 0xa9fe0000u32 >> 16u32 == 0xa9fe
        && 0xac100000u32 >> 20u32 == 0xac1
        && 0xc0a80000u32 >> 16u32 == 0xc0a8
        && 0x00000000u32 >> 24u32 == 0x0
        && 0xe0000000u32 >> 28u32 == 0xe
        && 0xf0000000u32 >> 28u32 == 0xf
        && 0x64400000u32 >> 22u32 == 0x191) by (bit_vector);
    assert(l[0] == (0x0a000000u32, 8u32));
    assert(l[1] == (0x7f000000u32, 8u32));
    assert(l[2] == (0xa9fe0000u32, 16u32));
    assert(l[3] == (0xac100000u32, 12u32));
    assert(l[4] == (0xc0a80000u32, 16u32));
    assert(l[5] == (0x00000000u32, 8u32));
    assert(l[6] == (0xe0000000u32, 4u32));
    assert(l[7] == (0xf0000000u32, 4u32));
    assert(l[8] == (0x64400000u32, 10u32));
    if x >> 24u32 == 0xa {
        assert(same_prefix(x, l[0].0, l[0].1));
    }
    if x >> 24u32 == 0x7f {
        assert(same_prefix(x, l[1].0, l[1].1));
    }
    if x >> 16u32 == 0xa9fe {
        assert(same_prefix(x, l[2].0, l[2].1));
    }
    if x >> 20u32 == 0xac1 {
        assert(same_prefix(x, l[3].0, l[3].1));
    }
    if x >> 16u32 == 0xc0a8 {
        assert(same_prefix(x, l[4].0, l[4].1));
    }
    if x >> 24u32 == 0x0 {
        assert(same_prefix(x, l[5].0, l[5].1));
    }
    if x >> 28u32 == 0xe {
        assert(same_prefix(x, l[6].0, l[6].1));
    }
    if x >> 28u32 == 0xf {
        assert(same_prefix(x, l[7].0, l[7].1));
    }
    if x >> 22u32 == 0x191 {
        assert(same_prefix(x, l[8].0, l[8].1));
    }
    if in_networks(x, l) {
        let i = choose|i: int| 0 <= i < l.len() && same_prefix(x, #[trigger] l[i].0, l[i].1);
        assert(l.len() == 9);
        assert(i == 0 || i == 1 || i == 2 || i == 3 || i == 4 || i == 5 || i == 6 || i == 7 || i == 8);
    }
}

proof fn lemma_vpn(x: u32, a: u8, b: u8, c: u8, d: u8)
    requires
        x == ((a as u32) << 24) | ((b as u32) << 16) | ((c as u32) << 8) | (d as u32),
    ensures
        in_networks(x, vpn_networks()) <==> (a == 4 || a == 16 || a == 20 || (a == 8 && b == 8 && c == 8 && d == 8) || (a == 8 && b
            == 8 && c == 4 && d == 4) || (a == 13 && b == 248) || (a == 15 && b == 197) || (a == 40
            && 64 <= b && b <= 127) || (a == 51 && b == 68) || (a == 52 && b == 94) || (a == 54 && (
        b == 36 || b == 37)) || (a == 78 && b == 46) || (a == 88 && b == 198) || (a == 104 && 16
            <= b && b <= 31) || (a == 104 && b == 129) || (a == 104 && b == 156 && 64 <= c && c
            <= 95) || (a == 108 && b == 61) || (a == 138 && b == 197) || (a == 139 && b == 162) || (
        a == 149 && b == 28) || (a == 159 && b == 89) || (a == 165 && b == 227) || (a == 167 && b
            == 99) || (a == 172 && b == 104) || (a == 178 && b == 79) || (a == 185 && b == 93 && c
            == 2) || (a == 185 && b == 232 && 24 <= c && c <= 27) || (a == 192 && b == 42 && 116
            <= c && c <= 119) || (a == 198 && b == 96 && c == 155) || (a == 207 && b == 148) || (a
            == 209 && b == 141 && 32 <= c && c <= 63) || (a == 209 && b == 222 && c == 16)),
{
    let l = vpn_networks();
    assert((
    x >> 20u32 == 0x681
        || x >> 16u32 == 0x6811
        || x >> 16u32 == 0x6812
        || x >> 16u32 == 0x6813
        || x >> 16u32 == 0x6814
        || x >> 16u32 == 0x6815
        || x >> 16u32 == 0x6816
        || x >> 16u32 == 0x6817
        || x >> 16u32 == 0x6818
        || x >> 16u32 == 0x6819
        || x >> 16u32 == 0x681a
        || x >> 16u32 == 0x681b
        || x == 0x08080808
        || x == 0x08080404
        || x >> 10u32 == 0x2e7a06
        || x >> 8u32 == 0xb95d02
        || x >> 16u32 == 0x6881
        || x >> 8u32 == 0xd1de10
        || x >> 16u32 == 0xdf8
        || x >> 16u32 == 0xfc5
        || x >> 24u32 == 0x10
        || x >> 16u32 == 0x345e
        || x >> 24u32 == 0x14
        || x >> 22u32 == 0xa1
        || x >> 24u32 == 0x4
        || x >> 16u32 == 0x8ac5
        || x >> 16u32 == 0x9f59
        || x >> 16u32 == 0xa5e3
        || x >> 16u32 == 0xa763
        || x >> 16u32 == 0x3344
        || x >> 17u32 == 0x1b12
        || x >> 16u32 == 0x4e2e
        || x >> 16u32 == 0x58c6
        || x >> 16u32 == 0x8ba2
        || x >> 16u32 == 0xac68
        || x >> 16u32 == 0xb24f
        || x >> 13u32 == 0x344e2
        || x >> 16u32 == 0x6c3d
        || x >> 16u32 == 0x951c
        || x >> 16u32 == 0xcf94
        || x >> 10u32 == 0x300a9d
        || x >> 8u32 == 0xc6609b
        || x >> 13u32 == 0x68c69
    ) == ((a == 4 || a == 16 || a == 20 || (a == 8 && b == 8 && c == 8 && d == 8) || (a == 8 && b
            == 8 && c == 4 && d == 4) || (a == 13 && b == 248) || (a == 15 && b == 197) || (a == 40
            && 64 <= b && b <= 127) || (a == 51 && b == 68) || (a == 52 && b == 94) || (a == 54 && (
        b == 36 || b == 37)) || (a == 78 && b == 46) || (a == 88 && b == 198) || (a == 104 && 16
            <= b && b <= 31) || (a == 104 && b == 129) || (a == 104 && b == 156 && 64 <= c && c
            <= 95) || (a == 108 && b == 61) || (a == 138 && b == 197) || (a == 139 && b == 162) || (
        a == 149 && b == 28) || (a == 159 && b == 89) || (a == 165 && b == 227) || (a == 167 && b
            == 99) || (a == 172 && b == 104) || (a == 178 && b == 79) || (a == 185 && b == 93 && c
            == 2) || (a == 185 && b == 232 && 24 <= c && c <= 27) || (a == 192 && b == 42 && 116
            <= c && c <= 119) || (a == 198 && b == 96 && c == 155) || (a == 207 && b == 148) || (a
            == 209 && b == 141 && 32 <= c && c <= 63) || (a == 209 && b == 222 && c == 16)))) by (bit_vector)
        requires
            x == ((a as u32) << 24) | ((b as u32) << 16) | ((c as u32) << 8) | (d as u32),
    ;
    assert(0x68100000u32 >> 20u32 == 0x681
        && 0x68110000u32 >> 16u32 == 0x6811
        && 0x68120000u32 >> 16u32 == 0x6812
        && 0x68130000u32 >> 16u32 == 0x6813
        && 0x68140000u32 >> 16u32 == 0x6814
        && 0x68150000u32 >> 16u32 == 0x6815
        && 0x68160000u32 >> 16u32 == 0x6816
        && 0x68170000u32 >> 16u32 == 0x6817
        && 0x68180000u32 >> 16u32 == 0x6818
        && 0x68190000u32 >> 16u32 == 0x6819
        && 0x681a0000u32 >> 16u32 == 0x681a
        && 0x681b0000u32 >> 16u32 == 0x681b
        && 0xb9e81800u32 >> 10u32 == 0x2e7a06
        && 0xb95d0200u32 >> 8u32 == 0xb95d02
        && 0x68810000u32 >> 16u32 == 0x6881
        && 0xd1de1000u32 >> 8u32 == 0xd1de10
        && 0x0df80000u32 >> 16u32 == 0xdf8
        && 0x0fc50000u32 >> 16u32 == 0xfc5
        && 0x10000000u32 >> 24u32 == 0x10
        && 0x345e0000u32 >> 16u32 == 0x345e
        && 0x14000000u32 >> 24u32 == 0x14
        && 0x28400000u32 >> 22u32 == 0xa1
        && 0x04000000u32 >> 24u32 == 0x4
        && 0x8ac50000u32 >> 16u32 == 0x8ac5
        && 0x9f590000u32 >> 16u32 == 0x9f59
        && 0xa5e30000u32 >> 16u32 == 0xa5e3
        && 0xa7630000u32 >> 16u32 == 0xa763
        && 0x33440000u32 >> 16u32 == 0x3344
        && 0x36240000u32 >> 17u32 == 0x1b12
        && 0x4e2e0000u32 >> 16u32 == 0x4e2e
        && 0x58c60000u32 >> 16u32 == 0x58c6
        && 0x8ba20000u32 >> 16u32 == 0x8ba2
        && 0xac680000u32 >> 16u32 == 0xac68
        && 0xb24f0000u32 >> 16u32 == 0xb24f
        && 0x689c4000u32 >> 13u32 == 0x344e2
        && 0x6c3d0000u32 >> 16u32 == 0x6c3d
        && 0x951c0000u32 >> 16u32 == 0x951c
        && 0xcf940000u32 >> 16u32 == 0xcf94
        && 0xc02a7400u32 >> 10u32 == 0x300a9d
        && 0xc6609b00u32 >> 8u32 == 0xc6609b
        && 0xd18d2000u32 >> 13u32 == 0x68c69) by (bit_vector);
    assert(l[0] == (0x68100000u32, 12u32));
    assert(l[1] == (0x68110000u32, 16u32));
    assert(l[2] == (0x68120000u32, 16u32));
    assert(l[3] == (0x68130000u32, 16u32));
    assert(l[4] == (0x68140000u32, 16u32));
    assert(l[5] == (0x68150000u32, 16u32));
    assert(l[6] == (0x68160000u32, 16u32));
    assert(l[7] == (0x68170000u32, 16u32));
    assert(l[8] == (0x68180000u32, 16u32));
    assert(l[9] == (0x68190000u32, 16u32));
    assert(l[10] == (0x681a0000u32, 16u32));
    assert(l[11] == (0x681b0000u32, 16u32));
    assert(l[12] == (0x08080808u32, 32u32));
    assert(l[13] == (0x08080404u32, 32u32));
    assert(l[14] == (0xb9e81800u32, 22u32));
    assert(l[15] == (0xb95d0200u32, 24u32));
    assert(l[16] == (0x68810000u32, 16u32));
    assert(l[17] == (0xd1de1000u32, 24u32));
    assert(l[18] == (0x0df80000u32, 16u32));
    assert(l[19] == (0x0fc50000u32, 16u32));
    assert(l[20] == (0x10000000u32, 8u32));
    assert(l[21] == (0x345e0000u32, 16u32));
    assert(l[22] == (0x14000000u32, 8u32));
    assert(l[23] == (0x28400000u32, 10u32));
    assert(l[24] == (0x04000000u32, 8u32));
    assert(l[25] == (0x8ac50000u32, 16u32));
    assert(l[26] == (0x9f590000u32, 16u32));
    assert(l[27] == (0xa5e30000u32, 16u32));
    assert(l[28] == (0xa7630000u32, 16u32));
    assert(l[29] == (0x33440000u32, 16u32));
    assert(l[30] == (0x36240000u32, 15u32));
    assert(l[31] == (0x4e2e0000u32, 16u32));
    assert(l[32] == (0x58c60000u32, 16u32));
    assert(l[33] == (0x8ba20000u32, 16u32));
    assert(l[34] == (0xac680000u32, 16u32));
    assert(l[35] == (0xb24f0000u32, 16u32));
    assert(l[36] == (0x689c4000u32, 19u32));
    assert(l[37] == (0x6c3d0000u32, 16u32));
    assert(l[38] == (0x951c0000u32, 16u32));
    assert(l[39] == (0xcf940000u32, 16u32));
    assert(l[40] == (0xc02a7400u32, 22u32));
    assert(l[41] == (0xc6609b00u32, 24u32));
    assert(l[42] == (0xd18d2000u32, 19u32));
    if x >> 20u32 == 0x681 {
        assert(same_prefix(x, l[0].0, l[0].1));
    }
    if x >> 16u32 == 0x6811 {
        assert(same_prefix(x, l[1].0, l[1].1));
    }
    if x >> 16u32 == 0x6812 {
        assert(same_prefix(x, l[2].0, l[2].1));
    }
    if x >> 16u32 == 0x6813 {
        assert(same_prefix(x, l[3].0, l[3].1));
    }
    if x >> 16u32 == 0x6814 {
        assert(same_prefix(x, l[4].0, l[4].1));
    }
    if x >> 16u32 == 0x6815 {
        assert(same_prefix(x, l[5].0, l[5].1));
    }
    if x >> 16u32 == 0x6816 {
        assert(same_prefix(x, l[6].0, l[6].1));
    }
    if x >> 16u32 == 0x6817 {
        assert(same_prefix(x, l[7].0, l[7].1));
    }
    if x >> 16u32 == 0x6818 {
        assert(same_prefix(x, l[8].0, l[8].1));
    }
    if x >> 16u32 == 0x6819 {
        assert(same_prefix(x, l[9].0, l[9].1));
    }
    if x >> 16u32 == 0x681a {
        assert(same_prefix(x, l[10].0, l[10].1));
    }
    if x >> 16u32 == 0x681b {
        assert(same_prefix(x, l[11].0, l[11].1));
    }
    if x == 0x08080808 {
        assert(same_prefix(x, l[12].0, l[12].1));
    }
    if x == 0x08080404 {
        assert(same_prefix(x, l[13].0, l[13].1));
    }
    if x >> 10u32 == 0x2e7a06 {
        assert(same_prefix(x, l[14].0, l[14].1));
    }
    if x >> 8u32 == 0xb95d02 {
        assert(same_prefix(x, l[15].0, l[15].1));
    }
    if x >> 16u32 == 0x6881 {
        assert(same_prefix(x, l[16].0, l[16].1));
    }
    if x >> 8u32 == 0xd1de10 {
        assert(same_prefix(x, l[17].0, l[17].1));
    }
    if x >> 16u32 == 0xdf8 {
        assert(same_prefix(x, l[18].0, l[18].1));
    }
    if x >> 16u32 == 0xfc5 {
        assert(same_prefix(x, l[19].0, l[19].1));
    }
    if x >> 24u32 == 0x10 {
        assert(same_prefix(x, l[20].0, l[20].1));
    }
    if x >> 16u32 == 0x345e {
        assert(same_prefix(x, l[21].0, l[21].1));
    }
    if x >> 24u32 == 0x14 {
        assert(same_prefix(x, l[22].0, l[22].1));
    }
    if x >> 22u32 == 0xa1 {
        assert(same_prefix(x, l[23].0, l[23].1));
    }
    if x >> 24u32 == 0x4 {
        assert(same_prefix(x, l[24].0, l[24].1));
    }
    if x >> 16u32 == 0x8ac5 {
        assert(same_prefix(x, l[25].0, l[25].1));
    }
    if x >> 16u32 == 0x9f59 {
        assert(same_prefix(x, l[26].0, l[26].1));
    }
    if x >> 16u32 == 0xa5e3 {
        assert(same_prefix(x, l[27].0, l[27].1));
    }
    if x >> 16u32 == 0xa763 {
        assert(same_prefix(x, l[28].0, l[28].1));
    }
    if x >> 16u32 == 0x3344 {
        assert(same_prefix(x, l[29].0, l[29].1));
    }
    if x >> 17u32 == 0x1b12 {
        assert(same_prefix(x, l[30].0, l[30].1));
    }
    if x >> 16u32 == 0x4e2e {
        assert(same_prefix(x, l[31].0, l[31].1));
    }
    if x >> 16u32 == 0x58c6 {
        assert(same_prefix(x, l[32].0, l[32].1));
    }
    if x >> 16u32 == 0x8ba2 {
        assert(same_prefix(x, l[33].0, l[33].1));
    }
    if x >> 16u32 == 0xac68 {
        assert(same_prefix(x, l[34].0, l[34].1));
    }
    if x >> 16u32 == 0xb24f {
        assert(same_prefix(x, l[35].0, l[35].1));
    }
    if x >> 13u32 == 0x344e2 {
        assert(same_prefix(x, l[36].0, l[36].1));
    }
    if x >> 16u32 == 0x6c3d {
        assert(same_prefix(x, l[37].0, l[37].1));
    }
    if x >> 16u32 == 0x951c {
        assert(same_prefix(x, l[38].0, l[38].1));
    }
    if x >> 16u32 == 0xcf94 {
        assert(same_prefix(x, l[39].0, l[39].1));
    }
    if x >> 10u32 == 0x300a9d {
        assert(same_prefix(x, l[40].0, l[40].1));
    }
    if x >> 8u32 == 0xc6609b {
        assert(same_prefix(x, l[41].0, l[41].1));
    }
    if x >> 13u32 == 0x68c69 {
        assert(same_prefix(x, l[42].0, l[42].1));
    }
    if in_networks(x, l) {
        let i = choose|i: int| 0 <= i < l.len() && same_prefix(x, #[trigger] l[i].0, l[i].1);
        assert(l.len() == 43);
        assert(i == 0 || i == 1 || i == 2 || i == 3 || i == 4 || i == 5 || i == 6 || i == 7 || i == 8 || i == 9 || i == 10 || i == 11 || i == 12 || i == 13 || i == 14 || i == 15 || i == 16 || i == 17 || i == 18 || i == 19 || i == 20 || i == 21 || i == 22 || i == 23 || i == 24 || i == 25 || i == 26 || i == 27 || i == 28 || i == 29 || i == 30 || i == 31 || i == 32 || i == 33 || i == 34 || i == 35 || i == 36 || i == 37 || i == 38 || i == 39 || i == 40 || i == 41 || i == 42);
    }
}

/// Which IPv4 addresses are neutral, by their four numbers.
pub proof fn law_neutral_v4(s: Seq<char>, a: u8, b: u8, c: u8, d: u8)
    requires
        v4_text(s) == Some(of_octets(seq![a, b, c, d])),
    ensures
        neutral_ip(s) <==> (a == 0 || a == 10 || a == 127 || a >= 224 || (a == 100 && 64 <= b && b <= 127) || (a
            == 169 && b == 254) || (a == 172 && 16 <= b && b <= 31) || (a == 192 && b == 168) || (a
            == 192 && b == 0 && c == 0) || (a == 198 && (b == 18 || b == 19))),
{
    lemma_neutral(of_octets(seq![a, b, c, d]), a, b, c, d);
}

/// Which IPv4 addresses the packet monitor passes over, by their four numbers.
pub proof fn law_private_v4(s: Seq<char>, a: u8, b: u8, c: u8, d: u8)
    requires
        v4_text(s) == Some(of_octets(seq![a, b, c, d])),
    ensures
        private_ip(s) <==> (a == 0 || a == 10 || a == 127 || a >= 224 || (a == 100 && 64 <= b && b <= 127) || (a
            == 169 && b == 254) || (a == 172 && 16 <= b && b <= 31) || (a == 192 && b == 168)),
{
    lemma_private(of_octets(seq![a, b, c, d]), a, b, c, d);
    law_colon_tells_protocol(s);
}

/// Which IPv4 addresses belong to VPN, proxy and hosting providers, by their four numbers.
pub proof fn law_vpn_v4(s: Seq<char>, a: u8, b: u8, c: u8, d: u8)
    requires
        v4_text(s) == Some(of_octets(seq![a, b, c, d])),
    ensures
        vpn_ip(s) <==> (a == 4 || a == 16 || a == 20 || (a == 8 && b == 8 && c == 8 && d == 8) || (a == 8 && b
            == 8 && c == 4 && d == 4) || (a == 13 && b == 248) || (a == 15 && b == 197) || (a == 40
            && 64 <= b && b <= 127) || (a == 51 && b == 68) || (a == 52 && b == 94) || (a == 54 && (
        b == 36 || b == 37)) || (a == 78 && b == 46) || (a == 88 && b == 198) || (a == 104 && 16
            <= b && b <= 31) || (a == 104 && b == 129) || (a == 104 && b == 156 && 64 <= c && c
            <= 95) || (a == 108 && b == 61) || (a == 138 && b == 197) || (a == 139 && b == 162) || (
        a == 149 && b == 28) || (a == 159 && b == 89) || (a == 165 && b == 227) || (a == 167 && b
            == 99) || (a == 172 && b == 104) || (a == 178 && b == 79) || (a == 185 && b == 93 && c
            == 2) || (a == 185 && b == 232 && 24 <= c && c <= 27) || (a == 192 && b == 42 && 116
            <= c && c <= 119) || (a == 198 && b == 96 && c == 155) || (a == 207 && b == 148) || (a
            == 209 && b == 141 && 32 <= c && c <= 63) || (a == 209 && b == 222 && c == 16)),
{
    lemma_vpn(of_octets(seq![a, b, c, d]), a, b, c, d);
    law_colon_tells_protocol(s);
}

/// Which IPv6 addresses are neutral and which the packet monitor passes over: ::1, those
/// from fc00:: to before fe00::, and those from fe80:: on; the packet monitor minds those
/// from fec0:: to before ff00::. Every other IPv6 address counts as one of a provider.
pub proof fn law_special_v6(s: Seq<char>, a: u128)
    requires
        addr_text(s) == Some(IpAddrUniversal::V6(a)),
    ensures
        neutral_ip(s) <==> (a == 1 || (0xfc00_0000_0000_0000_0000_0000_0000_0000 <= a
            && a < 0xfe00_0000_0000_0000_0000_0000_0000_0000) || a
            >= 0xfe80_0000_0000_0000_0000_0000_0000_0000),
        private_ip(s) <==> (a == 1 || (0xfc00_0000_0000_0000_0000_0000_0000_0000 <= a
            && a < 0xfe00_0000_0000_0000_0000_0000_0000_0000) || (
        0xfe80_0000_0000_0000_0000_0000_0000_0000 <= a && a
            < 0xfec0_0000_0000_0000_0000_0000_0000_0000) || a
            >= 0xff00_0000_0000_0000_0000_0000_0000_0000),
        vpn_ip(s) <==> !neutral_ip(s),
{
    law_colon_tells_protocol(s);
    let first = (a >> 112) as u16;
    assert(first as u128 == a / 0x1_0000_0000_0000_0000_0000_0000_0000) by (bit_vector)
        requires
            first == (a >> 112) as u16,
    ;
}

/// Texts that are no address: for the flood guard they are neutral; the packet monitor
/// passes over those with a colon.
pub proof fn law_unreadable_addresses(s: Seq<char>)
    requires
        addr_text(s) is None,
    ensures
        neutral_ip(s),
        !vpn_ip(s),
        private_ip(s) <==> s.contains(':'),
{
}

/// An address lies in a network exactly if it shares the leading bits of the network: the
/// two agree in all but their last bits. No bits are every address, and 32 or more are the
/// address alone.
pub proof fn law_subnet_is_a_block(ip: u32, prefix: Seq<char>, bits: u32)
    requires
        loose_v4(prefix) is Some,
    ensures
        bits == 0 ==> in_subnet(ip, prefix, bits),
        bits >= 32 ==> (in_subnet(ip, prefix, bits) <==> ip == loose_v4(prefix)->0),
        0 < bits < 32 ==> (in_subnet(ip, prefix, bits) <==> ip as nat / pow2((32 - bits) as nat)
            == loose_v4(prefix)->0 as nat / pow2((32 - bits) as nat)),
{
    if 0 < bits < 32 {
        lemma_u32_shr_is_div(ip, (32 - bits) as u32);
        lemma_u32_shr_is_div(loose_v4(prefix)->0, (32 - bits) as u32);
    }
}

} // verus!
