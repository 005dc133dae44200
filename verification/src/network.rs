//! The hosts of a network given in CIDR form.
use vstd::arithmetic::power2::{lemma2_to64, lemma_pow2_adds, lemma_pow2_pos, pow2};
use vstd::prelude::*;

use crate::addr::{law_octets_are_digits, of_octets, IpAddrUniversal};
use crate::text::{
    all_dec, is_dec_digit, join_on, lemma_split_append, lemma_split_join, lemma_split_single,
    numeral_value, split_on,
};

verus! {

/// Why a network could not be read.
#[derive(Debug, Clone, Copy, PartialEq, Eq)]
pub enum CidrError {
    /// The text is a network of neither protocol.
    Malformed,
}

impl CidrError {
    /// The message shown to the operator.
    pub fn message(&self) -> (r: &'static str)
        ensures
            r@ == "Неверный CIDR формат"@,
    {
        "Неверный CIDR формат"
    }
}

/// The number that up to `places` decimal digits denote, if it does not pass `max`.
pub open spec fn short_number(p: Seq<char>, places: nat, max: nat) -> Option<nat> {
    if 1 <= p.len() <= places && all_dec(p) && numeral_value(p, 10) <= max {
        Some(numeral_value(p, 10))
    } else {
        None
    }
}

/// The address and the prefix length of an IPv4 network: four numbers up to 255 with
/// dots between them, a slash, and a number up to 32.
pub open spec fn cidr_v4(s: Seq<char>) -> Option<(u32, u8)> {
    let halves = split_on(s, '/');
    let p = split_on(halves[0], '.');
    if halves.len() == 2 && p.len() == 4 && (forall|i: int|
        0 <= i < 4 ==> short_number(#[trigger] p[i], 3, 255) is Some) && short_number(
        halves[1],
        2,
        32,
    ) is Some {
        Some(
            (
                of_octets(
                    seq![
                        short_number(p[0], 3, 255)->0 as u8,
                        short_number(p[1], 3, 255)->0 as u8,
                        short_number(p[2], 3, 255)->0 as u8,
                        short_number(p[3], 3, 255)->0 as u8,
                    ],
                ),
                short_number(halves[1], 2, 32)->0 as u8,
            ),
        )
    } else {
        None
    }
}

/// The address and the prefix length that `ipnet` reads from the text of an IPv6
/// network.
pub uninterp spec fn cidr_v6(s: Seq<char>) -> Option<(u128, u8)>;

/// The first address of the block of `2^bits` addresses that holds `a`.
pub open spec fn block_start(a: int, bits: nat) -> int {
    a / (pow2(bits) as int) * (pow2(bits) as int)
}

/// The hosts of an IPv4 network: all of its addresses, without the first and the last
/// one unless there are at most two.
pub open spec fn v4_hosts(a: u32, prefix: u8) -> Seq<u32> {
    let bits = (32 - prefix) as nat;
    let start = block_start(a as int, bits);
    if prefix < 31 {
        Seq::new((pow2(bits) - 2) as nat, |i: int| (start + 1 + i) as u32)
    } else {
        Seq::new(pow2(bits), |i: int| (start + i) as u32)
    }
}

/// The first `limit` addresses of an IPv6 network, or all of them if there are fewer.
pub open spec fn v6_hosts(a: u128, prefix: u8, limit: nat) -> Seq<u128> {
    let bits = (128 - prefix) as nat;
    let start = block_start(a as int, bits);
    let count = if limit < pow2(bits) {
        limit
    } else {
        pow2(bits)
    };
    Seq::new(count, |i: int| (start + i) as u128)
}

/// The addresses that a scan visits of a network that was read as one of IPv4, or else as
/// one of IPv6.
pub open spec fn network_hosts(
    v4: Option<(u32, u8)>,
    v6: Option<(u128, u8)>,
    ipv6_max_hosts: nat,
) -> Option<Seq<IpAddrUniversal>> {
    match v4 {
        Some((a, prefix)) => Some(
            v4_hosts(a, prefix).map_values(|x: u32| IpAddrUniversal::V4(x)),
        ),
        None => match v6 {
            Some((a, prefix)) => Some(
                v6_hosts(a, prefix, ipv6_max_hosts).map_values(|x: u128| IpAddrUniversal::V6(x)),
            ),
            None => None,
        },
    }
}

/// The addresses that a scan of the network visits.
pub open spec fn cidr_hosts(s: Seq<char>, ipv6_max_hosts: nat) -> Option<Seq<IpAddrUniversal>> {
    network_hosts(cidr_v4(s), cidr_v6(s), ipv6_max_hosts)
}

/// `ipnet::Ipv4Net::from_str` reads four numbers of one to three digits, a slash and a
/// prefix length of one or two digits, and nothing else.
#[verifier::external_body]
fn ipnet_parse_v4(s: &str) -> (r: Option<(u32, u8)>)
    ensures
        r == cidr_v4(s@),
{
    s.parse::<ipnet::Ipv4Net>().ok().map(|n| (u32::from(n.addr()), n.prefix_len()))
}

/// `ipnet::Ipv6Net::from_str` reads an address, a slash and a prefix length up to 128.
/// What the address part may look like is left to the crate.
#[verifier::external_body]
fn ipnet_parse_v6(s: &str) -> (r: Option<(u128, u8)>)
    ensures
        r == cidr_v6(s@),
        r matches Some(net) ==> net.1 <= 128,
{
    s.parse::<ipnet::Ipv6Net>().ok().map(|n| (u128::from(n.addr()), n.prefix_len()))
}

/// `ipnet::Ipv4Net::hosts` walks the addresses of the network in ascending order,
/// without the network and the broadcast address where the prefix is shorter than 31.
#[verifier::external_body]
fn ipnet_hosts_v4(addr: u32, prefix: u8) -> (r: Vec<u32>)
    requires
        prefix <= 32,
    ensures
        r@ == v4_hosts(addr, prefix),
{
    ipnet::Ipv4Net::new(addr.into(), prefix).unwrap().hosts().map(u32::from).collect()
}

/// `ipnet::Ipv6Net::hosts` walks all addresses of the network in ascending order; no
/// more than `limit` of them are taken.
#[verifier::external_body]
fn ipnet_hosts_v6(addr: u128, prefix: u8, limit: usize) -> (r: Vec<u128>)
    requires
        prefix <= 128,
    ensures
        r@ == v6_hosts(addr, prefix, limit as nat),
{
    ipnet::Ipv6Net::new(addr.into(), prefix).unwrap().hosts().take(limit).map(u128::from).collect()
}

/// The addresses that a scan of the network visits: the hosts of an IPv4 network, or
/// the first `ipv6_max_hosts` addresses of an IPv6 network, which is too large to walk.
pub fn parse_cidr(cidr: &str, ipv6_max_hosts: usize) -> (r: Result<Vec<IpAddrUniversal>, CidrError>)
    ensures
        match r {
            Ok(ips) => cidr_hosts(cidr@, ipv6_max_hosts as nat) == Some(ips@),
            Err(e) => e == CidrError::Malformed && cidr_hosts(cidr@, ipv6_max_hosts as nat) is None,
        },
{
    hosts_of(ipnet_parse_v4(cidr), ipnet_parse_v6(cidr), ipv6_max_hosts)
}

/// The addresses that a scan visits of a network that was read as one of IPv4, or else as
/// one of IPv6.
pub fn hosts_of(v4: Option<(u32, u8)>, v6: Option<(u128, u8)>, ipv6_max_hosts: usize) -> (r: Result<
    Vec<IpAddrUniversal>,
    CidrError,
>)
    requires
        v4 matches Some(net) ==> net.1 <= 32,
        v6 matches Some(net) ==> net.1 <= 128,
    ensures
        match r {
            Ok(ips) => network_hosts(v4, v6, ipv6_max_hosts as nat) == Some(ips@),
            Err(e) => e == CidrError::Malformed && network_hosts(v4, v6, ipv6_max_hosts as nat)
                is None,
        },
{
    if let Some((addr, prefix)) = v4 {
        let hosts = ipnet_hosts_v4(addr, prefix);
        let mut ips: Vec<IpAddrUniversal> = Vec::new();
        let ghost all = hosts@.map_values(|x: u32| IpAddrUniversal::V4(x));
        let mut i: usize = 0;
        while i < hosts.len()
            invariant
                i <= hosts.len(),
                all == hosts@.map_values(|x: u32| IpAddrUniversal::V4(x)),
                ips@ == all.take(i as int),
            decreases hosts.len() - i,
        {
            ips.push(IpAddrUniversal::V4(hosts[i]));
            i += 1;
            assert(ips@ =~= all.take(i as int));
        }
        assert(ips@ =~= all);
        return Ok(ips);
    }
    if let Some((addr, prefix)) = v6 {
        let hosts = ipnet_hosts_v6(addr, prefix, ipv6_max_hosts);
        let mut ips: Vec<IpAddrUniversal> = Vec::new();
        let ghost all = hosts@.map_values(|x: u128| IpAddrUniversal::V6(x));
        let mut i: usize = 0;
        while i < hosts.len()
            invariant
                i <= hosts.len(),
                all == hosts@.map_values(|x: u128| IpAddrUniversal::V6(x)),
                ips@ == all.take(i as int),
            decreases hosts.len() - i,
        {
            ips.push(IpAddrUniversal::V6(hosts[i]));
            i += 1;
            assert(ips@ =~= all.take(i as int));
        }
        assert(ips@ =~= all);
        return Ok(ips);
    }
    Err(CidrError::Malformed)
}

/// A block of addresses holds the address that it was made from, and lies within all
/// addresses.
proof fn lemma_block(a: int, bits: nat, total: nat)
    requires
        0 <= a < pow2(total),
        bits <= total,
    ensures
        0 <= block_start(a, bits) <= a,
        a < block_start(a, bits) + pow2(bits),
        block_start(a, bits) + pow2(bits) <= pow2(total),
{
    let p = pow2(bits) as int;
    let q = pow2((total - bits) as nat) as int;
    lemma_pow2_pos(bits);
    lemma_pow2_adds((total - bits) as nat, bits);
    let k = a / p;
    assert(a == k * p + a % p && 0 <= a % p < p) by (nonlinear_arith)
        requires
            p > 0,
            k == a / p,
    ;
    assert(0 <= k < q) by (nonlinear_arith)
        requires
            p > 0,
            0 <= a < q * p,
            a == k * p + a % p,
            0 <= a % p < p,
    ;
    assert(0 <= k * p && (k + 1) * p <= q * p && (k + 1) * p == k * p + p) by (nonlinear_arith)
        requires
            p > 0,
            0 <= k < q,
    ;
}

/// The hosts of an IPv4 network come in ascending order and lie in the same block as the
/// address that the network was given by.
pub proof fn law_v4_hosts_are_in_network(a: u32, prefix: u8, i: int)
    requires
        prefix <= 32,
        0 <= i < v4_hosts(a, prefix).len(),
    ensures
        block_start(v4_hosts(a, prefix)[i] as int, (32 - prefix) as nat) == block_start(
            a as int,
            (32 - prefix) as nat,
        ),
        i > 0 ==> v4_hosts(a, prefix)[i - 1] + 1 == v4_hosts(a, prefix)[i],
{
    let bits = (32 - prefix) as nat;
    lemma2_to64();
    lemma_pow2_pos(bits);
    lemma_block(a as int, bits, 32);
    let start = block_start(a as int, bits);
    let p = pow2(bits) as int;
    let h = v4_hosts(a, prefix)[i] as int;
    assert(start <= h < start + p);
    lemma_same_block(a as int, h, p);
}

/// The hosts of an IPv6 network come in ascending order from its first address on and lie
/// in the same block as the address that the network was given by; there are no more of
/// them than wanted.
pub proof fn law_v6_hosts_are_in_network(a: u128, prefix: u8, limit: nat, i: int)
    requires
        prefix <= 128,
        0 <= i < v6_hosts(a, prefix, limit).len(),
    ensures
        v6_hosts(a, prefix, limit).len() <= limit,
        v6_hosts(a, prefix, limit)[i] == block_start(a as int, (128 - prefix) as nat) + i,
        block_start(v6_hosts(a, prefix, limit)[i] as int, (128 - prefix) as nat) == block_start(
            a as int,
            (128 - prefix) as nat,
        ),
{
    let bits = (128 - prefix) as nat;
    lemma2_to64();
    lemma_pow2_adds(64, 64);
    lemma_pow2_pos(bits);
    assert(pow2(128) == 0x1_0000_0000_0000_0000 * 0x1_0000_0000_0000_0000);
    lemma_block(a as int, bits, 128);
    let start = block_start(a as int, bits);
    let p = pow2(bits) as int;
    let h = v6_hosts(a, prefix, limit)[i] as int;
    assert(h == start + i);
    lemma_same_block(a as int, h, p);
}

proof fn lemma_same_block(a: int, h: int, p: int)
    requires
        p > 0,
        a / p * p <= h < a / p * p + p,
    ensures
        h / p * p == a / p * p,
{
    let k = a / p;
    assert(h / p == k) by (nonlinear_arith)
        requires
            p > 0,
            k * p <= h < k * p + p,
    ;
}

/// An IPv4 network leaves out no host: with a prefix below 31 every address that shares the
/// prefix is a host but the first and the last, and with 31 or 32 every one is. There are as
/// many hosts as that, and each is listed where its number puts it.
pub proof fn law_v4_hosts_are_complete(a: u32, prefix: u8, h: u32)
    requires
        prefix <= 32,
        h as nat / pow2((32 - prefix) as nat) == a as nat / pow2((32 - prefix) as nat),
    ensures
        ({
            let size = pow2((32 - prefix) as nat);
            let place = h as nat % size;
            let hosts = v4_hosts(a, prefix);
            &&& prefix < 31 ==> hosts.len() == size - 2
            &&& prefix >= 31 ==> hosts.len() == size
            &&& prefix < 31 && 0 < place < size - 1 ==> hosts[place - 1] == h
            &&& prefix < 31 && (place == 0 || place == size - 1) ==> !hosts.contains(h)
            &&& prefix >= 31 ==> place < size && hosts[place as int] == h
        }),
{
    let bits = (32 - prefix) as nat;
    lemma2_to64();
    lemma_pow2_pos(bits);
    lemma_block(a as int, bits, 32);
    let p = pow2(bits) as int;
    let start = block_start(a as int, bits);
    let hosts = v4_hosts(a, prefix);
    vstd::arithmetic::div_mod::lemma_fundamental_div_mod(h as int, p);
    let q = h as int / p;
    assert(q * p == p * q) by (nonlinear_arith);
    assert(start + h as int % p == h);
    assert(0 <= h as int % p < p) by (nonlinear_arith)
        requires
            p > 0,
    ;
    if prefix < 31 {
        vstd::arithmetic::power2::lemma_pow2_strictly_increases(1, bits);
        if hosts.contains(h) {
            let i = hosts.index_of(h);
            assert(hosts[i] == start + 1 + i);
        }
    }
}

/// An IPv6 network lists its first addresses, as many as the limit allows, or all of them
/// if they are no more.
pub proof fn law_v6_hosts_are_the_first(a: u128, prefix: u8, limit: nat)
    requires
        prefix <= 128,
    ensures
        ({
            let size = pow2((128 - prefix) as nat);
            let hosts = v6_hosts(a, prefix, limit);
            &&& limit <= size ==> hosts.len() == limit
            &&& limit >= size ==> hosts.len() == size
            &&& hosts.len() > 0 ==> hosts[0] as nat % size == 0 && hosts[0] as nat / size
                == a as nat / size
        }),
{
    let bits = (128 - prefix) as nat;
    lemma2_to64();
    lemma_pow2_adds(64, 64);
    lemma_pow2_pos(bits);
    assert(pow2(128) == 0x1_0000_0000_0000_0000 * 0x1_0000_0000_0000_0000);
    lemma_block(a as int, bits, 128);
    let p = pow2(bits) as int;
    let q = a as int / p;
    if v6_hosts(a, prefix, limit).len() > 0 {
        assert(v6_hosts(a, prefix, limit)[0] == q * p);
        vstd::arithmetic::div_mod::lemma_mod_multiples_basic(q, p);
        vstd::arithmetic::div_mod::lemma_div_by_multiple(q, p);
    }
}

/// A network in text: four numbers of up to three digits and at most 255 with dots between
/// them, a slash, and a prefix of up to two digits and at most 32. It is read as its address
/// and its prefix.
pub proof fn law_networks_in_text(p: Seq<Seq<char>>, prefix: Seq<char>)
    requires
        p.len() == 4,
        forall|i: int|
            0 <= i < 4 ==> 1 <= (#[trigger] p[i]).len() <= 3 && all_dec(p[i]) && numeral_value(
                p[i],
                10,
            ) <= 255,
        1 <= prefix.len() <= 2,
        all_dec(prefix),
        numeral_value(prefix, 10) <= 32,
    ensures
        ({
            let network = cidr_v4(join_on(p, '.') + seq!['/'] + prefix);
            &&& network is Some
            &&& network matches Some((a, bits)) ==> bits == numeral_value(prefix, 10) && a
                == numeral_value(p[0], 10) * 16_777_216 + numeral_value(p[1], 10) * 65_536
                + numeral_value(p[2], 10) * 256 + numeral_value(p[3], 10)
        }),
{
    let dots = join_on(p, '.');
    let s = dots + seq!['/'] + prefix;
    assert(s =~= dots.push('/') + prefix);
    assert(!prefix.contains('/')) by {
        assert forall|i: int| 0 <= i < prefix.len() implies prefix[i] != '/' by {
            assert(is_dec_digit(prefix[i]));
        }
    }
    lemma_digits_plain(p, 4);
    lemma_split_append(dots, '/', prefix);
    lemma_split_single(dots, '/');
    let halves = split_on(s, '/');
    assert(halves =~= seq![dots, prefix]);
    lemma_split_join(p, '.');
    let b = seq![
        short_number(p[0], 3, 255)->0 as u8,
        short_number(p[1], 3, 255)->0 as u8,
        short_number(p[2], 3, 255)->0 as u8,
        short_number(p[3], 3, 255)->0 as u8,
    ];
    assert(short_number(p[0], 3, 255) is Some && short_number(p[1], 3, 255) is Some && short_number(
        p[2],
        3,
        255,
    ) is Some && short_number(p[3], 3, 255) is Some);
    law_octets_are_digits(b);
}

proof fn lemma_digits_plain(p: Seq<Seq<char>>, n: int)
    requires
        0 <= n <= p.len(),
        forall|i: int| 0 <= i < p.len() ==> all_dec(#[trigger] p[i]),
    ensures
        !join_on(p.take(n), '.').contains('/'),
        forall|i: int| 0 <= i < p.len() ==> !(#[trigger] p[i]).contains('.'),
        n == p.len() ==> p.take(n) == p,
    decreases n,
{
    assert forall|i: int| 0 <= i < p.len() implies !(#[trigger] p[i]).contains('.') by {
        let w = p[i];
        assert forall|k: int| 0 <= k < w.len() implies w[k] != '.' by {
            assert(is_dec_digit(w[k]));
        }
    }
    assert(n == p.len() ==> p.take(n) =~= p);
    if n > 0 {
        lemma_digits_plain(p, n - 1);
        let t = p.take(n);
        let w = p[n - 1];
        assert(t.last() == w);
        assert forall|k: int| 0 <= k < w.len() implies w[k] != '/' by {
            assert(is_dec_digit(w[k]));
        }
        assert(t.drop_last() =~= p.take(n - 1));
        let before = join_on(p.take(n - 1), '.');
        let all = join_on(t, '.');
        assert(all == (if n == 1 {
            w
        } else {
            before.push('.') + w
        }));
        assert forall|k: int| 0 <= k < all.len() implies all[k] != '/' by {
            if n > 1 {
                if k < before.len() {
                    assert(before.contains(before[k]));
                } else if k > before.len() {
                    assert(all[k] == w[k - before.len() - 1]);
                }
            }
        }
    }
}

/// A network is one of IPv4 if its text is, whatever else; and else one of IPv6 if its text
/// is. Only the latter has a limit.
pub proof fn law_which_network(
    v4: Option<(u32, u8)>,
    v6: Option<(u128, u8)>,
    limit: nat,
    other: nat,
    i: int,
)
    ensures
        v4 is None && v6 is None ==> network_hosts(v4, v6, limit) is None,
        v4 is Some || v6 is Some ==> network_hosts(v4, v6, limit) is Some,
        v4 is Some ==> network_hosts(v4, v6, limit) == network_hosts(v4, v6, other),
        v4 matches Some((a, prefix)) ==> network_hosts(v4, v6, limit)->0.len() == v4_hosts(
            a,
            prefix,
        ).len() && (0 <= i < v4_hosts(a, prefix).len() ==> network_hosts(v4, v6, limit)->0[i]
            == IpAddrUniversal::V4(v4_hosts(a, prefix)[i])),
        v4 is None ==> (v6 matches Some((a, prefix)) ==> network_hosts(v4, v6, limit)->0.len()
            == v6_hosts(a, prefix, limit).len() && (0 <= i < v6_hosts(a, prefix, limit).len()
            ==> network_hosts(v4, v6, limit)->0[i] == IpAddrUniversal::V6(
            v6_hosts(a, prefix, limit)[i],
        ))),
{
}

} // verus!
