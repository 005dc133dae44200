//! Addresses of both protocols, as numbers and as text.
use vstd::prelude::*;

use crate::text::{
    all_dec, all_hex, chars_of, contains_char, dec, decimal, digit_of, digit_value, hex,
    hexadecimal, is_dec_digit, is_hex_digit, join_on, law_decimal_digits, law_pieces_join_back,
    lemma_dec, lemma_hex, lemma_split_append,
    lemma_split_join, lemma_split_nonempty, lemma_split_single, numeral_value, parse_unsigned,
    same_text, split_on, split_text, text_of, unsigned_text, views,
};

verus! {

/// An address of either protocol, as an integer in network order.
#[derive(Debug, Clone, Copy, PartialEq, Eq, Hash, Structural)]
pub enum IpAddrUniversal {
    V4(u32),
    V6(u128),
}

/// An address of either protocol, as its bytes in network order.
#[derive(Debug, Clone, Copy, PartialEq, Eq)]
pub enum AddrOctets {
    V4([u8; 4]),
    V6([u8; 16]),
}

// ---------------------------------------------------------------------------
// Parts of an address
// ---------------------------------------------------------------------------

/// The four bytes of an IPv4 address, the most significant first.
pub open spec fn octets(a: u32) -> Seq<u8> {
    seq![(a >> 24) as u8, (a >> 16) as u8, (a >> 8) as u8, a as u8]
}

/// The IPv4 address with the given four bytes.
pub open spec fn of_octets(b: Seq<u8>) -> u32 {
    ((b[0] as u32) << 24) | ((b[1] as u32) << 16) | ((b[2] as u32) << 8) | (b[3] as u32)
}

/// The eight groups of an IPv6 address, the most significant first.
pub open spec fn segments(a: u128) -> Seq<u16> {
    seq![
        (a >> 112) as u16,
        (a >> 96) as u16,
        (a >> 80) as u16,
        (a >> 64) as u16,
        (a >> 48) as u16,
        (a >> 32) as u16,
        (a >> 16) as u16,
        a as u16,
    ]
}

/// The IPv6 address with the given eight groups.
pub open spec fn of_segments(g: Seq<u16>) -> u128 {
    ((g[0] as u128) << 112) | ((g[1] as u128) << 96) | ((g[2] as u128) << 80) | ((g[3] as u128)
        << 64) | ((g[4] as u128) << 48) | ((g[5] as u128) << 32) | ((g[6] as u128) << 16) | (
    g[7] as u128)
}

/// The bytes of an address and the address say the same.
pub proof fn lemma_octets(a: u32)
    ensures
        of_octets(octets(a)) == a,
{
    assert(((((a >> 24) as u8) as u32) << 24) | ((((a >> 16) as u8) as u32) << 16) | ((((a
        >> 8) as u8) as u32) << 8) | ((a as u8) as u32) == a) by (bit_vector);
}

/// The four bytes of an IPv4 address are its digits to the base 256, the most
/// significant first.
pub proof fn law_octets_are_digits(b: Seq<u8>)
    requires
        b.len() == 4,
    ensures
        octets(of_octets(b)) == b,
        of_octets(b) == b[0] * 16_777_216 + b[1] * 65_536 + b[2] * 256 + b[3],
{
    let (b0, b1, b2, b3) = (b[0], b[1], b[2], b[3]);
    let x = of_octets(b);
    assert((x >> 24) as u8 == b0 && (x >> 16) as u8 == b1 && (x >> 8) as u8 == b2 && x as u8 == b3
        && x == b0 * 16_777_216 + b1 * 65_536 + b2 * 256 + b3) by (bit_vector)
        requires
            x == ((b0 as u32) << 24) | ((b1 as u32) << 16) | ((b2 as u32) << 8) | (b3 as u32),
    ;
    assert(octets(x) =~= b);
}

/// The groups of an address and the address say the same.
pub proof fn lemma_segments(a: u128)
    ensures
        of_segments(segments(a)) == a,
{
    assert(((((a >> 112) as u16) as u128) << 112) | ((((a >> 96) as u16) as u128) << 96) | ((((a
        >> 80) as u16) as u128) << 80) | ((((a >> 64) as u16) as u128) << 64) | ((((a
        >> 48) as u16) as u128) << 48) | ((((a >> 32) as u16) as u128) << 32) | ((((a
        >> 16) as u16) as u128) << 16) | ((a as u16) as u128) == a) by (bit_vector);
}

fn join_octets(a: u8, b: u8, c: u8, d: u8) -> (r: u32)
    ensures
        r == of_octets(seq![a, b, c, d]),
{
    ((a as u32) << 24) | ((b as u32) << 16) | ((c as u32) << 8) | (d as u32)
}

fn join_segments(g: &Vec<u16>) -> (r: u128)
    requires
        g.len() == 8,
    ensures
        r == of_segments(g@),
{
    ((g[0] as u128) << 112) | ((g[1] as u128) << 96) | ((g[2] as u128) << 80) | ((g[3] as u128)
        << 64) | ((g[4] as u128) << 48) | ((g[5] as u128) << 32) | ((g[6] as u128) << 16) | (
    g[7] as u128)
}

fn segment_list(a: u128) -> (r: Vec<u16>)
    ensures
        r@ == segments(a),
{
    let mut v: Vec<u16> = Vec::new();
    v.push((a >> 112) as u16);
    v.push((a >> 96) as u16);
    v.push((a >> 80) as u16);
    v.push((a >> 64) as u16);
    v.push((a >> 48) as u16);
    v.push((a >> 32) as u16);
    v.push((a >> 16) as u16);
    v.push(a as u16);
    assert(v@ =~= segments(a));
    v
}

// ---------------------------------------------------------------------------
// Text of an IPv4 address
// ---------------------------------------------------------------------------

/// One part of a dotted address: one to three decimal digits without a leading zero,
/// not above 255.
pub open spec fn v4_field(p: Seq<char>) -> Option<u8> {
    if 1 <= p.len() <= 3 && all_dec(p) && (p.len() > 1 ==> p[0] != '0') && numeral_value(p, 10)
        <= 255 {
        Some(numeral_value(p, 10) as u8)
    } else {
        None
    }
}

/// The IPv4 address that a text denotes: four parts with a dot between them.
pub open spec fn v4_text(s: Seq<char>) -> Option<u32> {
    let p = split_on(s, '.');
    if p.len() == 4 && v4_field(p[0]) is Some && v4_field(p[1]) is Some && v4_field(p[2]) is Some
        && v4_field(p[3]) is Some {
        Some(
            of_octets(
                seq![
                    v4_field(p[0])->0,
                    v4_field(p[1])->0,
                    v4_field(p[2])->0,
                    v4_field(p[3])->0,
                ],
            ),
        )
    } else {
        None
    }
}

/// The dotted text of an IPv4 address.
pub open spec fn v4_display(a: u32) -> Seq<char> {
    join_on(
        seq![
            dec(octets(a)[0] as nat),
            dec(octets(a)[1] as nat),
            dec(octets(a)[2] as nat),
            dec(octets(a)[3] as nat),
        ],
        '.',
    )
}

fn parse_v4_field(p: &str) -> (r: Option<u8>)
    ensures
        r == v4_field(p@),
{
    let cs = chars_of(p);
    if cs.len() == 0 || cs.len() > 3 {
        return None;
    }
    if cs.len() > 1 && cs[0] == '0' {
        return None;
    }
    if cs[0] == '+' {
        assert(!all_dec(p@));
        return None;
    }
    match parse_unsigned(p, 255) {
        Some(n) => Some(n as u8),
        None => None,
    }
}

/// Reads a dotted IPv4 address.
pub fn parse_v4(s: &str) -> (r: Option<u32>)
    ensures
        r == v4_text(s@),
{
    let parts = split_text(s, '.');
    if parts.len() != 4 {
        return None;
    }
    assert(forall|i: int| 0 <= i < 4 ==> views(parts@)[i] == (#[trigger] parts@[i])@);
    match (
        parse_v4_field(parts[0].as_str()),
        parse_v4_field(parts[1].as_str()),
        parse_v4_field(parts[2].as_str()),
        parse_v4_field(parts[3].as_str()),
    ) {
        (Some(a), Some(b), Some(c), Some(d)) => Some(join_octets(a, b, c, d)),
        _ => None,
    }
}

/// The dotted text of an IPv4 address.
pub fn v4_to_text(a: u32) -> (r: String)
    ensures
        r@ == v4_display(a),
{
    let mut s = decimal(((a >> 24) as u8) as u64);
    s.push('.');
    s.append(decimal(((a >> 16) as u8) as u64).as_str());
    s.push('.');
    s.append(decimal(((a >> 8) as u8) as u64).as_str());
    s.push('.');
    s.append(decimal((a as u8) as u64).as_str());
    proof {
        let o = octets(a);
        let p = seq![dec(o[0] as nat), dec(o[1] as nat), dec(o[2] as nat), dec(o[3] as nat)];
        reveal_with_fuel(join_on, 4);
        assert(p.drop_last() =~= seq![p[0], p[1], p[2]]);
        assert(seq![p[0], p[1], p[2]].drop_last() =~= seq![p[0], p[1]]);
        assert(seq![p[0], p[1]].drop_last() =~= seq![p[0]]);
        assert(s@ =~= p[0].push('.') + p[1].push('.') + p[2].push('.') + p[3]);
        assert(join_on(p, '.') =~= p[0].push('.') + p[1].push('.') + p[2].push('.') + p[3]);
    }
    s
}

proof fn lemma_v4_field(b: u8)
    ensures
        v4_field(dec(b as nat)) == Some(b),
        !dec(b as nat).contains('.'),
        !dec(b as nat).contains(':'),
{
    lemma_dec(b as nat);
    let d = dec(b as nat);
    assert forall|i: int| 0 <= i < d.len() implies d[i] != '.' && d[i] != ':' by {
        assert(is_dec_digit(d[i]));
    }
}

/// Reading the text of an IPv4 address gives the address back.
pub proof fn lemma_v4_roundtrip(a: u32)
    ensures
        v4_text(v4_display(a)) == Some(a),
{
    let o = octets(a);
    let p = seq![dec(o[0] as nat), dec(o[1] as nat), dec(o[2] as nat), dec(o[3] as nat)];
    lemma_v4_field(o[0]);
    lemma_v4_field(o[1]);
    lemma_v4_field(o[2]);
    lemma_v4_field(o[3]);
    lemma_split_join(p, '.');
    lemma_octets(a);
    assert(seq![o[0], o[1], o[2], o[3]] =~= o);
}

// ---------------------------------------------------------------------------
// Text of an IPv6 address
// ---------------------------------------------------------------------------

/// One group of an IPv6 address: one to four hexadecimal digits.
pub open spec fn v6_field(p: Seq<char>) -> Option<u16> {
    if 1 <= p.len() <= 4 && all_hex(p) {
        Some(numeral_value(p, 16) as u16)
    } else {
        None
    }
}

/// The groups that the pieces denote, one group each.
pub open spec fn v6_fields(parts: Seq<Seq<char>>) -> Option<Seq<u16>>
    decreases parts.len(),
{
    if parts.len() == 0 {
        Some(Seq::<u16>::empty())
    } else {
        match (v6_fields(parts.drop_last()), v6_field(parts.last())) {
            (Some(lead), Some(g)) => Some(lead.push(g)),
            _ => None,
        }
    }
}

/// The two groups that an IPv4 address fills at the end of an IPv6 address.
pub open spec fn v4_groups(a: u32) -> Seq<u16> {
    seq![(a >> 16) as u16, a as u16]
}

/// The groups that the pieces denote, where the last piece may also be an IPv4 address,
/// which stands for two groups.
pub open spec fn v6_run(parts: Seq<Seq<char>>) -> Option<Seq<u16>> {
    if parts.len() == 0 {
        Some(Seq::<u16>::empty())
    } else {
        match v6_fields(parts.drop_last()) {
            None => None,
            Some(lead) => match v6_field(parts.last()) {
                Some(g) => Some(lead.push(g)),
                None => match v4_text(parts.last()) {
                    Some(a) => Some(lead + v4_groups(a)),
                    None => None,
                },
            },
        }
    }
}

/// The pieces of a text between its colons; an empty text has none.
pub open spec fn colon_parts(s: Seq<char>) -> Seq<Seq<char>> {
    if s.len() == 0 {
        Seq::<Seq<char>>::empty()
    } else {
        split_on(s, ':')
    }
}

/// Whether two colons stand side by side at `i`.
pub open spec fn double_colon_at(s: Seq<char>, i: int) -> bool {
    0 <= i && i + 1 < s.len() && s[i] == ':' && s[i + 1] == ':'
}

/// Whether `i` is the first place where two colons stand side by side.
pub open spec fn first_double_colon(s: Seq<char>, i: int) -> bool {
    double_colon_at(s, i) && forall|j: int| 0 <= j < i ==> !double_colon_at(s, j)
}

/// The IPv6 address that the groups before and after a double colon denote: the
/// colons stand for at least one group of zero.
pub open spec fn v6_compressed(head: Option<Seq<u16>>, tail: Option<Seq<u16>>) -> Option<u128> {
    match (head, tail) {
        (Some(h), Some(t)) => if h.len() + t.len() <= 7 {
            Some(of_segments(h + Seq::new((8 - h.len() - t.len()) as nat, |i: int| 0u16) + t))
        } else {
            None
        },
        _ => None,
    }
}

/// The IPv6 address that a text denotes: eight groups with a colon between them, or
/// fewer with one double colon in the place of the missing ones. The last two groups
/// may be written as an IPv4 address, except before a double colon.
pub open spec fn v6_text(s: Seq<char>) -> Option<u128> {
    if exists|i: int| first_double_colon(s, i) {
        let i = choose|i: int| first_double_colon(s, i);
        v6_compressed(v6_fields(colon_parts(s.take(i))), v6_run(colon_parts(s.skip(i + 2))))
    } else {
        match v6_run(colon_parts(s)) {
            Some(g) => if g.len() == 8 {
                Some(of_segments(g))
            } else {
                None
            },
            None => None,
        }
    }
}

proof fn lemma_first_double_colon_unique(s: Seq<char>, i: int, j: int)
    requires
        first_double_colon(s, i),
        first_double_colon(s, j),
    ensures
        i == j,
{
    if i < j {
        assert(!double_colon_at(s, i));
    }
    if j < i {
        assert(!double_colon_at(s, j));
    }
}

proof fn lemma_hex_bound(s: Seq<char>)
    requires
        s.len() <= 4,
        all_hex(s),
    ensures
        numeral_value(s, 16) < 65536,
        s.len() <= 3 ==> numeral_value(s, 16) < 4096,
        s.len() <= 2 ==> numeral_value(s, 16) < 256,
        s.len() <= 1 ==> numeral_value(s, 16) < 16,
    decreases s.len(),
{
    if s.len() > 0 {
        let t = s.drop_last();
        assert forall|i: int| 0 <= i < t.len() implies is_hex_digit(#[trigger] t[i]) by {
            assert(t[i] == s[i]);
        }
        lemma_hex_bound(t);
        assert(is_hex_digit(s[s.len() - 1]));
    }
}

fn parse_v6_field(p: &str) -> (r: Option<u16>)
    ensures
        r == v6_field(p@),
{
    let cs = chars_of(p);
    if cs.len() == 0 || cs.len() > 4 {
        return None;
    }
    let mut value: u64 = 0;
    let mut i: usize = 0;
    while i < cs.len()
        invariant
            i <= cs.len() <= 4,
            cs@ == p@,
            all_hex(cs@.take(i as int)),
            value == numeral_value(cs@.take(i as int), 16),
        decreases cs.len() - i,
    {
        assert(cs@.take(i + 1).drop_last() =~= cs@.take(i as int));
        match digit_of(cs[i], 16) {
            None => {
                assert(!is_hex_digit(p@[i as int]));
                return None;
            },
            Some(d) => {
                assert forall|m: int| 0 <= m < i + 1 implies is_hex_digit(
                    #[trigger] cs@.take(i + 1)[m],
                ) by {
                    if m < i {
                        assert(cs@.take(i as int)[m] == cs@.take(i + 1)[m]);
                    }
                }
                proof {
                    lemma_hex_bound(cs@.take(i as int));
                }
                value = value * 16 + d;
            },
        }
        i += 1;
    }
    assert(cs@.take(i as int) =~= p@);
    proof {
        lemma_hex_bound(p@);
    }
    Some(value as u16)
}

fn colon_list(s: &str) -> (r: Vec<String>)
    ensures
        views(r@) == colon_parts(s@),
{
    if s.is_empty() {
        let r: Vec<String> = Vec::new();
        assert(views(r@) =~= colon_parts(s@));
        r
    } else {
        split_text(s, ':')
    }
}

/// Reads the first `n` pieces as groups.
fn parse_v6_fields(parts: &Vec<String>, n: usize) -> (r: Option<Vec<u16>>)
    requires
        n <= parts.len(),
    ensures
        match r {
            Some(g) => v6_fields(views(parts@).take(n as int)) == Some(g@),
            None => v6_fields(views(parts@).take(n as int)) is None,
        },
    decreases n,
{
    let ghost p = views(parts@).take(n as int);
    if n == 0 {
        return Some(Vec::new());
    }
    assert(p.drop_last() =~= views(parts@).take(n - 1));
    assert(p.last() == parts@[n - 1]@);
    match parse_v6_fields(parts, n - 1) {
        None => None,
        Some(mut lead) => match parse_v6_field(parts[n - 1].as_str()) {
            None => None,
            Some(g) => {
                lead.push(g);
                Some(lead)
            },
        },
    }
}

fn parse_v6_run(parts: &Vec<String>) -> (r: Option<Vec<u16>>)
    ensures
        match r {
            Some(g) => v6_run(views(parts@)) == Some(g@),
            None => v6_run(views(parts@)) is None,
        },
{
    let n = parts.len();
    if n == 0 {
        return Some(Vec::new());
    }
    let ghost p = views(parts@);
    assert(p.drop_last() =~= p.take(n - 1));
    assert(p.last() == parts@[n - 1]@);
    match parse_v6_fields(parts, n - 1) {
        None => None,
        Some(mut lead) => match parse_v6_field(parts[n - 1].as_str()) {
            Some(g) => {
                lead.push(g);
                Some(lead)
            },
            None => match parse_v4(parts[n - 1].as_str()) {
                None => None,
                Some(a) => {
                    let ghost before = lead@;
                    lead.push((a >> 16) as u16);
                    lead.push(a as u16);
                    assert(lead@ =~= before + v4_groups(a));
                    Some(lead)
                },
            },
        },
    }
}

fn find_double_colon(cs: &Vec<char>) -> (r: Option<usize>)
    ensures
        match r {
            Some(i) => first_double_colon(cs@, i as int),
            None => forall|i: int| !double_colon_at(cs@, i),
        },
{
    if cs.len() < 2 {
        return None;
    }
    let mut i: usize = 0;
    while i < cs.len() - 1
        invariant
            2 <= cs.len(),
            i <= cs.len() - 1,
            forall|j: int| 0 <= j < i ==> !double_colon_at(cs@, j),
        decreases cs.len() - i,
    {
        if cs[i] == ':' && cs[i + 1] == ':' {
            return Some(i);
        }
        i += 1;
    }
    None
}

/// Reads an IPv6 address.
pub fn parse_v6(s: &str) -> (r: Option<u128>)
    ensures
        r == v6_text(s@),
{
    let cs = chars_of(s);
    match find_double_colon(&cs) {
        None => {
            assert forall|i: int| !first_double_colon(s@, i) by {
                assert(!double_colon_at(s@, i));
            }
            match parse_v6_run(&colon_list(s)) {
                None => None,
                Some(g) => if g.len() == 8 {
                    Some(join_segments(&g))
                } else {
                    None
                },
            }
        },
        Some(i) => {
            let head_text = text_of(&cs, 0, i);
            let tail_text = text_of(&cs, i + 2, cs.len());
            proof {
                let j = choose|j: int| first_double_colon(s@, j);
                lemma_first_double_colon_unique(s@, i as int, j);
                assert(head_text@ =~= s@.take(i as int));
                assert(tail_text@ =~= s@.skip(i + 2));
            }
            let head_parts = colon_list(head_text.as_str());
            assert(views(head_parts@).take(head_parts.len() as int) =~= views(head_parts@));
            let mut groups = match parse_v6_fields(&head_parts, head_parts.len()) {
                None => { return None; },
                Some(h) => h,
            };
            let tail = match parse_v6_run(&colon_list(tail_text.as_str())) {
                None => { return None; },
                Some(t) => t,
            };
            if groups.len() > 7 || tail.len() > 7 - groups.len() {
                return None;
            }
            let ghost h = groups@;
            let zeros: usize = 8 - groups.len() - tail.len();
            let mut k: usize = 0;
            while k < zeros
                invariant
                    k <= zeros,
                    groups@ == h + Seq::new(k as nat, |i: int| 0u16),
                decreases zeros - k,
            {
                groups.push(0);
                k += 1;
                assert(groups@ =~= h + Seq::new(k as nat, |i: int| 0u16));
            }
            let ghost hz = groups@;
            let mut k: usize = 0;
            while k < tail.len()
                invariant
                    k <= tail.len(),
                    groups@ == hz + tail@.take(k as int),
                decreases tail.len() - k,
            {
                groups.push(tail[k]);
                k += 1;
                assert(groups@ =~= hz + tail@.take(k as int));
            }
            assert(tail@.take(k as int) =~= tail@);
            Some(join_segments(&groups))
        },
    }
}

/// How many groups of zero stand in a row from `i` on.
pub open spec fn zeros_from(g: Seq<u16>, i: int) -> nat
    decreases g.len() - i,
{
    if i < 0 || i >= g.len() || g[i] != 0 {
        0
    } else {
        1 + zeros_from(g, i + 1)
    }
}

/// The start and the length of the longest row of zero groups at or after `i`; of rows
/// of one length, the first.
pub open spec fn longest_zeros(g: Seq<u16>, i: int) -> (int, nat)
    decreases g.len() - i,
{
    if i >= g.len() {
        (i, 0)
    } else {
        let later = longest_zeros(g, i + 1);
        if zeros_from(g, i) >= later.1 {
            (i, zeros_from(g, i))
        } else {
            later
        }
    }
}

/// The hexadecimal texts of the groups.
pub open spec fn group_texts(g: Seq<u16>) -> Seq<Seq<char>> {
    g.map_values(|x: u16| hex(x as nat))
}

/// The groups in hexadecimal with a colon between them.
pub open spec fn colon_text(g: Seq<u16>) -> Seq<char> {
    join_on(group_texts(g), ':')
}

/// Whether the address holds an IPv4 address in its last two groups, after five groups
/// of zero and one of ffff.
pub open spec fn is_v4_mapped(a: u128) -> bool {
    a >> 32 == 0xffff
}

/// The text of an IPv6 address: lower-case hexadecimal groups, the longest row of two
/// or more zero groups written as a double colon, and a mapped IPv4 address in dotted
/// form.
pub open spec fn v6_display(a: u128) -> Seq<char> {
    if is_v4_mapped(a) {
        seq![':', ':', 'f', 'f', 'f', 'f', ':'] + v4_display(a as u32)
    } else {
        let g = segments(a);
        let (start, len) = longest_zeros(g, 0);
        if len > 1 {
            colon_text(g.take(start)) + seq![':', ':'] + colon_text(g.skip(start + len as int))
        } else {
            colon_text(g)
        }
    }
}

fn zeros_at(g: &Vec<u16>, i: usize) -> (r: usize)
    requires
        i <= g.len(),
    ensures
        r == zeros_from(g@, i as int),
        r <= g.len() - i,
    decreases g.len() - i,
{
    if i >= g.len() || g[i] != 0 {
        0
    } else {
        1 + zeros_at(g, i + 1)
    }
}

proof fn lemma_zeros_from(g: Seq<u16>, i: int)
    requires
        0 <= i <= g.len(),
    ensures
        zeros_from(g, i) <= g.len() - i,
        forall|j: int| i <= j < i + zeros_from(g, i) ==> g[j] == 0,
    decreases g.len() - i,
{
    if i < g.len() && g[i] == 0 {
        lemma_zeros_from(g, i + 1);
    }
}

proof fn lemma_longest_zeros(g: Seq<u16>, i: int)
    requires
        0 <= i <= g.len(),
    ensures
        i <= longest_zeros(g, i).0 <= g.len(),
        longest_zeros(g, i).0 + longest_zeros(g, i).1 <= g.len(),
        forall|j: int|
            longest_zeros(g, i).0 <= j < longest_zeros(g, i).0 + longest_zeros(g, i).1 ==> g[j]
                == 0,
    decreases g.len() - i,
{
    if i < g.len() {
        lemma_longest_zeros(g, i + 1);
        lemma_zeros_from(g, i);
    }
}

fn longest_zero_row(g: &Vec<u16>, i: usize) -> (r: (usize, usize))
    requires
        i <= g.len(),
    ensures
        (r.0 as int, r.1 as nat) == longest_zeros(g@, i as int),
    decreases g.len() - i,
{
    if i >= g.len() {
        (i, 0)
    } else {
        let later = longest_zero_row(g, i + 1);
        let here = zeros_at(g, i);
        if here >= later.1 {
            (i, here)
        } else {
            later
        }
    }
}

/// Appends the groups from `from` up to but not `to`.
fn push_groups(s: &mut String, g: &Vec<u16>, from: usize, to: usize)
    requires
        from <= to <= g.len(),
    ensures
        final(s)@ == old(s)@ + colon_text(g@.subrange(from as int, to as int)),
{
    let ghost base = s@;
    let mut i: usize = from;
    assert(s@ =~= base + colon_text(g@.subrange(from as int, from as int)));
    while i < to
        invariant
            from <= i <= to <= g.len(),
            s@ == base + colon_text(g@.subrange(from as int, i as int)),
        decreases to - i,
    {
        let ghost done = g@.subrange(from as int, i as int);
        let ghost next = g@.subrange(from as int, i + 1);
        let piece = hexadecimal(g[i]);
        if i > from {
            s.push(':');
        }
        s.append(piece.as_str());
        i += 1;
        proof {
            assert(group_texts(next).drop_last() =~= group_texts(done));
            assert(group_texts(next).last() == piece@);
            if done.len() == 0 {
                assert(group_texts(next) =~= seq![piece@]);
                assert(colon_text(done) =~= Seq::<char>::empty());
            }
            assert(s@ =~= base + colon_text(next));
        }
    }
}

/// The text of an IPv6 address.
pub fn v6_to_text(a: u128) -> (r: String)
    ensures
        r@ == v6_display(a),
{
    let mut s = String::new();
    if a >> 32 == 0xffff {
        s.push(':');
        s.push(':');
        s.push('f');
        s.push('f');
        s.push('f');
        s.push('f');
        s.push(':');
        s.append(v4_to_text(a as u32).as_str());
        assert(s@ =~= v6_display(a));
        return s;
    }
    let g = segment_list(a);
    let (start, len) = longest_zero_row(&g, 0);
    proof {
        lemma_longest_zeros(g@, 0);
    }
    if len > 1 {
        push_groups(&mut s, &g, 0, start);
        s.push(':');
        s.push(':');
        push_groups(&mut s, &g, start + len, g.len());
        assert(g@.subrange(0, start as int) =~= g@.take(start as int));
        assert(g@.subrange(start + len, 8) =~= g@.skip(start + len));
        assert(s@ =~= v6_display(a));
    } else {
        push_groups(&mut s, &g, 0, g.len());
        assert(g@.subrange(0, 8) =~= g@);
        assert(s@ =~= v6_display(a));
    }
    s
}

proof fn lemma_group_text(x: u16)
    ensures
        v6_field(hex(x as nat)) == Some(x),
        !hex(x as nat).contains(':'),
        hex(x as nat).len() >= 1,
{
    lemma_hex(x as nat);
    let d = hex(x as nat);
    assert forall|i: int| 0 <= i < d.len() implies d[i] != ':' by {
        assert(is_hex_digit(d[i]));
    }
}

proof fn lemma_fields_of_groups(g: Seq<u16>)
    ensures
        v6_fields(group_texts(g)) == Some(g),
    decreases g.len(),
{
    if g.len() == 0 {
        assert(g =~= Seq::<u16>::empty());
    } else {
        lemma_fields_of_groups(g.drop_last());
        lemma_group_text(g.last());
        assert(group_texts(g).drop_last() =~= group_texts(g.drop_last()));
        assert(g.drop_last().push(g.last()) =~= g);
    }
}

proof fn lemma_run_of_groups(g: Seq<u16>)
    ensures
        v6_run(group_texts(g)) == Some(g),
{
    if g.len() == 0 {
        assert(g =~= Seq::<u16>::empty());
    } else {
        lemma_fields_of_groups(g.drop_last());
        lemma_group_text(g.last());
        assert(group_texts(g).drop_last() =~= group_texts(g.drop_last()));
        assert(g.drop_last().push(g.last()) =~= g);
    }
}

/// A colon-separated list of groups splits into the groups' texts, neither starts nor
/// ends with a colon and holds no double colon.
proof fn lemma_colon_text(g: Seq<u16>)
    ensures
        colon_parts(colon_text(g)) == group_texts(g),
        forall|i: int| !double_colon_at(colon_text(g), i),
        colon_text(g).len() == 0 <==> g.len() == 0,
        g.len() > 0 ==> colon_text(g)[0] != ':' && colon_text(g).last() != ':',
    decreases g.len(),
{
    let t = colon_text(g);
    let p = group_texts(g);
    if g.len() == 0 {
        assert(p =~= Seq::<Seq<char>>::empty());
        assert(t =~= Seq::<char>::empty());
    } else {
        assert forall|i: int| 0 <= i < p.len() implies !(#[trigger] p[i]).contains(':') by {
            lemma_group_text(g[i]);
        }
        lemma_split_join(p, ':');
        lemma_group_text(g.last());
        let last = p.last();
        assert(last.contains(last[0]));
        assert(last.contains(last.last()));
        if g.len() == 1 {
            assert(t == last);
            assert forall|i: int| !double_colon_at(t, i) by {
                if double_colon_at(t, i) {
                    assert(last.contains(t[i]));
                }
            }
        } else {
            let h = g.drop_last();
            lemma_colon_text(h);
            assert(p.drop_last() =~= group_texts(h));
            let th = colon_text(h);
            assert(t == th.push(':') + last);
            assert forall|i: int| !double_colon_at(t, i) by {
                if double_colon_at(t, i) {
                    if i + 1 < th.len() {
                        assert(double_colon_at(th, i));
                    } else if i + 1 == th.len() {
                        assert(t[i] == th.last());
                    } else if i == th.len() {
                        assert(t[i + 1] == last[0]);
                    } else {
                        assert(t[i] == last[i - th.len() - 1]);
                        assert(last.contains(t[i]));
                    }
                }
            }
        }
    }
}

proof fn lemma_v4_display_plain(a: u32)
    ensures
        !v4_display(a).contains(':'),
        v4_display(a).contains('.'),
        v4_display(a).len() > 0,
{
    let o = octets(a);
    let p = seq![dec(o[0] as nat), dec(o[1] as nat), dec(o[2] as nat), dec(o[3] as nat)];
    lemma_v4_field(o[0]);
    lemma_v4_field(o[1]);
    lemma_v4_field(o[2]);
    lemma_v4_field(o[3]);
    reveal_with_fuel(join_on, 4);
    assert(p.drop_last() =~= seq![p[0], p[1], p[2]]);
    assert(seq![p[0], p[1], p[2]].drop_last() =~= seq![p[0], p[1]]);
    assert(seq![p[0], p[1]].drop_last() =~= seq![p[0]]);
    let t = v4_display(a);
    let n0 = p[0].len() as int;
    let n1 = p[1].len() as int;
    let n2 = p[2].len() as int;
    assert(t =~= p[0].push('.') + p[1].push('.') + p[2].push('.') + p[3]);
    assert(t[n0] == '.');
    assert forall|i: int| 0 <= i < t.len() implies t[i] != ':' by {
        if i < n0 {
            assert(p[0].contains(t[i]));
        } else if n0 < i < n0 + 1 + n1 {
            assert(t[i] == p[1][i - n0 - 1]);
            assert(p[1].contains(t[i]));
        } else if n0 + 1 + n1 < i < n0 + 1 + n1 + 1 + n2 {
            assert(t[i] == p[2][i - n0 - n1 - 2]);
            assert(p[2].contains(t[i]));
        } else if i > n0 + 1 + n1 + 1 + n2 {
            assert(t[i] == p[3][i - n0 - n1 - n2 - 3]);
            assert(p[3].contains(t[i]));
        }
    }
}

proof fn lemma_ffff_field()
    ensures
        v6_fields(seq![seq!['f', 'f', 'f', 'f']]) == Some(seq![0xffffu16]),
{
    let ffff = seq!['f', 'f', 'f', 'f'];
    assert(v6_field(ffff) == Some(0xffffu16)) by {
        reveal_with_fuel(numeral_value, 5);
        assert(ffff.drop_last() =~= seq!['f', 'f', 'f']);
        assert(seq!['f', 'f', 'f'].drop_last() =~= seq!['f', 'f']);
        assert(seq!['f', 'f'].drop_last() =~= seq!['f']);
        assert(seq!['f'].drop_last() =~= Seq::<char>::empty());
    }
    assert(seq![ffff].drop_last() =~= Seq::<Seq<char>>::empty());
    reveal_with_fuel(v6_fields, 2);
    assert(Seq::<u16>::empty().push(0xffffu16) =~= seq![0xffffu16]);
}

proof fn lemma_mapped_segments(a: u128)
    requires
        is_v4_mapped(a),
    ensures
        Seq::<u16>::empty() + Seq::new(5, |i: int| 0u16) + (seq![0xffffu16] + v4_groups(a as u32))
            == segments(a),
{
    assert((a >> 112) as u16 == 0 && (a >> 96) as u16 == 0 && (a >> 80) as u16 == 0 && (a
        >> 64) as u16 == 0 && (a >> 48) as u16 == 0 && (a >> 32) as u16 == 0xffff && ((
    a as u32) >> 16) as u16 == (a >> 16) as u16 && (a as u32) as u16 == a as u16) by (bit_vector)
        requires
            a >> 32 == 0xffff,
    ;
    assert(Seq::<u16>::empty() + Seq::new(5, |i: int| 0u16) + (seq![0xffffu16] + v4_groups(
        a as u32,
    )) =~= segments(a));
}

proof fn lemma_mapped_roundtrip(a: u128)
    requires
        is_v4_mapped(a),
    ensures
        v6_text(v6_display(a)) == Some(a),
{
    let t = v6_display(a);
    lemma_segments(a);
    let low = a as u32;
    let dotted = v4_display(low);
    lemma_v4_display_plain(low);
    lemma_v4_roundtrip(low);
    assert(double_colon_at(t, 0));
    assert(first_double_colon(t, 0));
    let i = choose|i: int| first_double_colon(t, i);
    lemma_first_double_colon_unique(t, 0, i);
    assert(t.take(0) =~= Seq::<char>::empty());
    assert(v6_fields(colon_parts(t.take(0))) == Some(Seq::<u16>::empty()));
    let tail = t.skip(2);
    let ffff = seq!['f', 'f', 'f', 'f'];
    assert(tail =~= ffff.push(':') + dotted);
    lemma_split_append(ffff, ':', dotted);
    assert(!ffff.contains(':'));
    lemma_split_single(ffff, ':');
    let parts = seq![ffff].push(dotted);
    assert(colon_parts(tail) == parts);
    assert(parts.drop_last() =~= seq![ffff]);
    lemma_ffff_field();
    assert(v6_field(dotted) is None) by {
        let k = choose|k: int| 0 <= k < dotted.len() && dotted[k] == '.';
        assert(!is_hex_digit(dotted[k]));
    }
    assert(v6_run(parts) == Some(seq![0xffffu16] + v4_groups(low)));
    lemma_mapped_segments(a);
}

proof fn lemma_compressed_roundtrip(a: u128)
    requires
        !is_v4_mapped(a),
        longest_zeros(segments(a), 0).1 > 1,
    ensures
        v6_text(v6_display(a)) == Some(a),
{
    let t = v6_display(a);
    let g = segments(a);
    lemma_segments(a);
    let (start, len) = longest_zeros(g, 0);
    lemma_longest_zeros(g, 0);
    let h = g.take(start);
    let q = g.skip(start + len as int);
    lemma_colon_text(h);
    lemma_colon_text(q);
    lemma_fields_of_groups(h);
    lemma_run_of_groups(q);
    let th = colon_text(h);
    let tq = colon_text(q);
    let n = th.len() as int;
    assert(t =~= th + seq![':', ':'] + tq);
    assert(first_double_colon(t, n)) by {
        assert(t[n] == ':' && t[n + 1] == ':');
        assert forall|j: int| 0 <= j < n implies !double_colon_at(t, j) by {
            if double_colon_at(t, j) {
                if j + 1 < n {
                    assert(double_colon_at(th, j));
                } else {
                    assert(t[j] == th.last());
                }
            }
        }
    }
    let i = choose|i: int| first_double_colon(t, i);
    lemma_first_double_colon_unique(t, n, i);
    assert(t.take(n) =~= th);
    assert(t.skip(n + 2) =~= tq);
    assert(h + Seq::new((8 - h.len() - q.len()) as nat, |i: int| 0u16) + q =~= g);
}

/// Reading the text of an IPv6 address gives the address back.
pub proof fn lemma_v6_roundtrip(a: u128)
    ensures
        v6_text(v6_display(a)) == Some(a),
{
    let t = v6_display(a);
    let g = segments(a);
    if is_v4_mapped(a) {
        lemma_mapped_roundtrip(a);
    } else if longest_zeros(g, 0).1 > 1 {
        lemma_compressed_roundtrip(a);
    } else {
        lemma_segments(a);
        lemma_colon_text(g);
        lemma_run_of_groups(g);
        assert forall|i: int| !first_double_colon(t, i) by {
            assert(!double_colon_at(t, i));
        }
    }
}

// ---------------------------------------------------------------------------
// Addresses of either protocol
// ---------------------------------------------------------------------------

/// The address that a text denotes; a dotted text is an IPv4 address.
pub open spec fn addr_text(s: Seq<char>) -> Option<IpAddrUniversal> {
    match v4_text(s) {
        Some(a) => Some(IpAddrUniversal::V4(a)),
        None => match v6_text(s) {
            Some(a) => Some(IpAddrUniversal::V6(a)),
            None => None,
        },
    }
}

/// The text of an address.
pub open spec fn addr_display(a: IpAddrUniversal) -> Seq<char> {
    match a {
        IpAddrUniversal::V4(v4) => v4_display(v4),
        IpAddrUniversal::V6(v6) => v6_display(v6),
    }
}

/// The address with the given bytes.
pub open spec fn addr_of_octets(ip: AddrOctets) -> IpAddrUniversal {
    match ip {
        AddrOctets::V4(b) => IpAddrUniversal::V4(of_octets(b@)),
        AddrOctets::V6(b) => IpAddrUniversal::V6(of_segments(byte_pairs(b@))),
    }
}

/// The groups that sixteen bytes form, two bytes each.
pub open spec fn byte_pairs(b: Seq<u8>) -> Seq<u16> {
    Seq::new(8, |i: int| ((b[2 * i] as u16) << 8) | (b[2 * i + 1] as u16))
}

/// The name of the protocol of an address.
pub open spec fn protocol_name(a: IpAddrUniversal) -> Seq<char> {
    match a {
        IpAddrUniversal::V4(_) => "IPv4"@,
        IpAddrUniversal::V6(_) => "IPv6"@,
    }
}

/// The unspecified address, the loopback address or a link-local address of IPv4; of
/// IPv6 the loopback address or the address 7f00::1.
pub open spec fn local_addr(a: IpAddrUniversal) -> bool {
    match a {
        IpAddrUniversal::V4(v4) => v4 == 0 || v4 == 0x7f000001 || v4 >> 16 == 0xa9fe,
        IpAddrUniversal::V6(v6) => v6 == 1 || v6 == 0x7f000000000000000000000000000001,
    }
}

fn pair(hi: u8, lo: u8) -> (r: u16)
    ensures
        r == ((hi as u16) << 8) | (lo as u16),
{
    ((hi as u16) << 8) | (lo as u16)
}

/// The IPv6 address with the given bytes, from `at` on.
pub fn v6_of_bytes(b: &[u8], at: usize) -> (r: u128)
    requires
        at + 16 <= b.len(),
    ensures
        r == of_segments(byte_pairs(b@.subrange(at as int, at + 16))),
{
    let mut g: Vec<u16> = Vec::new();
    let mut i: usize = 0;
    let ghost w = b@.subrange(at as int, at + 16);
    while i < 8
        invariant
            i <= 8,
            at + 16 <= b.len(),
            w == b@.subrange(at as int, at + 16),
            g@ == byte_pairs(w).take(i as int),
        decreases 8 - i,
    {
        g.push(pair(b[at + 2 * i], b[at + 2 * i + 1]));
        assert(w[2 * i] == b@[at + 2 * i]);
        assert(w[2 * i + 1] == b@[at + 2 * i + 1]);
        i += 1;
        assert(g@ =~= byte_pairs(w).take(i as int));
    }
    assert(g@ =~= byte_pairs(w));
    join_segments(&g)
}

/// The IPv4 address with the given bytes.
pub fn v4_of_bytes(a: u8, b: u8, c: u8, d: u8) -> (r: u32)
    ensures
        r == of_octets(seq![a, b, c, d]),
{
    join_octets(a, b, c, d)
}

impl IpAddrUniversal {
    /// The address with the given bytes.
    pub fn new(ip: AddrOctets) -> (r: Self)
        ensures
            r == addr_of_octets(ip),
    {
        match ip {
            AddrOctets::V4(b) => {
                assert(b@ =~= seq![b@[0], b@[1], b@[2], b@[3]]);
                IpAddrUniversal::V4(join_octets(b[0], b[1], b[2], b[3]))
            },
            AddrOctets::V6(b) => {
                let s: &[u8] = &b;
                assert(s@.subrange(0, 16) =~= b@);
                IpAddrUniversal::V6(v6_of_bytes(s, 0))
            },
        }
    }

    /// Reads an address of either protocol.
    pub fn from_str(s: &str) -> (r: Option<Self>)
        ensures
            r == addr_text(s@),
    {
        match parse_v4(s) {
            Some(a) => Some(IpAddrUniversal::V4(a)),
            None => match parse_v6(s) {
                Some(a) => Some(IpAddrUniversal::V6(a)),
                None => None,
            },
        }
    }

    /// The text of the address.
    pub fn to_string(&self) -> (r: String)
        ensures
            r@ == addr_display(*self),
    {
        match self {
            IpAddrUniversal::V4(a) => v4_to_text(*a),
            IpAddrUniversal::V6(a) => v6_to_text(*a),
        }
    }

    /// Whether this is an IPv4 address.
    pub fn is_v4(&self) -> (r: bool)
        ensures
            r == (self is V4),
    {
        match self {
            IpAddrUniversal::V4(_) => true,
            IpAddrUniversal::V6(_) => false,
        }
    }

    /// Whether this is an IPv6 address.
    pub fn is_v6(&self) -> (r: bool)
        ensures
            r == (self is V6),
    {
        match self {
            IpAddrUniversal::V4(_) => false,
            IpAddrUniversal::V6(_) => true,
        }
    }

    /// The IPv4 address, if it is one.
    pub fn as_v4(&self) -> (r: Option<u32>)
        ensures
            match *self {
                IpAddrUniversal::V4(a) => r == Some(a),
                IpAddrUniversal::V6(_) => r is None,
            },
    {
        match self {
            IpAddrUniversal::V4(a) => Some(*a),
            IpAddrUniversal::V6(_) => None,
        }
    }

    /// The IPv6 address, if it is one.
    pub fn as_v6(&self) -> (r: Option<u128>)
        ensures
            match *self {
                IpAddrUniversal::V4(_) => r is None,
                IpAddrUniversal::V6(a) => r == Some(a),
            },
    {
        match self {
            IpAddrUniversal::V4(_) => None,
            IpAddrUniversal::V6(a) => Some(*a),
        }
    }

    /// Whether the address is local to the host or to the link.
    pub fn is_local(&self) -> (r: bool)
        ensures
            r == local_addr(*self),
    {
        match self {
            IpAddrUniversal::V4(a) => {
                let ip: u32 = *a;
                assert((ip & 0xffff0000 == 0xa9fe0000) == (ip >> 16 == 0xa9fe)) by (bit_vector);
                ip == 0 || ip == 0x7f000001 || (ip & 0xffff0000) == 0xa9fe0000
            },
            IpAddrUniversal::V6(a) => {
                let ip: u128 = *a;
                assert(ip & 0xff000000000000000000000000000000
                    != 0xfe800000000000000000000000000000) by (bit_vector);
                ip == 1 || ip == 0x7f000000000000000000000000000001 || (ip
                    & 0xff000000000000000000000000000000) == 0xfe800000000000000000000000000000
            },
        }
    }

    /// Whether the address is not local.
    pub fn is_public(&self) -> (r: bool)
        ensures
            r == !local_addr(*self),
    {
        !self.is_local()
    }

    /// The name of the protocol.
    pub fn protocol(&self) -> (r: &'static str)
        ensures
            r@ == protocol_name(*self),
    {
        match self {
            IpAddrUniversal::V4(_) => "IPv4",
            IpAddrUniversal::V6(_) => "IPv6",
        }
    }
}

/// Every character of a text is the separator or stands in one of the pieces.
proof fn lemma_split_covers(s: Seq<char>, c: char, k: int) -> (j: int)
    requires
        0 <= k < s.len(),
        s[k] != c,
    ensures
        0 <= j < split_on(s, c).len(),
        split_on(s, c)[j].contains(s[k]),
    decreases s.len(),
{
    let before = split_on(s.drop_last(), c);
    lemma_split_nonempty(s.drop_last(), c);
    if k == s.len() - 1 {
        let piece = before.last().push(s.last());
        assert(piece[piece.len() - 1] == s[k]);
        assert(split_on(s, c).last() == piece);
        split_on(s, c).len() - 1
    } else {
        let j = lemma_split_covers(s.drop_last(), c, k);
        let m = choose|m: int| 0 <= m < before[j].len() && before[j][m] == s[k];
        assert(split_on(s, c)[j][m] == s[k]);
        j
    }
}

/// A dotted IPv4 address holds no colon.
pub proof fn lemma_v4_text_plain(s: Seq<char>)
    requires
        v4_text(s) is Some,
    ensures
        !s.contains(':'),
{
    let p = split_on(s, '.');
    assert forall|k: int| 0 <= k < s.len() implies s[k] != ':' by {
        if s[k] == ':' {
            let j = lemma_split_covers(s, '.', k);
            let m = choose|m: int| 0 <= m < p[j].len() && p[j][m] == ':';
            assert(v4_field(p[j]) is Some);
            assert(is_dec_digit(p[j][m]));
        }
    }
}

proof fn lemma_v6_display_colon(a: u128)
    ensures
        v6_display(a).contains(':'),
{
    let t = v6_display(a);
    let g = segments(a);
    if is_v4_mapped(a) {
        assert(t[0] == ':');
    } else if longest_zeros(g, 0).1 > 1 {
        lemma_longest_zeros(g, 0);
        let n = colon_text(g.take(longest_zeros(g, 0).0)).len() as int;
        assert(t[n] == ':');
    } else {
        let p = group_texts(g);
        let th = join_on(p.drop_last(), ':');
        assert(t == th.push(':') + p.last());
        assert(t[th.len() as int] == ':');
    }
}

/// The text of an address reads back as that address, for both protocols.
pub proof fn law_addr_roundtrip(a: IpAddrUniversal)
    ensures
        addr_text(addr_display(a)) == Some(a),
{
    match a {
        IpAddrUniversal::V4(v4) => {
            lemma_v4_roundtrip(v4);
        },
        IpAddrUniversal::V6(v6) => {
            lemma_v6_roundtrip(v6);
            lemma_v6_display_colon(v6);
            if v4_text(v6_display(v6)) is Some {
                lemma_v4_text_plain(v6_display(v6));
            }
        },
    }
}

/// A text with a colon is never an IPv4 address, and a text without one is never an
/// IPv6 address.
pub proof fn law_colon_tells_protocol(s: Seq<char>)
    ensures
        s.contains(':') ==> !(addr_text(s) matches Some(IpAddrUniversal::V4(_))),
        !s.contains(':') ==> !(addr_text(s) matches Some(IpAddrUniversal::V6(_))),
{
    if v4_text(s) is Some {
        lemma_v4_text_plain(s);
    }
    if !s.contains(':') {
        assert forall|i: int| !first_double_colon(s, i) by {
            if first_double_colon(s, i) {
                assert(s.contains(s[i]));
            }
        }
        if s.len() > 0 {
            lemma_split_single(s, ':');
            let p = seq![s];
            assert(p.drop_last() =~= Seq::<Seq<char>>::empty());
            assert(v6_fields(p.drop_last()) == Some(Seq::<u16>::empty()));
        }
    }
}

// ---------------------------------------------------------------------------
// Other readings of a text
// ---------------------------------------------------------------------------

/// Whether each of the pieces is an unsigned number up to 255.
pub open spec fn all_bytes(p: Seq<Seq<char>>) -> bool {
    forall|i: int| 0 <= i < p.len() ==> unsigned_text(#[trigger] p[i], 255) is Some
}

/// The IPv4 address that four numbers up to 255 denote, with dots between them. Unlike
/// an address in the strict form, a number may have leading zeros or a plus sign.
pub open spec fn loose_v4(s: Seq<char>) -> Option<u32> {
    let p = split_on(s, '.');
    if !s.contains(':') && p.len() == 4 && all_bytes(p) {
        Some(
            of_octets(
                seq![
                    unsigned_text(p[0], 255)->0 as u8,
                    unsigned_text(p[1], 255)->0 as u8,
                    unsigned_text(p[2], 255)->0 as u8,
                    unsigned_text(p[3], 255)->0 as u8,
                ],
            ),
        )
    } else {
        None
    }
}

/// Whether a text passes as an address: an IPv6 address where it holds a colon, else
/// four numbers up to 255.
pub open spec fn valid_ip(s: Seq<char>) -> bool {
    if s.contains(':') {
        v6_text(s) is Some
    } else {
        split_on(s, '.').len() == 4 && all_bytes(split_on(s, '.'))
    }
}

/// Reads four numbers up to 255 with dots between them.
pub fn ip_to_u32(ip: &str) -> (r: Option<u32>)
    ensures
        r == loose_v4(ip@),
{
    if contains_char(ip, ':') {
        return None;
    }
    let parts = split_text(ip, '.');
    let ghost p = split_on(ip@, '.');
    if parts.len() != 4 {
        return None;
    }
    assert(forall|i: int| 0 <= i < 4 ==> p[i] == (#[trigger] parts@[i])@);
    match (
        parse_unsigned(parts[0].as_str(), 255),
        parse_unsigned(parts[1].as_str(), 255),
        parse_unsigned(parts[2].as_str(), 255),
        parse_unsigned(parts[3].as_str(), 255),
    ) {
        (Some(a), Some(b), Some(c), Some(d)) => {
            assert(all_bytes(p));
            Some(join_octets(a as u8, b as u8, c as u8, d as u8))
        },
        _ => {
            assert(unsigned_text(p[0], 255) is None || unsigned_text(p[1], 255) is None
                || unsigned_text(p[2], 255) is None || unsigned_text(p[3], 255) is None);
            None
        },
    }
}

/// Whether a text passes as an address.
pub fn validate_ip(ip: &str) -> (r: bool)
    ensures
        r == valid_ip(ip@),
{
    if contains_char(ip, ':') {
        return parse_v6(ip).is_some();
    }
    ip_to_u32(ip).is_some()
}

/// The text of the network of the first 64 bits of an IPv6 address.
pub open spec fn subnet64(s: Seq<char>) -> Option<Seq<char>> {
    match addr_text(s) {
        Some(IpAddrUniversal::V6(a)) => Some(
            v6_display((a >> 64) << 64) + seq!['/', '6', '4'],
        ),
        _ => None,
    }
}

/// The network of the first 64 bits of an IPv6 address, in text form.
pub fn ipv6_subnet64(ip: &str) -> (r: Option<String>)
    ensures
        match r {
            Some(t) => subnet64(ip@) == Some(t@),
            None => subnet64(ip@) is None,
        },
{
    match IpAddrUniversal::from_str(ip) {
        Some(IpAddrUniversal::V6(a)) => {
            let mut s = v6_to_text((a >> 64) << 64);
            let ghost base = s@;
            s.push('/');
            s.push('6');
            s.push('4');
            assert(s@ =~= base + seq!['/', '6', '4']);
            Some(s)
        },
        _ => None,
    }
}

/// Whether two texts are the same, or addresses of IPv6 with the same first 64 bits.
pub open spec fn same_subnet(a: Seq<char>, b: Seq<char>) -> bool {
    a == b || (subnet64(a) is Some && subnet64(a) == subnet64(b))
}

/// Whether two texts are the same, or addresses of IPv6 with the same first 64 bits.
pub fn in_same_subnet(a: &str, b: &str) -> (r: bool)
    ensures
        r == same_subnet(a@, b@),
{
    if same_text(a, b) {
        return true;
    }
    match (ipv6_subnet64(a), ipv6_subnet64(b)) {
        (Some(x), Some(y)) => same_text(x.as_str(), y.as_str()),
        _ => false,
    }
}

// ---------------------------------------------------------------------------
// What texts denote
// ---------------------------------------------------------------------------

proof fn lemma_canonical_numeral(p: Seq<char>)
    requires
        p.len() > 0,
        all_dec(p),
        p.len() > 1 ==> p[0] != '0',
    ensures
        dec(numeral_value(p, 10)) == p,
        p[0] != '0' ==> numeral_value(p, 10) > 0,
    decreases p.len(),
{
    let q = p.drop_last();
    assert(is_dec_digit(p.last()));
    if q.len() == 0 {
        reveal_with_fuel(numeral_value, 2);
        assert(dec(numeral_value(p, 10)) =~= p);
    } else {
        assert forall|i: int| 0 <= i < q.len() implies is_dec_digit(#[trigger] q[i]) by {
            assert(q[i] == p[i]);
        }
        lemma_canonical_numeral(q);
        law_decimal_digits(numeral_value(q, 10), digit_value(p.last()));
        assert(dec(numeral_value(p, 10)) =~= p);
    }
}

/// The text of an IPv4 address is its four numbers with dots between them, and it is the
/// only text that strictly denotes the address.
pub proof fn law_v4_text_is_dotted(s: Seq<char>, a: u8, b: u8, c: u8, d: u8)
    ensures
        v4_display(of_octets(seq![a, b, c, d])) == dec(a as nat) + seq!['.'] + dec(b as nat)
            + seq!['.'] + dec(c as nat) + seq!['.'] + dec(d as nat),
        v4_text(s) == Some(of_octets(seq![a, b, c, d])) <==> s == dec(a as nat) + seq!['.'] + dec(
            b as nat,
        ) + seq!['.'] + dec(c as nat) + seq!['.'] + dec(d as nat),
        v4_text(s) is Some ==> v4_display(v4_text(s)->0) == s,
{
    let x = of_octets(seq![a, b, c, d]);
    law_octets_are_digits(seq![a, b, c, d]);
    let p = seq![dec(a as nat), dec(b as nat), dec(c as nat), dec(d as nat)];
    let t = dec(a as nat) + seq!['.'] + dec(b as nat) + seq!['.'] + dec(c as nat) + seq!['.'] + dec(
        d as nat,
    );
    reveal_with_fuel(join_on, 4);
    assert(p.drop_last() =~= seq![p[0], p[1], p[2]]);
    assert(seq![p[0], p[1], p[2]].drop_last() =~= seq![p[0], p[1]]);
    assert(seq![p[0], p[1]].drop_last() =~= seq![p[0]]);
    assert(join_on(p, '.') =~= t);
    assert(v4_display(x) == t);
    lemma_v4_roundtrip(x);
    if v4_text(s) is Some {
        lemma_v4_display_reads_back(s);
    }
}

proof fn lemma_v4_display_reads_back(s: Seq<char>)
    requires
        v4_text(s) is Some,
    ensures
        v4_display(v4_text(s)->0) == s,
{
    let q = split_on(s, '.');
    law_pieces_join_back(s, '.');
    let b = seq![v4_field(q[0])->0, v4_field(q[1])->0, v4_field(q[2])->0, v4_field(q[3])->0];
    law_octets_are_digits(b);
    lemma_canonical_numeral(q[0]);
    lemma_canonical_numeral(q[1]);
    lemma_canonical_numeral(q[2]);
    lemma_canonical_numeral(q[3]);
    assert(seq![dec(b[0] as nat), dec(b[1] as nat), dec(b[2] as nat), dec(b[3] as nat)] =~= q);
}

/// The eight groups of an IPv6 address are its digits to the base 65536, the most
/// significant first.
pub proof fn law_groups_are_digits(g: Seq<u16>)
    requires
        g.len() == 8,
    ensures
        segments(of_segments(g)) == g,
        of_segments(g) == ((((((g[0] * 0x10000 + g[1]) * 0x10000 + g[2]) * 0x10000 + g[3]) * 0x10000
            + g[4]) * 0x10000 + g[5]) * 0x10000 + g[6]) * 0x10000 + g[7],
{
    let (g0, g1, g2, g3) = (g[0], g[1], g[2], g[3]);
    let (g4, g5, g6, g7) = (g[4], g[5], g[6], g[7]);
    let a = of_segments(g);
    assert((a >> 112) as u16 == g0 && (a >> 96) as u16 == g1 && (a >> 80) as u16 == g2 && (a
        >> 64) as u16 == g3 && (a >> 48) as u16 == g4 && (a >> 32) as u16 == g5 && (a >> 16) as u16
        == g6 && a as u16 == g7) by (bit_vector)
        requires
            a == ((g0 as u128) << 112) | ((g1 as u128) << 96) | ((g2 as u128) << 80) | ((
            g3 as u128) << 64) | ((g4 as u128) << 48) | ((g5 as u128) << 32) | ((g6 as u128) << 16)
                | (g7 as u128),
    ;
    assert(segments(a) =~= g);
    lemma_groups_value(a, g0, g1, g2, g3, g4, g5, g6, g7);
}

proof fn lemma_groups_value(
    a: u128,
    g0: u16,
    g1: u16,
    g2: u16,
    g3: u16,
    g4: u16,
    g5: u16,
    g6: u16,
    g7: u16,
)
    requires
        a == ((g0 as u128) << 112) | ((g1 as u128) << 96) | ((g2 as u128) << 80) | ((g3 as u128)
            << 64) | ((g4 as u128) << 48) | ((g5 as u128) << 32) | ((g6 as u128) << 16) | (
        g7 as u128),
    ensures
        a == ((((((g0 * 0x10000 + g1) * 0x10000 + g2) * 0x10000 + g3) * 0x10000 + g4) * 0x10000
            + g5) * 0x10000 + g6) * 0x10000 + g7,
{
    assert(a == g0 * 0x1_0000_0000_0000_0000_0000_0000_0000u128 + g1
        * 0x1_0000_0000_0000_0000_0000_0000u128 + g2 * 0x1_0000_0000_0000_0000_0000u128 + g3
        * 0x1_0000_0000_0000_0000u128 + g4 * 0x1_0000_0000_0000u128 + g5 * 0x1_0000_0000u128 + g6
        * 0x1_0000u128 + g7) by (bit_vector)
        requires
            a == ((g0 as u128) << 112) | ((g1 as u128) << 96) | ((g2 as u128) << 80) | ((
            g3 as u128) << 64) | ((g4 as u128) << 48) | ((g5 as u128) << 32) | ((g6 as u128) << 16)
                | (g7 as u128),
    ;
}

/// Whether all pieces are groups of one to four hexadecimal digits.
pub open spec fn hex_fields(parts: Seq<Seq<char>>) -> bool {
    forall|i: int|
        0 <= i < parts.len() ==> 1 <= (#[trigger] parts[i]).len() <= 4 && all_hex(parts[i])
}

/// The numbers that the pieces denote.
pub open spec fn field_values(parts: Seq<Seq<char>>) -> Seq<u16> {
    Seq::new(parts.len(), |i: int| numeral_value(parts[i], 16) as u16)
}

proof fn lemma_hex_fields(parts: Seq<Seq<char>>)
    requires
        hex_fields(parts),
    ensures
        v6_fields(parts) == Some(field_values(parts)),
        v6_run(parts) == Some(field_values(parts)),
    decreases parts.len(),
{
    if parts.len() == 0 {
        assert(field_values(parts) =~= Seq::<u16>::empty());
    } else {
        let front = parts.drop_last();
        assert forall|i: int| 0 <= i < front.len() implies 1 <= (#[trigger] front[i]).len() <= 4
            && all_hex(front[i]) by {
            assert(front[i] == parts[i]);
        }
        lemma_hex_fields(front);
        assert(parts[parts.len() - 1] == parts.last());
        assert(field_values(front).push(numeral_value(parts.last(), 16) as u16) =~= field_values(
            parts,
        ));
    }
}

proof fn lemma_field_plain(p: Seq<char>)
    requires
        all_hex(p),
    ensures
        !p.contains(':'),
{
    assert forall|i: int| 0 <= i < p.len() implies p[i] != ':' by {
        assert(is_hex_digit(p[i]));
    }
}

proof fn lemma_fields_joined(parts: Seq<Seq<char>>)
    requires
        hex_fields(parts),
    ensures
        colon_parts(join_on(parts, ':')) == parts,
        forall|i: int| !double_colon_at(join_on(parts, ':'), i),
        join_on(parts, ':').len() == 0 <==> parts.len() == 0,
        parts.len() > 0 ==> join_on(parts, ':')[0] != ':' && join_on(parts, ':').last() != ':',
    decreases parts.len(),
{
    let t = join_on(parts, ':');
    if parts.len() == 0 {
        assert(parts =~= Seq::<Seq<char>>::empty());
    } else {
        assert forall|i: int| 0 <= i < parts.len() implies !(#[trigger] parts[i]).contains(':') by {
            lemma_field_plain(parts[i]);
        }
        lemma_split_join(parts, ':');
        let last = parts.last();
        assert(last == parts[parts.len() - 1]);
        assert(last.contains(last[0]));
        assert(last.contains(last.last()));
        if parts.len() == 1 {
            assert forall|i: int| !double_colon_at(t, i) by {
                if double_colon_at(t, i) {
                    assert(last.contains(t[i]));
                }
            }
        } else {
            let h = parts.drop_last();
            assert forall|i: int| 0 <= i < h.len() implies 1 <= (#[trigger] h[i]).len() <= 4
                && all_hex(h[i]) by {
                assert(h[i] == parts[i]);
            }
            lemma_fields_joined(h);
            let th = join_on(h, ':');
            assert(t == th.push(':') + last);
            assert forall|i: int| !double_colon_at(t, i) by {
                if double_colon_at(t, i) {
                    if i + 1 < th.len() {
                        assert(double_colon_at(th, i));
                    } else if i + 1 == th.len() {
                        assert(t[i] == th.last());
                    } else if i == th.len() {
                        assert(t[i + 1] == last[0]);
                    } else {
                        assert(t[i] == last[i - th.len() - 1]);
                        assert(last.contains(t[i]));
                    }
                }
            }
        }
    }
}

/// Groups of one to four hexadecimal digits with colons between them are an IPv6 address
/// exactly if they are eight.
pub proof fn law_eight_groups_are_an_address(parts: Seq<Seq<char>>)
    requires
        hex_fields(parts),
    ensures
        parts.len() == 8 ==> v6_text(join_on(parts, ':')) == Some(of_segments(field_values(parts))),
        parts.len() != 8 ==> v6_text(join_on(parts, ':')) is None,
{
    let t = join_on(parts, ':');
    lemma_fields_joined(parts);
    lemma_hex_fields(parts);
    assert forall|i: int| !first_double_colon(t, i) by {
        assert(!double_colon_at(t, i));
    }
}

/// A double colon stands for one or more groups of zero: with up to seven groups before and
/// after it the text is the IPv6 address of those groups and as many zeros as are missing,
/// and with more it is none.
pub proof fn law_double_colon_fills_up(head: Seq<Seq<char>>, tail: Seq<Seq<char>>)
    requires
        hex_fields(head),
        hex_fields(tail),
    ensures
        ({
            let t = join_on(head, ':') + seq![':', ':'] + join_on(tail, ':');
            let missing = 8 - head.len() - tail.len();
            &&& missing >= 1 ==> v6_text(t) == Some(
                of_segments(
                    field_values(head) + Seq::new(missing as nat, |i: int| 0u16) + field_values(
                        tail,
                    ),
                ),
            )
            &&& missing < 1 ==> v6_text(t) is None
        }),
{
    let th = join_on(head, ':');
    let tq = join_on(tail, ':');
    let t = th + seq![':', ':'] + tq;
    let n = th.len() as int;
    lemma_fields_joined(head);
    lemma_fields_joined(tail);
    lemma_hex_fields(head);
    lemma_hex_fields(tail);
    assert(first_double_colon(t, n)) by {
        assert(t[n] == ':' && t[n + 1] == ':');
        assert forall|j: int| 0 <= j < n implies !double_colon_at(t, j) by {
            if double_colon_at(t, j) {
                if j + 1 < n {
                    assert(double_colon_at(th, j));
                } else {
                    assert(t[j] == th.last());
                }
            }
        }
    }
    let i = choose|i: int| first_double_colon(t, i);
    lemma_first_double_colon_unique(t, n, i);
    assert(t.take(n) =~= th);
    assert(t.skip(n + 2) =~= tq);
}

proof fn lemma_row_is_short(g: Seq<u16>, i: int, n: int)
    requires
        0 <= i,
        0 <= n,
        i + n <= g.len(),
        forall|j: int| i <= j < i + n ==> g[j] == 0,
    ensures
        zeros_from(g, i) >= n,
    decreases n,
{
    if n > 0 {
        lemma_row_is_short(g, i + 1, n - 1);
    }
}

proof fn lemma_no_longer_row(g: Seq<u16>, from: int, i: int, n: int)
    requires
        0 <= from <= i,
        0 < n,
        i + n <= g.len(),
        forall|j: int| i <= j < i + n ==> g[j] == 0,
    ensures
        longest_zeros(g, from).1 >= n,
        longest_zeros(g, from).1 == n ==> longest_zeros(g, from).0 <= i,
    decreases g.len() - from,
{
    if from == i {
        lemma_row_is_short(g, i, n);
    } else {
        lemma_no_longer_row(g, from + 1, i, n);
    }
}

/// The text of an IPv6 address: one that holds an IPv4 address shows it in dots. Of any
/// other the longest row of two or more zero groups, and of several the first, is shown as a
/// double colon, and all other groups in hexadecimal digits; without such a row all eight
/// groups are shown.
pub proof fn law_v6_text_form(a: u128, i: int, n: int)
    requires
        0 <= i,
        0 < n,
        i + n <= 8,
    ensures
        ({
            let g = segments(a);
            let (start, len) = longest_zeros(g, 0);
            let zeros = forall|j: int| i <= j < i + n ==> g[j] == 0;
            &&& a / 0x1_0000_0000 == 0xffff ==> v6_display(a) == "::ffff:"@ + v4_display(
                (a % 0x1_0000_0000) as u32,
            )
            &&& a / 0x1_0000_0000 != 0xffff && len >= 2 ==> v6_display(a) == colon_text(
                g.take(start),
            ) + "::"@ + colon_text(g.skip(start + len as int))
            &&& a / 0x1_0000_0000 != 0xffff && len < 2 ==> v6_display(a) == colon_text(g)
            &&& 0 <= start && start + len <= 8
            &&& forall|j: int| start <= j < start + len ==> g[j] == 0
            &&& zeros ==> len >= n
            &&& zeros && len == n ==> start <= i
        }),
{
    let g = segments(a);
    reveal_strlit("::ffff:");
    reveal_strlit("::");
    assert("::ffff:"@ =~= seq![':', ':', 'f', 'f', 'f', 'f', ':']);
    assert("::"@ =~= seq![':', ':']);
    assert((a >> 32 == 0xffff) == (a / 0x1_0000_0000 == 0xffff) && a as u32 == a % 0x1_0000_0000)
        by (bit_vector);
    lemma_longest_zeros(g, 0);
    if forall|j: int| i <= j < i + n ==> g[j] == 0 {
        lemma_no_longer_row(g, 0, i, n);
    }
}

/// Groups are shown in hexadecimal digits with colons between them.
pub proof fn law_groups_text(g: Seq<u16>, x: u16)
    ensures
        colon_text(Seq::empty()).len() == 0,
        colon_text(seq![x]) == hex(x as nat),
        g.len() > 0 ==> colon_text(g.push(x)) == colon_text(g) + ":"@ + hex(x as nat),
{
    reveal_strlit(":");
    assert(group_texts(Seq::<u16>::empty()) =~= Seq::<Seq<char>>::empty());
    assert(group_texts(seq![x]) =~= seq![hex(x as nat)]);
    assert(group_texts(g.push(x)) =~= group_texts(g).push(hex(x as nat)));
    if g.len() > 0 {
        assert(group_texts(g).push(hex(x as nat)).drop_last() =~= group_texts(g));
        assert(colon_text(g.push(x)) =~= colon_text(g) + ":"@ + hex(x as nat));
    }
}

/// A text is read as an IPv4 address if it strictly is one, and else as an IPv6 address.
pub proof fn law_which_protocol(s: Seq<char>)
    ensures
        v4_text(s) is Some ==> addr_text(s) == Some(IpAddrUniversal::V4(v4_text(s)->0)),
        v4_text(s) is None && v6_text(s) is Some ==> addr_text(s) == Some(
            IpAddrUniversal::V6(v6_text(s)->0),
        ),
        v4_text(s) is None && v6_text(s) is None ==> addr_text(s) is None,
{
}

/// The local addresses: 0.0.0.0, 127.0.0.1 and those that start with 169.254; and of IPv6
/// ::1 and 7f00::1.
pub proof fn law_local_addresses(b: Seq<u8>, a: u128)
    requires
        b.len() == 4,
    ensures
        local_addr(IpAddrUniversal::V4(of_octets(b))) <==> (b == seq![0u8, 0, 0, 0] || b == seq![
            127u8,
            0,
            0,
            1,
        ] || (b[0] == 169 && b[1] == 254)),
        local_addr(IpAddrUniversal::V6(a)) <==> (a == 1 || a
            == 0x7f00_0000_0000_0000_0000_0000_0000_0001),
{
    law_octets_are_digits(b);
    let x = of_octets(b);
    assert(x >> 16 == x / 65_536) by (bit_vector);
    assert(b[0] == 0 && b[1] == 0 && b[2] == 0 && b[3] == 0 ==> b =~= seq![0u8, 0, 0, 0]);
    assert(b[0] == 127 && b[1] == 0 && b[2] == 0 && b[3] == 1 ==> b =~= seq![127u8, 0, 0, 1]);
}

/// Two IPv6 addresses share their subnet exactly if their first 64 bits are the same. The
/// text of the subnet is its first address with "/64". An IPv4 address, and a text that is
/// no address, has none, and is near itself alone.
pub proof fn law_subnet_is_first_half(s: Seq<char>, t: Seq<char>)
    ensures
        !(addr_text(s) matches Some(IpAddrUniversal::V6(_))) ==> subnet64(s) is None && (
        same_subnet(s, t) <==> s == t),
        addr_text(s) matches Some(IpAddrUniversal::V6(a)) ==> subnet64(s) == Some(
            v6_display((a - a % 0x1_0000_0000_0000_0000) as u128) + "/64"@,
        ) && (addr_text(t) matches Some(IpAddrUniversal::V6(b)) ==> ((subnet64(s) == subnet64(t))
            <==> a / 0x1_0000_0000_0000_0000 == b / 0x1_0000_0000_0000_0000)),
        same_subnet(s, t) <==> s == t || (subnet64(s) is Some && subnet64(s) == subnet64(t)),
        same_subnet(s, s),
        same_subnet(s, t) ==> same_subnet(t, s),
{
    reveal_strlit("/64");
    assert("/64"@ =~= seq!['/', '6', '4']);
    if let Some(IpAddrUniversal::V6(a)) = addr_text(s) {
        lemma_first_half(a);
        if let Some(IpAddrUniversal::V6(b)) = addr_text(t) {
            lemma_first_half(b);
            let x = (a >> 64) << 64;
            let y = (b >> 64) << 64;
            lemma_v6_roundtrip(x);
            lemma_v6_roundtrip(y);
            if subnet64(s) == subnet64(t) {
                let (u, v) = (subnet64(s)->0, subnet64(t)->0);
                assert(u.take(u.len() - 3) =~= v6_display(x));
                assert(v.take(v.len() - 3) =~= v6_display(y));
                assert(x == y);
            }
        }
    }
}

proof fn lemma_first_half(a: u128)
    ensures
        (a >> 64) << 64 == a - a % 0x1_0000_0000_0000_0000,
{
    assert((a >> 64) << 64 == a - a % 0x1_0000_0000_0000_0000) by (bit_vector);
}

/// The loose reading of an IPv4 address wants four numbers of at most 255 with dots between
/// them; a plus sign and leading zeros do not matter.
pub proof fn law_loose_addresses(p: Seq<Seq<char>>)
    requires
        p.len() == 4,
        forall|i: int| 0 <= i < 4 ==> !(#[trigger] p[i]).contains('.'),
        !join_on(p, '.').contains(':'),
    ensures
        ({
            let s = join_on(p, '.');
            let good = unsigned_text(p[0], 255) is Some && unsigned_text(p[1], 255) is Some
                && unsigned_text(p[2], 255) is Some && unsigned_text(p[3], 255) is Some;
            &&& valid_ip(s) <==> good
            &&& good ==> loose_v4(s) is Some && loose_v4(s)->0 == unsigned_text(p[0], 255)->0
                * 16_777_216 + unsigned_text(p[1], 255)->0 * 65_536 + unsigned_text(p[2], 255)->0
                * 256 + unsigned_text(p[3], 255)->0
            &&& !good ==> loose_v4(s) is None
        }),
{
    lemma_split_join(p, '.');
    let b = seq![
        unsigned_text(p[0], 255)->0 as u8,
        unsigned_text(p[1], 255)->0 as u8,
        unsigned_text(p[2], 255)->0 as u8,
        unsigned_text(p[3], 255)->0 as u8,
    ];
    law_octets_are_digits(b);
    if unsigned_text(p[0], 255) is Some && unsigned_text(p[1], 255) is Some && unsigned_text(
        p[2],
        255,
    ) is Some && unsigned_text(p[3], 255) is Some {
        assert(all_bytes(p));
    } else {
        if all_bytes(p) {
            assert(unsigned_text(p[0], 255) is Some && unsigned_text(p[1], 255) is Some
                && unsigned_text(p[2], 255) is Some && unsigned_text(p[3], 255) is Some);
        }
    }
}

/// A text with a colon is a valid address exactly if it is an IPv6 address.
pub proof fn law_valid_v6(s: Seq<char>)
    ensures
        s.contains(':') ==> (valid_ip(s) <==> v6_text(s) is Some) && loose_v4(s) is None,
        !s.contains(':') && split_on(s, '.').len() != 4 ==> !valid_ip(s) && loose_v4(s) is None,
{
}

/// A group is one to four hexadecimal digits, and nothing else is; its value is that of the
/// numeral. An IPv4 address counts as two groups, its upper and its lower half.
pub proof fn law_group_form(p: Seq<char>, a: u32)
    ensures
        v6_field(p) is Some <==> 1 <= p.len() && p.len() < 5 && (forall|i: int|
            0 <= i < p.len() ==> is_hex_digit(#[trigger] p[i])),
        v6_field(p) matches Some(g) ==> g == numeral_value(p, 16),
        v4_groups(a).len() == 2 && v4_groups(a)[0] == a / 65_536 && v4_groups(a)[1] == a % 65_536,
{
    if v6_field(p) is Some {
        lemma_hex_bound(p);
    }
    assert((a >> 16) as u16 == a / 65_536 && a as u16 == a % 65_536) by (bit_vector);
}

/// The last two of eight groups may be an IPv4 address in dots.
pub proof fn law_dotted_tail(parts: Seq<Seq<char>>, a: u32)
    requires
        hex_fields(parts),
        parts.len() == 6,
    ensures
        v6_text(join_on(parts, ':').push(':') + v4_display(a)) == Some(
            of_segments(field_values(parts) + v4_groups(a)),
        ),
{
    let h = join_on(parts, ':');
    let d = v4_display(a);
    let t = h.push(':') + d;
    lemma_fields_joined(parts);
    lemma_hex_fields(parts);
    lemma_v4_display_plain(a);
    lemma_v4_roundtrip(a);
    lemma_split_append(h, ':', d);
    assert(colon_parts(t) == parts.push(d));
    assert(parts.push(d).drop_last() =~= parts);
    assert(v6_field(d) is None) by {
        let k = choose|k: int| 0 <= k < d.len() && d[k] == '.';
        assert(!is_hex_digit(d[k]));
    }
    assert forall|i: int| !first_double_colon(t, i) by {
        if double_colon_at(t, i) {
            if i + 1 < h.len() {
                assert(double_colon_at(h, i));
            } else if i + 1 == h.len() {
                assert(t[i] == h.last());
            } else if i == h.len() {
                assert(t[i + 1] == d[0]);
                assert(d.contains(d[0]));
            } else {
                assert(t[i] == d[i - h.len() - 1]);
                assert(d.contains(t[i]));
            }
        }
    }
}

} // verus!
