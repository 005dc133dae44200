//! Reads the captured frames: who sent what to which port.
use vstd::prelude::*;
use vstd::slice::slice_subrange;

use crate::addr::{
    byte_pairs, law_v4_text_is_dotted, of_octets, of_segments, v4_display, v4_of_bytes, v4_to_text,
    v6_display, v6_of_bytes, v6_to_text,
};
use crate::text::dec;

verus! {

/// What a frame holds.
#[derive(Debug, Clone, Copy, PartialEq, Eq, Structural)]
pub enum PacketKind {
    /// The start of a TCP connection.
    Syn,
    /// A UDP packet.
    Udp,
    /// An ICMP packet.
    Icmp,
    /// A TCP packet of a connection to a web server.
    Http,
}

/// What was read from a frame.
#[derive(Debug, Clone)]
pub struct PacketEvent {
    /// The address that the frame came from.
    pub ip: String,
    /// The port that it went to, zero if there is none.
    pub port: u16,
    pub kind: PacketKind,
}

/// The number in two bytes, the more significant first.
pub open spec fn be16(d: Seq<u8>, i: int) -> u16 {
    (d[i] as int * 256 + d[i + 1] as int) as u16
}

/// What a TCP segment is: the start of a connection, or part of one to a web server.
pub open spec fn tcp_event(d: Seq<u8>) -> Option<(u16, PacketKind)> {
    if d.len() < 20 {
        None
    } else {
        let port = be16(d, 2);
        let syn = d[13] & 0x02 != 0;
        let ack = d[13] & 0x10 != 0;
        if syn && !ack {
            Some((port, PacketKind::Syn))
        } else if ack && (port == 80 || port == 443) {
            Some((port, PacketKind::Http))
        } else {
            None
        }
    }
}

/// What a UDP datagram is.
pub open spec fn udp_event(d: Seq<u8>) -> Option<(u16, PacketKind)> {
    if d.len() < 8 {
        None
    } else {
        Some((be16(d, 2), PacketKind::Udp))
    }
}

/// The length of an IPv4 header, from its first byte.
pub open spec fn header_length(first: u8) -> int {
    first as int % 16 * 4
}

/// What a packet of the given protocol is. ICMP has a number of its own in IPv6.
pub open spec fn payload_event(protocol: u8, ping: u8, d: Seq<u8>) -> Option<(u16, PacketKind)> {
    if protocol == 6 {
        tcp_event(d)
    } else if protocol == 17 {
        udp_event(d)
    } else if protocol == ping {
        Some((0u16, PacketKind::Icmp))
    } else {
        None
    }
}

/// An event with the address that it came from.
pub open spec fn from_source(ip: Seq<char>, event: Option<(u16, PacketKind)>) -> Option<
    (Seq<char>, u16, PacketKind),
> {
    match event {
        Some((port, kind)) => Some((ip, port, kind)),
        None => None,
    }
}

/// What an IPv4 packet is.
pub open spec fn ipv4_event(d: Seq<u8>) -> Option<(Seq<char>, u16, PacketKind)> {
    if d.len() < 20 || d[0] as int / 16 != 4 || d.len() < header_length(d[0]) + 4 {
        None
    } else {
        from_source(
            v4_display(of_octets(seq![d[12], d[13], d[14], d[15]])),
            payload_event(d[9], 1, d.skip(header_length(d[0]))),
        )
    }
}

/// What an IPv6 packet is.
pub open spec fn ipv6_event(d: Seq<u8>) -> Option<(Seq<char>, u16, PacketKind)> {
    if d.len() < 40 {
        None
    } else {
        from_source(
            v6_display(of_segments(byte_pairs(d.subrange(8, 24)))),
            payload_event(d[6], 58, d.skip(40)),
        )
    }
}

/// What an Ethernet frame is.
pub open spec fn frame_event(d: Seq<u8>) -> Option<(Seq<char>, u16, PacketKind)> {
    if d.len() < 14 {
        None
    } else if be16(d, 12) == 0x0800 {
        ipv4_event(d.skip(14))
    } else if be16(d, 12) == 0x86dd {
        ipv6_event(d.skip(14))
    } else {
        None
    }
}

/// What an event says, as plain values.
pub open spec fn event_view(e: Option<PacketEvent>) -> Option<(Seq<char>, u16, PacketKind)> {
    match e {
        Some(p) => Some((p.ip@, p.port, p.kind)),
        None => None,
    }
}

fn read_be16(d: &[u8], i: usize) -> (r: u16)
    requires
        i + 1 < d.len(),
    ensures
        r == be16(d@, i as int),
{
    d[i] as u16 * 256 + d[i + 1] as u16
}

fn read_header_length(first: u8) -> (r: usize)
    ensures
        r == header_length(first),
        r <= 60,
{
    (first % 16) as usize * 4
}

fn source_event(ip: String, event: Option<(u16, PacketKind)>) -> (r: Option<PacketEvent>)
    ensures
        event_view(r) == from_source(ip@, event),
{
    match event {
        Some((port, kind)) => Some(PacketEvent { ip, port, kind }),
        None => None,
    }
}

/// What a TCP segment is.
pub fn process_tcp(data: &[u8]) -> (r: Option<(u16, PacketKind)>)
    ensures
        r == tcp_event(data@),
{
    if data.len() < 20 {
        return None;
    }
    let port: u16 = read_be16(data, 2);
    let flags: u8 = data[13];
    let is_syn = flags & 0x02 != 0;
    let is_ack = flags & 0x10 != 0;
    if is_syn && !is_ack {
        Some((port, PacketKind::Syn))
    } else if is_ack && (port == 80 || port == 443) {
        Some((port, PacketKind::Http))
    } else {
        None
    }
}

/// What a UDP datagram is.
pub fn process_udp(data: &[u8]) -> (r: Option<(u16, PacketKind)>)
    ensures
        r == udp_event(data@),
{
    if data.len() < 8 {
        return None;
    }
    Some((read_be16(data, 2), PacketKind::Udp))
}

fn process_payload(protocol: u8, ping: u8, data: &[u8]) -> (r: Option<(u16, PacketKind)>)
    ensures
        r == payload_event(protocol, ping, data@),
{
    if protocol == 6 {
        process_tcp(data)
    } else if protocol == 17 {
        process_udp(data)
    } else if protocol == ping {
        Some((0, PacketKind::Icmp))
    } else {
        None
    }
}

/// What an IPv4 packet is.
pub fn process_ipv4(data: &[u8]) -> (r: Option<PacketEvent>)
    ensures
        event_view(r) == ipv4_event(data@),
{
    if data.len() < 20 {
        return None;
    }
    if data[0] / 16 != 4 {
        return None;
    }
    let ihl: usize = read_header_length(data[0]);
    if data.len() < ihl + 4 {
        return None;
    }
    let ip = v4_to_text(v4_of_bytes(data[12], data[13], data[14], data[15]));
    let payload = slice_subrange(data, ihl, data.len());
    assert(payload@ =~= data@.skip(ihl as int));
    source_event(ip, process_payload(data[9], 1, payload))
}

/// What an IPv6 packet is.
pub fn process_ipv6(data: &[u8]) -> (r: Option<PacketEvent>)
    ensures
        event_view(r) == ipv6_event(data@),
{
    if data.len() < 40 {
        return None;
    }
    let ip = v6_to_text(v6_of_bytes(data, 8));
    let payload = slice_subrange(data, 40, data.len());
    assert(payload@ =~= data@.skip(40));
    source_event(ip, process_payload(data[6], 58, payload))
}

/// What an Ethernet frame is.
pub fn process_packet(data: &[u8]) -> (r: Option<PacketEvent>)
    ensures
        event_view(r) == frame_event(data@),
{
    if data.len() < 14 {
        return None;
    }
    let ethertype: u16 = read_be16(data, 12);
    let rest = slice_subrange(data, 14, data.len());
    assert(rest@ =~= data@.skip(14));
    if ethertype == 0x0800 {
        process_ipv4(rest)
    } else if ethertype == 0x86dd {
        process_ipv6(rest)
    } else {
        None
    }
}

// ---------------------------------------------------------------------------
// Laws
// ---------------------------------------------------------------------------

/// Of the flags of a segment only two bits count: whether a connection is to start (bit 1)
/// and whether something is acknowledged (bit 4). A segment of at least twenty bytes that
/// starts a connection and acknowledges nothing is a start; one that acknowledges and
/// goes to port 80 or 443 is of a web connection, whatever its other six flags are; all
/// else is nothing.
pub proof fn law_tcp_segments(d: Seq<u8>, port: u16)
    requires
        d.len() >= 4 ==> port == d[2] * 256 + d[3],
    ensures
        ({
            let syn = d[13] / 2 % 2 == 1;
            let ack = d[13] / 16 % 2 == 1;
            &&& d.len() < 20 ==> tcp_event(d) is None
            &&& d.len() >= 20 && ack && (port == 80 || port == 443) ==> tcp_event(d) == Some(
                (port, PacketKind::Http),
            )
            &&& d.len() >= 20 && ack && !(port == 80 || port == 443) ==> tcp_event(d) is None
            &&& d.len() >= 20 && syn && !ack ==> tcp_event(d) == Some((port, PacketKind::Syn))
            &&& d.len() >= 20 && !syn && !ack ==> tcp_event(d) is None
        }),
{
    let f = d[13];
    assert((f & 0x10 != 0) == ((f / 16) % 2 == 1)) by (bit_vector);
    assert((f & 0x02 != 0) == ((f / 2) % 2 == 1)) by (bit_vector);
}

/// Two segments of the same length, to the same port and with the same two bits are the
/// same: nothing else in them counts, and in particular no other flag.
pub proof fn law_other_flags_do_not_count(a: Seq<u8>, b: Seq<u8>)
    requires
        a.len() == b.len(),
        a.len() > 13 ==> a[2] == b[2] && a[3] == b[3],
        a.len() > 13 ==> a[13] / 2 % 2 == b[13] / 2 % 2 && a[13] / 16 % 2 == b[13] / 16 % 2,
    ensures
        tcp_event(a) == tcp_event(b),
{
    if a.len() >= 20 {
        law_tcp_segments(a, be16(a, 2));
        law_tcp_segments(b, be16(b, 2));
    }
}

/// Every datagram of at least eight bytes is one to the port in its third and fourth
/// byte; a shorter one is nothing.
pub proof fn law_udp_datagrams(d: Seq<u8>, port: u16)
    requires
        d.len() >= 4 ==> port == d[2] * 256 + d[3],
    ensures
        d.len() >= 8 ==> udp_event(d) == Some((port, PacketKind::Udp)),
        d.len() < 8 ==> udp_event(d) is None,
{
}

/// The dotted text of four bytes.
pub open spec fn dotted(a: u8, b: u8, c: u8, d: u8) -> Seq<char> {
    dec(a as nat) + seq!['.'] + dec(b as nat) + seq!['.'] + dec(c as nat) + seq!['.'] + dec(
        d as nat,
    )
}

/// The groups of the address in the sixteen bytes from `start` on.
pub open spec fn groups_at(f: Seq<u8>, start: int) -> Seq<u16> {
    Seq::new(8, |i: int| (f[start + 2 * i] * 256 + f[start + 2 * i + 1]) as u16)
}

proof fn lemma_groups(b: Seq<u8>, f: Seq<u8>, start: int)
    requires
        0 <= start,
        start + 16 <= f.len(),
        b == f.subrange(start, start + 16),
    ensures
        byte_pairs(b) == groups_at(f, start),
{
    assert forall|i: int| 0 <= i < 8 implies #[trigger] byte_pairs(b)[i] == groups_at(
        f,
        start,
    )[i] by {
        let hi = b[2 * i];
        let lo = b[2 * i + 1];
        assert(hi == f[start + 2 * i] && lo == f[start + 2 * i + 1]);
        assert(((hi as u16) << 8) | (lo as u16) == hi * 256 + lo) by (bit_vector);
    }
    assert(byte_pairs(b) =~= groups_at(f, start));
}

proof fn lemma_dotted(a: u8, b: u8, c: u8, d: u8)
    ensures
        v4_display(of_octets(seq![a, b, c, d])) == dotted(a, b, c, d),
{
    law_v4_text_is_dotted(dotted(a, b, c, d), a, b, c, d);
}

/// A frame with the type 0800 whose packet has version 4, a header of the length that it
/// gives in words of four bytes, and at least four bytes after that comes from the
/// address in bytes 12 to 15 of the header: it is what its segment is (protocol 6), what
/// its datagram is (protocol 17), or a ping without a port (protocol 1), and else nothing.
pub proof fn law_ipv4_frames(f: Seq<u8>)
    requires
        f.len() >= 34,
        f[12] == 0x08,
        f[13] == 0x00,
        f[14] / 16 == 4,
        f.len() >= 14 + f[14] % 16 * 4 + 4,
    ensures
        ({
            let payload = f.skip(14 + f[14] % 16 * 4);
            let ip = dotted(f[26], f[27], f[28], f[29]);
            &&& f[23] == 6 ==> frame_event(f) == from_source(ip, tcp_event(payload))
            &&& f[23] == 17 ==> frame_event(f) == from_source(ip, udp_event(payload))
            &&& f[23] == 1 ==> frame_event(f) == Some((ip, 0u16, PacketKind::Icmp))
            &&& f[23] != 6 && f[23] != 17 && f[23] != 1 ==> frame_event(f) is None
        }),
{
    let d = f.skip(14);
    let h: int = f[14] % 16 * 4;
    assert(d.skip(h) =~= f.skip(14 + h));
    assert(d[0] == f[14] && d[9] == f[23]);
    assert(seq![d[12], d[13], d[14], d[15]] =~= seq![f[26], f[27], f[28], f[29]]);
    lemma_dotted(f[26], f[27], f[28], f[29]);
}

/// A frame with the type 86dd and at least forty bytes of packet comes from the address
/// in bytes 8 to 23 of the packet: it is what its segment is (next header 6), what its
/// datagram is (next header 17), or a ping without a port (next header 58), and else
/// nothing.
pub proof fn law_ipv6_frames(f: Seq<u8>)
    requires
        f.len() >= 54,
        f[12] == 0x86,
        f[13] == 0xdd,
    ensures
        ({
            let payload = f.skip(54);
            let ip = v6_display(of_segments(groups_at(f, 22)));
            &&& f[20] == 6 ==> frame_event(f) == from_source(ip, tcp_event(payload))
            &&& f[20] == 17 ==> frame_event(f) == from_source(ip, udp_event(payload))
            &&& f[20] == 58 ==> frame_event(f) == Some((ip, 0u16, PacketKind::Icmp))
            &&& f[20] != 6 && f[20] != 17 && f[20] != 58 ==> frame_event(f) is None
        }),
{
    let d = f.skip(14);
    assert(d.skip(40) =~= f.skip(54));
    assert(d.subrange(8, 24) =~= f.subrange(22, 38));
    lemma_groups(d.subrange(8, 24), f, 22);
    assert(d[6] == f[20]);
}

/// What was sent is passed on with its source.
pub proof fn law_source_is_kept(ip: Seq<char>, event: Option<(u16, PacketKind)>)
    ensures
        event is None <==> from_source(ip, event) is None,
        event matches Some((port, kind)) ==> from_source(ip, event) == Some((ip, port, kind)),
{
}

/// Frames that are too short, of another type, or of IPv4 with a broken header are
/// nothing.
pub proof fn law_other_frames_are_nothing(f: Seq<u8>)
    requires
        f.len() < 14 || !((f[12] == 0x08 && f[13] == 0x00) || (f[12] == 0x86 && f[13] == 0xdd)) || (
        f[12] == 0x08 && (f.len() < 34 || f[14] / 16 != 4 || f.len() < 14 + f[14] % 16 * 4 + 4))
            || (f[12] == 0x86 && f.len() < 54),
    ensures
        frame_event(f) is None,
{
}

} // verus!
