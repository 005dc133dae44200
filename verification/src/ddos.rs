//! Floods in captured traffic: counts the frames of each source in a sliding window,
//! bans sources, and notices when many sources attack one port.
use vstd::prelude::*;

use crate::antiflood;
use crate::antiflood::{
    bump, dangerous_list, dangerous_ports, ip_type, ip_type_of, is_dangerous_port, next_count,
    optional_count, optional_text, udp_list, udp_ports, FORGET_NANOS,
};
use crate::packet::{event_view, frame_event, process_packet, PacketKind};
use crate::ranges::{is_private_ip, private_ip};
use crate::table::Table;
use crate::text::{
    contains_text, copy_texts, dec, decimal, number_text, port_text, push_text, views, with_number,
    with_text,
};
use crate::timeline::{
    lemma_cleaned_sound, lemma_event_sound, lemma_later_sound, lemma_no_events, lemma_sound_agrees,
    lists_agree, sound, EventLists, Place,
};
use crate::window::{
    age, port_event, port_len, port_times, prune, prune_ports, purged, push_port, recent,
    recent_ports, with_source, PortAttackers,
};

verus! {

/// The number of nanoseconds in a second.
pub const NANOS: u128 = 1_000_000_000;

/// The kinds of attack.
#[derive(Debug, Clone, Copy, PartialEq, Eq, Structural)]
pub enum FloodType {
    SynFlood,
    UdpFlood,
    IcmpFlood,
    HttpFlood,
    SshBrute,
    /// No attack.
    NoFlood,
}

/// From how many frames on a source is banned, from how many sources on a port is under
/// attack, how long a ban lasts and from which number on it does not end.
#[derive(Debug, Clone, Copy, PartialEq, Eq, Structural)]
pub struct DdosThresholds {
    pub syn: usize,
    pub udp: usize,
    pub icmp: usize,
    pub http: usize,
    pub ssh: usize,
    pub ddos_sources: usize,
    pub ban_duration: u64,
    pub permanent_after: u32,
}

/// The thresholds that hold unless others are set.
pub open spec fn base_thresholds() -> DdosThresholds {
    DdosThresholds {
        syn: 100,
        udp: 150,
        icmp: 200,
        http: 500,
        ssh: 40,
        ddos_sources: 10,
        ban_duration: 600,
        permanent_after: 5,
    }
}

// ---------------------------------------------------------------------------
// One source
// ---------------------------------------------------------------------------

/// What is known of one source.
pub ghost struct SourceModel {
    pub syn: Map<u16, Seq<u64>>,
    pub udp: Map<u16, Seq<u64>>,
    pub icmp: Seq<u64>,
    pub http: Seq<u64>,
    pub total: Seq<u64>,
    pub banned_until: Option<u128>,
    pub ban_count: u32,
    pub permanent: bool,
    pub reason: Option<Seq<char>>,
}

/// A source that nothing was seen of.
pub open spec fn fresh_source() -> SourceModel {
    SourceModel {
        syn: Map::empty(),
        udp: Map::empty(),
        icmp: Seq::empty(),
        http: Seq::empty(),
        total: Seq::empty(),
        banned_until: None,
        ban_count: 0,
        permanent: false,
        reason: None,
    }
}

/// Whether the source is banned: for good, or until a moment that lies ahead.
pub open spec fn source_banned(c: SourceModel, now: u64) -> bool {
    c.permanent || match c.banned_until {
        Some(t) => now < t,
        None => false,
    }
}

/// The source without the frames that have left the window.
pub open spec fn source_cleaned(c: SourceModel, now: u64) -> SourceModel {
    SourceModel {
        syn: recent_ports(c.syn, now),
        udp: recent_ports(c.udp, now),
        icmp: recent(c.icmp, now),
        http: recent(c.http, now),
        total: recent(c.total, now),
        ..c
    }
}

/// The source after one more frame.
pub open spec fn source_recorded(
    c: SourceModel,
    kind: PacketKind,
    port: u16,
    now: u64,
) -> SourceModel {
    let d = source_cleaned(c, now);
    let total = d.total.push(now);
    match kind {
        PacketKind::Syn => SourceModel { syn: port_event(d.syn, port, now), total, ..d },
        PacketKind::Udp => SourceModel { udp: port_event(d.udp, port, now), total, ..d },
        PacketKind::Icmp => SourceModel { icmp: d.icmp.push(now), total, ..d },
        PacketKind::Http => SourceModel { http: d.http.push(now), total, ..d },
    }
}

/// The source after one more ban of so many seconds.
pub open spec fn source_ban_applied(
    c: SourceModel,
    permanent_after: u32,
    duration: u64,
    now: u64,
) -> SourceModel {
    let ban_count = (c.ban_count + 1) as u32;
    if ban_count >= permanent_after {
        SourceModel { ban_count, permanent: true, ..c }
    } else {
        SourceModel { ban_count, banned_until: Some((now + duration * NANOS) as u128), ..c }
    }
}

/// The first of the ports that received more than `threshold` frames.
pub open spec fn first_beyond(
    ports: Seq<u16>,
    m: Map<u16, Seq<u64>>,
    threshold: usize,
) -> Option<u16>
    decreases ports.len(),
{
    if ports.len() == 0 {
        None
    } else if port_times(m, ports[0]).len() > threshold {
        Some(ports[0])
    } else {
        first_beyond(ports.skip(1), m, threshold)
    }
}

/// Which attack the frames of a source amount to, on which port, and with how many
/// frames. What is more telling comes first.
pub open spec fn source_analysis(c: SourceModel, t: DdosThresholds) -> (FloodType, u16, nat) {
    let ssh = port_times(c.syn, 22).len();
    if ssh > t.ssh {
        (FloodType::SshBrute, 22u16, ssh)
    } else if c.http.len() > t.http {
        (FloodType::HttpFlood, 443u16, c.http.len())
    } else if let Some(p) = first_beyond(udp_ports(), c.udp, t.udp) {
        (FloodType::UdpFlood, p, port_times(c.udp, p).len())
    } else if c.icmp.len() > t.icmp {
        (FloodType::IcmpFlood, 0u16, c.icmp.len())
    } else if let Some(p) = first_beyond(dangerous_ports(), c.syn, t.syn) {
        (FloodType::SynFlood, p, port_times(c.syn, p).len())
    } else {
        (FloodType::NoFlood, 0u16, 0nat)
    }
}

/// The frames of one source, and its bans.
pub struct DdosCounter {
    syn_packets: Table<u16, Vec<u64>>,
    udp_packets: Table<u16, Vec<u64>>,
    icmp_packets: Vec<u64>,
    http_requests: Vec<u64>,
    total: Vec<u64>,
    banned_until: Option<u128>,
    ban_count: u32,
    permanent_ban: bool,
    ban_reason: Option<String>,
}

impl View for DdosCounter {
    type V = SourceModel;

    closed spec fn view(&self) -> SourceModel {
        SourceModel {
            syn: self.syn_packets@,
            udp: self.udp_packets@,
            icmp: self.icmp_packets@,
            http: self.http_requests@,
            total: self.total@,
            banned_until: self.banned_until,
            ban_count: self.ban_count,
            permanent: self.permanent_ban,
            reason: optional_text(self.ban_reason),
        }
    }
}

impl DdosCounter {
    /// The tables hold each port once, and another ban can be counted unless the source
    /// is banned for good.
    pub closed spec fn wf(&self) -> bool {
        &&& self.syn_packets.wf()
        &&& self.udp_packets.wf()
        &&& (!self.permanent_ban ==> self.ban_count < u32::MAX)
    }

    /// A source that nothing was seen of.
    pub fn new() -> (r: Self)
        ensures
            r.wf(),
            r@ == fresh_source(),
    {
        DdosCounter {
            syn_packets: Table::new(),
            udp_packets: Table::new(),
            icmp_packets: Vec::new(),
            http_requests: Vec::new(),
            total: Vec::new(),
            banned_until: None,
            ban_count: 0,
            permanent_ban: false,
            ban_reason: None,
        }
    }

    /// Drops the frames that have left the window.
    pub fn cleanup(&mut self, now: u64)
        requires
            old(self).wf(),
        ensures
            final(self).wf(),
            final(self)@ == source_cleaned(old(self)@, now),
    {
        prune_ports(&mut self.syn_packets, now);
        prune_ports(&mut self.udp_packets, now);
        prune(&mut self.icmp_packets, now);
        prune(&mut self.http_requests, now);
        prune(&mut self.total, now);
    }

    /// Counts the start of a connection to a port.
    pub fn record_syn(&mut self, port: u16, now: u64)
        requires
            old(self).wf(),
        ensures
            final(self).wf(),
            final(self)@ == source_recorded(old(self)@, PacketKind::Syn, port, now),
    {
        self.cleanup(now);
        push_port(&mut self.syn_packets, port, now);
        self.total.push(now);
    }

    /// Counts a UDP packet to a port.
    pub fn record_udp(&mut self, port: u16, now: u64)
        requires
            old(self).wf(),
        ensures
            final(self).wf(),
            final(self)@ == source_recorded(old(self)@, PacketKind::Udp, port, now),
    {
        self.cleanup(now);
        push_port(&mut self.udp_packets, port, now);
        self.total.push(now);
    }

    /// Counts an ICMP packet.
    pub fn record_icmp(&mut self, now: u64)
        requires
            old(self).wf(),
        ensures
            final(self).wf(),
            final(self)@ == source_recorded(old(self)@, PacketKind::Icmp, 0, now),
    {
        self.cleanup(now);
        self.icmp_packets.push(now);
        self.total.push(now);
    }

    /// Counts an HTTP request.
    pub fn record_http(&mut self, now: u64)
        requires
            old(self).wf(),
        ensures
            final(self).wf(),
            final(self)@ == source_recorded(old(self)@, PacketKind::Http, 80, now),
    {
        self.cleanup(now);
        self.http_requests.push(now);
        self.total.push(now);
    }

    /// Counts a frame.
    fn record(&mut self, kind: PacketKind, port: u16, now: u64)
        requires
            old(self).wf(),
        ensures
            final(self).wf(),
            final(self)@ == source_recorded(old(self)@, kind, port, now),
    {
        match kind {
            PacketKind::Syn => self.record_syn(port, now),
            PacketKind::Udp => self.record_udp(port, now),
            PacketKind::Icmp => self.record_icmp(now),
            PacketKind::Http => self.record_http(now),
        }
    }

    /// Whether the source is banned.
    pub fn is_banned(&self, now: u64) -> (r: bool)
        ensures
            r == source_banned(self@, now),
    {
        if self.permanent_ban {
            return true;
        }
        match self.banned_until {
            Some(t) => (now as u128) < t,
            None => false,
        }
    }

    /// Bans the source once more; says whether it was banned often enough for the ban to
    /// be for good.
    pub fn ban(&mut self, permanent_after: u32, ban_duration_secs: u64, now: u64) -> (r: bool)
        requires
            old(self).wf(),
            old(self)@.ban_count < u32::MAX,
        ensures
            final(self).wf(),
            final(self)@ == source_ban_applied(
                old(self)@,
                permanent_after,
                ban_duration_secs,
                now,
            ),
            r == (final(self)@.ban_count >= permanent_after),
    {
        self.ban_count += 1;
        if self.ban_count >= permanent_after {
            self.permanent_ban = true;
            return true;
        }
        assert(ban_duration_secs * NANOS <= 0xffff_ffff_ffff_ffff * NANOS) by (nonlinear_arith)
            requires
                ban_duration_secs <= 0xffff_ffff_ffff_ffffu64,
        ;
        self.banned_until = Some(now as u128 + ban_duration_secs as u128 * NANOS);
        false
    }

    /// Whether the source stays on record.
    fn is_remembered(&self, now: u64) -> (r: bool)
        ensures
            r == source_remembered(self@, now),
    {
        if self.total.len() == 0 {
            return false;
        }
        let last: u64 = self.total[self.total.len() - 1];
        now.saturating_sub(last) <= FORGET_NANOS || self.is_banned(now)
    }
}

/// Whether a source stays on record: it has frames in the list, and the latest of them is
/// not long ago or the source is banned.
pub open spec fn source_remembered(c: SourceModel, now: u64) -> bool {
    c.total.len() > 0 && (age(c.total.last(), now) <= FORGET_NANOS || source_banned(c, now))
}

// ---------------------------------------------------------------------------
// All sources
// ---------------------------------------------------------------------------

/// What the protector knows.
pub ghost struct DdosModel {
    pub counters: Map<Seq<char>, SourceModel>,
    pub attackers: Map<u16, Map<Seq<char>, u64>>,
    pub packets_captured: u64,
    pub syn_detected: u64,
    pub udp_detected: u64,
    pub icmp_detected: u64,
    pub http_detected: u64,
    pub ssh_detected: u64,
    pub ddos_detected: u64,
    pub bans_issued: u64,
    pub real_ban: bool,
    pub learning_mode: bool,
    pub thresholds: DdosThresholds,
    pub whitelist: Seq<Seq<char>>,
}

/// A protector that has seen nothing.
pub open spec fn fresh_protector(real_ban: bool, learning_mode: bool) -> DdosModel {
    DdosModel {
        counters: Map::empty(),
        attackers: Map::empty(),
        packets_captured: 0,
        syn_detected: 0,
        udp_detected: 0,
        icmp_detected: 0,
        http_detected: 0,
        ssh_detected: 0,
        ddos_detected: 0,
        bans_issued: 0,
        real_ban,
        learning_mode,
        thresholds: base_thresholds(),
        whitelist: Seq::empty(),
    }
}

/// A ban that was issued.
pub ghost struct DdosBanModel {
    pub flood_type: FloodType,
    pub port: u16,
    pub count: nat,
    pub permanent: bool,
    pub reason: Seq<char>,
    pub kind: PacketKind,
    pub firewall: bool,
}

/// What came of one frame: the ban that was issued, and how many sources attack the port.
pub ghost struct DdosOutcomeModel {
    pub ban: Option<DdosBanModel>,
    pub ddos: Option<nat>,
}

/// What is known of a source.
pub open spec fn source_of(counters: Map<Seq<char>, SourceModel>, ip: Seq<char>) -> SourceModel {
    if counters.contains_key(ip) {
        counters[ip]
    } else {
        fresh_source()
    }
}

/// Whether frames of the source are left out of account: it is never to be banned, or it
/// is banned already.
pub open spec fn source_ignored(m: DdosModel, ip: Seq<char>, now: u64) -> bool {
    private_ip(ip) || m.whitelist.contains(ip) || source_banned(source_of(m.counters, ip), now)
}

/// Why a source was banned.
pub open spec fn flood_reason(kind: FloodType, port: u16) -> Seq<char> {
    match kind {
        FloodType::SynFlood => "SYN-FLOOD порт "@ + port_text(port),
        FloodType::UdpFlood => "UDP-FLOOD порт "@ + port_text(port),
        FloodType::IcmpFlood => "ICMP-FLOOD"@,
        FloodType::HttpFlood => "HTTP-FLOOD"@,
        FloodType::SshBrute => "SSH-BRUTE"@,
        FloodType::NoFlood => "UNKNOWN"@,
    }
}

/// The next value of a counter if it is the one concerned.
pub open spec fn bump_if(b: bool, n: u64) -> u64 {
    if b {
        bump(n)
    } else {
        n
    }
}

/// The protector after it was seen what the frames of a source amount to.
pub open spec fn judged(
    m: DdosModel,
    ip: Seq<char>,
    kind: PacketKind,
    c: SourceModel,
    now: u64,
) -> (DdosModel, Option<DdosBanModel>) {
    let found = source_analysis(c, m.thresholds);
    let t = found.0;
    if t == FloodType::NoFlood {
        (DdosModel { counters: m.counters.insert(ip, c), ..m }, None)
    } else {
        let d = source_ban_applied(
            c,
            m.thresholds.permanent_after,
            m.thresholds.ban_duration,
            now,
        );
        let reason = flood_reason(t, found.1);
        (
            DdosModel {
                counters: m.counters.insert(ip, SourceModel { reason: Some(reason), ..d }),
                bans_issued: bump(m.bans_issued),
                syn_detected: bump_if(t == FloodType::SynFlood, m.syn_detected),
                udp_detected: bump_if(t == FloodType::UdpFlood, m.udp_detected),
                icmp_detected: bump_if(t == FloodType::IcmpFlood, m.icmp_detected),
                http_detected: bump_if(t == FloodType::HttpFlood, m.http_detected),
                ssh_detected: bump_if(t == FloodType::SshBrute, m.ssh_detected),
                ..m
            },
            Some(
                DdosBanModel {
                    flood_type: t,
                    port: found.1,
                    count: found.2,
                    permanent: d.permanent,
                    reason,
                    kind,
                    firewall: m.real_ban && !m.learning_mode,
                },
            ),
        )
    }
}

/// The protector after a source was seen on a port, and how many sources attack it.
pub open spec fn port_watched(
    m: DdosModel,
    ip: Seq<char>,
    port: u16,
    now: u64,
) -> (DdosModel, Option<nat>) {
    if dangerous_ports().contains(port) {
        let attackers = with_source(m.attackers, port, ip, now);
        let sources = attackers[port].dom().len();
        let attacked = sources >= m.thresholds.ddos_sources;
        (
            DdosModel { attackers, ddos_detected: bump_if(attacked, m.ddos_detected), ..m },
            if attacked {
                Some(sources)
            } else {
                None
            },
        )
    } else {
        (m, None)
    }
}

/// The protector after a frame, and what came of it.
pub open spec fn event_recorded(
    m: DdosModel,
    ip: Seq<char>,
    port: u16,
    kind: PacketKind,
    now: u64,
) -> (DdosModel, DdosOutcomeModel) {
    if source_ignored(m, ip, now) {
        (m, DdosOutcomeModel { ban: None, ddos: None })
    } else {
        let c = source_recorded(source_of(m.counters, ip), kind, port, now);
        let (m1, ban) = judged(m, ip, kind, c, now);
        let (m2, ddos) = port_watched(m1, ip, port, now);
        (m2, DdosOutcomeModel { ban, ddos })
    }
}

/// The protector after a frame was looked at, and what came of it.
pub open spec fn frame_processed(m: DdosModel, frame: Seq<u8>, now: u64) -> (
    DdosModel,
    DdosOutcomeModel,
) {
    match frame_event(frame) {
        Some((ip, port, kind)) => event_recorded(m, ip, port, kind, now),
        None => (m, DdosOutcomeModel { ban: None, ddos: None }),
    }
}

/// The protector after a frame was captured.
pub open spec fn frame_counted(m: DdosModel) -> DdosModel {
    DdosModel { packets_captured: bump(m.packets_captured), ..m }
}

/// The protector after a cleanup.
pub open spec fn ddos_tidied(m: DdosModel, now: u64) -> DdosModel {
    DdosModel {
        counters: m.counters.restrict(
            Set::new(
                |ip: Seq<char>|
                    m.counters.contains_key(ip) && source_remembered(m.counters[ip], now),
            ),
        ),
        attackers: purged(m.attackers, now),
        ..m
    }
}

/// What the status report says.
pub open spec fn ddos_report(m: DdosModel) -> Seq<Seq<char>> {
    seq![
        "   DDoS Protection v1.0:"@,
        "     Пакетов захвачено: "@ + number_text(m.packets_captured),
        "     SYN flood: "@ + number_text(m.syn_detected),
        "     UDP flood: "@ + number_text(m.udp_detected),
        "     ICMP flood: "@ + number_text(m.icmp_detected),
        "     HTTP flood: "@ + number_text(m.http_detected),
        "     SSH brute: "@ + number_text(m.ssh_detected),
        "     DDoS обнаружено: "@ + number_text(m.ddos_detected),
        "     Баннов выдано: "@ + number_text(m.bans_issued),
        "     Режим: "@ + mode_name(m.learning_mode),
    ]
}

/// The mode that the protector works in.
pub open spec fn mode_name(learning_mode: bool) -> Seq<char> {
    if learning_mode {
        "ОБУЧЕНИЕ"@
    } else {
        "АКТИВНЫЙ"@
    }
}

/// A ban that was issued.
#[derive(Debug, Clone)]
pub struct DdosBan {
    pub flood_type: FloodType,
    pub port: u16,
    pub count: usize,
    pub permanent: bool,
    pub reason: String,
    /// The kind of the last frame, under which the flood detector is told.
    pub kind: PacketKind,
    /// Whether the firewall is to be told.
    pub firewall: bool,
}

impl View for DdosBan {
    type V = DdosBanModel;

    open spec fn view(&self) -> DdosBanModel {
        DdosBanModel {
            flood_type: self.flood_type,
            port: self.port,
            count: self.count as nat,
            permanent: self.permanent,
            reason: self.reason@,
            kind: self.kind,
            firewall: self.firewall,
        }
    }
}

/// The port and the kind under which the flood detector is told of a ban.
pub open spec fn told_as(port: u16, kind: PacketKind) -> (u16, antiflood::PacketKind) {
    match kind {
        PacketKind::Syn => (port, antiflood::PacketKind::Tcp),
        PacketKind::Udp => (port, antiflood::PacketKind::Udp),
        PacketKind::Icmp => (0, antiflood::PacketKind::Icmp),
        PacketKind::Http => (80, antiflood::PacketKind::Http),
    }
}

impl DdosBan {
    /// The port and the kind under which the flood detector is told of the ban.
    pub fn tell_as(&self) -> (r: (u16, antiflood::PacketKind))
        ensures
            r == told_as(self@.port, self@.kind),
    {
        match self.kind {
            PacketKind::Syn => (self.port, antiflood::PacketKind::Tcp),
            PacketKind::Udp => (self.port, antiflood::PacketKind::Udp),
            PacketKind::Icmp => (0, antiflood::PacketKind::Icmp),
            PacketKind::Http => (80, antiflood::PacketKind::Http),
        }
    }
}

/// What came of one frame.
#[derive(Debug, Clone)]
pub struct DdosOutcome {
    pub ban: Option<DdosBan>,
    /// How many sources attack the port, where they are many.
    pub ddos: Option<usize>,
}

impl View for DdosOutcome {
    type V = DdosOutcomeModel;

    open spec fn view(&self) -> DdosOutcomeModel {
        DdosOutcomeModel {
            ban: match self.ban {
                Some(b) => Some(b@),
                None => None,
            },
            ddos: optional_count(self.ddos),
        }
    }
}

/// The numbers of what the protector has found.
#[derive(Debug, Clone, Copy, PartialEq, Eq, Structural)]
pub struct DdosCounts {
    pub packets_captured: u64,
    pub syn_detected: u64,
    pub udp_detected: u64,
    pub icmp_detected: u64,
    pub http_detected: u64,
    pub ssh_detected: u64,
    pub ddos_detected: u64,
    pub bans_issued: u64,
}

/// Finds floods in captured traffic and bans their sources.
pub struct DdosProtector {
    counters: Table<String, DdosCounter>,
    port_attackers: PortAttackers,
    pub packets_captured: u64,
    pub syn_detected: u64,
    pub udp_detected: u64,
    pub icmp_detected: u64,
    pub http_detected: u64,
    pub ssh_detected: u64,
    pub ddos_detected: u64,
    pub bans_issued: u64,
    pub real_ban: bool,
    pub learning_mode: bool,
    thresholds: DdosThresholds,
    whitelist: Vec<String>,
}

impl View for DdosProtector {
    type V = DdosModel;

    closed spec fn view(&self) -> DdosModel {
        DdosModel {
            counters: self.counters@,
            attackers: self.port_attackers@,
            packets_captured: self.packets_captured,
            syn_detected: self.syn_detected,
            udp_detected: self.udp_detected,
            icmp_detected: self.icmp_detected,
            http_detected: self.http_detected,
            ssh_detected: self.ssh_detected,
            ddos_detected: self.ddos_detected,
            bans_issued: self.bans_issued,
            real_ban: self.real_ban,
            learning_mode: self.learning_mode,
            thresholds: self.thresholds,
            whitelist: views(self.whitelist@),
        }
    }
}

/// The first of the ports that received more than `threshold` frames.
fn find_beyond(ports: &Vec<u16>, table: &Table<u16, Vec<u64>>, threshold: usize) -> (r: Option<u16>)
    requires
        table.wf(),
    ensures
        r == first_beyond(ports@, table@, threshold),
{
    let mut i: usize = 0;
    assert(ports@.skip(0) =~= ports@);
    while i < ports.len()
        invariant
            i <= ports.len(),
            table.wf(),
            first_beyond(ports@, table@, threshold) == first_beyond(
                ports@.skip(i as int),
                table@,
                threshold,
            ),
        decreases ports.len() - i,
    {
        if port_len(table, ports[i]) > threshold {
            return Some(ports[i]);
        }
        assert(ports@.skip(i as int).skip(1) =~= ports@.skip(i + 1));
        i += 1;
    }
    None
}

/// Why a source was banned.
fn flood_reason_text(kind: FloodType, port: u16) -> (r: String)
    ensures
        r@ == flood_reason(kind, port),
{
    match kind {
        FloodType::SynFlood => numbered("SYN-FLOOD порт ", port),
        FloodType::UdpFlood => numbered("UDP-FLOOD порт ", port),
        FloodType::IcmpFlood => "ICMP-FLOOD".to_owned(),
        FloodType::HttpFlood => "HTTP-FLOOD".to_owned(),
        FloodType::SshBrute => "SSH-BRUTE".to_owned(),
        FloodType::NoFlood => "UNKNOWN".to_owned(),
    }
}

fn numbered(label: &str, port: u16) -> (r: String)
    ensures
        r@ == label@ + port_text(port),
{
    with_number(label, port as u64)
}

/// Where the counter of a source stands; a new one is made for a source that has none.
fn source_slot(counters: &mut Table<String, DdosCounter>, ip: &str) -> (i: usize)
    requires
        old(counters).wf(),
        forall|j: int|
            0 <= j < old(counters).values().len() ==> (#[trigger] old(counters).values()[j]).wf(),
    ensures
        final(counters).wf(),
        forall|j: int|
            0 <= j < final(counters).values().len() ==> (#[trigger] final(
                counters
            ).values()[j]).wf(),
        i < final(counters).values().len(),
        final(counters).keys()[i as int] == ip@,
        final(counters).values()[i as int]@ == source_of(old(counters)@, ip@),
        old(counters)@.contains_key(ip@) ==> final(counters)@ == old(counters)@,
        !old(counters)@.contains_key(ip@) ==> final(counters)@ == old(counters)@.insert(
            ip@,
            fresh_source(),
        ),
{
    let key = ip.to_owned();
    match counters.position(&key) {
        Some(i) => i,
        None => {
            let i: usize = counters.len();
            counters.add_new(key, DdosCounter::new());
            i
        },
    }
}

/// Which attack the frames of a source amount to, on which port, and with how many.
pub fn analyze(counter: &DdosCounter, t: &DdosThresholds) -> (r: (FloodType, u16, usize))
    requires
        counter.wf(),
    ensures
        r.0 == source_analysis(counter@, *t).0,
        r.1 == source_analysis(counter@, *t).1,
        r.2 == source_analysis(counter@, *t).2,
{
    let ssh: usize = port_len(&counter.syn_packets, 22);
    if ssh > t.ssh {
        return (FloodType::SshBrute, 22, ssh);
    }
    let http: usize = counter.http_requests.len();
    if http > t.http {
        return (FloodType::HttpFlood, 443, http);
    }
    if let Some(p) = find_beyond(&udp_list(), &counter.udp_packets, t.udp) {
        return (FloodType::UdpFlood, p, port_len(&counter.udp_packets, p));
    }
    let icmp: usize = counter.icmp_packets.len();
    if icmp > t.icmp {
        return (FloodType::IcmpFlood, 0, icmp);
    }
    if let Some(p) = find_beyond(&dangerous_list(), &counter.syn_packets, t.syn) {
        return (FloodType::SynFlood, p, port_len(&counter.syn_packets, p));
    }
    (FloodType::NoFlood, 0, 0)
}

impl DdosProtector {
    /// The counters and the tables of attackers are well-formed.
    pub closed spec fn wf(&self) -> bool {
        &&& self.counters.wf()
        &&& forall|j: int|
            0 <= j < self.counters.values().len() ==> (#[trigger] self.counters.values()[j]).wf()
        &&& self.port_attackers.wf()
    }

    /// A protector that has seen nothing.
    pub fn new(real_ban: bool, learning_mode: bool) -> (r: Self)
        ensures
            r.wf(),
            r@ == fresh_protector(real_ban, learning_mode),
    {
        let thresholds = DdosThresholds {
            syn: 100,
            udp: 150,
            icmp: 200,
            http: 500,
            ssh: 40,
            ddos_sources: 10,
            ban_duration: 600,
            permanent_after: 5,
        };
        let r = DdosProtector {
            counters: Table::new(),
            port_attackers: PortAttackers::new(),
            packets_captured: 0,
            syn_detected: 0,
            udp_detected: 0,
            icmp_detected: 0,
            http_detected: 0,
            ssh_detected: 0,
            ddos_detected: 0,
            bans_issued: 0,
            real_ban,
            learning_mode,
            thresholds,
            whitelist: Vec::new(),
        };
        assert(r@.whitelist =~= Seq::empty());
        r
    }

    /// Sets the thresholds.
    pub fn set_thresholds(
        &mut self,
        syn: usize,
        udp: usize,
        icmp: usize,
        http: usize,
        ssh: usize,
        ddos_sources: usize,
        ban_duration: u64,
        permanent_after: u32,
    )
        requires
            old(self).wf(),
        ensures
            final(self).wf(),
            final(self)@ == (DdosModel {
                thresholds: DdosThresholds {
                    syn,
                    udp,
                    icmp,
                    http,
                    ssh,
                    ddos_sources,
                    ban_duration,
                    permanent_after,
                },
                ..old(self)@
            }),
    {
        self.thresholds = DdosThresholds {
            syn,
            udp,
            icmp,
            http,
            ssh,
            ddos_sources,
            ban_duration,
            permanent_after,
        };
    }

    /// Sets the addresses that are never banned.
    pub fn set_whitelist(&mut self, ips: &Vec<String>)
        requires
            old(self).wf(),
        ensures
            final(self).wf(),
            final(self)@ == (DdosModel { whitelist: views(ips@), ..old(self)@ }),
    {
        self.whitelist = copy_texts(ips);
    }

    /// The numbers of what was found so far.
    pub fn counts(&self) -> (r: DdosCounts)
        ensures
            r.packets_captured == self@.packets_captured,
            r.syn_detected == self@.syn_detected,
            r.udp_detected == self@.udp_detected,
            r.icmp_detected == self@.icmp_detected,
            r.http_detected == self@.http_detected,
            r.ssh_detected == self@.ssh_detected,
            r.ddos_detected == self@.ddos_detected,
            r.bans_issued == self@.bans_issued,
    {
        DdosCounts {
            packets_captured: self.packets_captured,
            syn_detected: self.syn_detected,
            udp_detected: self.udp_detected,
            icmp_detected: self.icmp_detected,
            http_detected: self.http_detected,
            ssh_detected: self.ssh_detected,
            ddos_detected: self.ddos_detected,
            bans_issued: self.bans_issued,
        }
    }

    /// Counts a captured frame.
    pub fn count_frame(&mut self)
        requires
            old(self).wf(),
        ensures
            final(self).wf(),
            final(self)@ == frame_counted(old(self)@),
    {
        self.packets_captured = next_count(self.packets_captured);
    }

    /// Looks at a captured frame and finds out what comes of it.
    pub fn process_packet(&mut self, data: &[u8], now: u64) -> (r: DdosOutcome)
        requires
            old(self).wf(),
        ensures
            final(self).wf(),
            final(self)@ == frame_processed(old(self)@, data@, now).0,
            r@ == frame_processed(old(self)@, data@, now).1,
    {
        let event = process_packet(data);
        assert(event_view(event) == frame_event(data@));
        match event {
            Some(e) => self.record_event(e.ip.as_str(), e.port, e.kind, now),
            None => DdosOutcome { ban: None, ddos: None },
        }
    }

    /// Counts a frame of a source and finds out what comes of it.
    pub fn record_event(&mut self, ip: &str, port: u16, kind: PacketKind, now: u64) -> (r:
        DdosOutcome)
        requires
            old(self).wf(),
        ensures
            final(self).wf(),
            final(self)@ == event_recorded(old(self)@, ip@, port, kind, now).0,
            r@ == event_recorded(old(self)@, ip@, port, kind, now).1,
    {
        let ghost m = self@;
        if is_private_ip(ip) || contains_text(&self.whitelist, ip) {
            return DdosOutcome { ban: None, ddos: None };
        }
        let i: usize = source_slot(&mut self.counters, ip);
        let ghost mid = self.counters;
        proof {
            Self::lemma_slot(mid, i);
        }
        if self.counters.value_at(i).is_banned(now) {
            return DdosOutcome { ban: None, ddos: None };
        }
        let counter = self.counters.value_mut(i);
        counter.record(kind, port, now);
        let ghost c = counter@;
        let (flood_type, flood_port, count) = analyze(counter, &self.thresholds);
        let mut ban: Option<DdosBan> = None;
        if flood_type != FloodType::NoFlood {
            let permanent = counter.ban(
                self.thresholds.permanent_after,
                self.thresholds.ban_duration,
                now,
            );
            let reason = flood_reason_text(flood_type, flood_port);
            counter.ban_reason = Some(reason.as_str().to_owned());
            self.bans_issued = next_count(self.bans_issued);
            match flood_type {
                FloodType::SynFlood => {
                    self.syn_detected = next_count(self.syn_detected);
                },
                FloodType::UdpFlood => {
                    self.udp_detected = next_count(self.udp_detected);
                },
                FloodType::IcmpFlood => {
                    self.icmp_detected = next_count(self.icmp_detected);
                },
                FloodType::HttpFlood => {
                    self.http_detected = next_count(self.http_detected);
                },
                FloodType::SshBrute => {
                    self.ssh_detected = next_count(self.ssh_detected);
                },
                FloodType::NoFlood => {},
            }
            ban = Some(
                DdosBan {
                    flood_type,
                    port: flood_port,
                    count,
                    permanent,
                    reason,
                    kind,
                    firewall: self.real_ban && !self.learning_mode,
                },
            );
        }
        let ghost v = *counter;
        proof {
            Self::lemma_slot_set(mid, self.counters, i, v);
            assert(self@.counters =~= judged(m, ip@, kind, c, now).0.counters);
            assert(self@ == judged(m, ip@, kind, c, now).0);
        }
        let ddos = self.watch_port(ip, port, now);
        DdosOutcome { ban, ddos }
    }

    proof fn lemma_slot(counters: Table<String, DdosCounter>, i: usize)
        requires
            counters.wf(),
            i < counters.keys().len(),
        ensures
            counters@.contains_key(counters.keys()[i as int]),
            counters@[counters.keys()[i as int]] == counters.values()[i as int]@,
    {
        counters.lemma_at(i as int);
    }

    proof fn lemma_slot_set(
        before: Table<String, DdosCounter>,
        after: Table<String, DdosCounter>,
        i: usize,
        v: DdosCounter,
    )
        requires
            before.wf(),
            0 <= i < before.keys().len(),
            after.keys() == before.keys(),
            after.values() == before.values().update(i as int, v),
        ensures
            after.wf(),
            after@ == before@.insert(before.keys()[i as int], v@),
    {
        Table::lemma_set(before, after, i as int, v);
    }

    /// Notes a source on a port; says how many there are where they are many.
    fn watch_port(&mut self, ip: &str, port: u16, now: u64) -> (r: Option<usize>)
        requires
            old(self).wf(),
        ensures
            final(self).wf(),
            final(self)@ == port_watched(old(self)@, ip@, port, now).0,
            optional_count(r) == port_watched(old(self)@, ip@, port, now).1,
    {
        if is_dangerous_port(port) {
            self.port_attackers.track(port, ip, now);
            if let Some(sources) = self.port_attackers.sources(port) {
                if sources >= self.thresholds.ddos_sources {
                    self.ddos_detected = next_count(self.ddos_detected);
                    return Some(sources);
                }
            }
        }
        None
    }

    /// Forgets sources without recent frames.
    pub fn periodic_cleanup(&mut self, now: u64)
        requires
            old(self).wf(),
        ensures
            final(self).wf(),
            final(self)@ == ddos_tidied(old(self)@, now),
    {
        let ghost m = self@;
        let ghost p = |c: SourceModel| source_remembered(c, now);
        let keep = |c: &DdosCounter| -> (b: bool)
            ensures
                b == source_remembered(c@, now),
        {
            c.is_remembered(now)
        };
        self.counters.retain(keep, Ghost(p));
        self.port_attackers.purge(now);
        assert(self@.counters =~= ddos_tidied(m, now).counters);
    }

    /// The lines of the status report.
    pub fn print_status(&self) -> (r: Vec<String>)
        requires
            self.wf(),
        ensures
            views(r@) == ddos_report(self@),
    {
        let mode = if self.learning_mode {
            "ОБУЧЕНИЕ"
        } else {
            "АКТИВНЫЙ"
        };
        let mut out: Vec<String> = Vec::new();
        push_text(&mut out, "   DDoS Protection v1.0:".to_owned());
        push_text(&mut out, with_number("     Пакетов захвачено: ", self.packets_captured));
        push_text(&mut out, with_number("     SYN flood: ", self.syn_detected));
        push_text(&mut out, with_number("     UDP flood: ", self.udp_detected));
        push_text(&mut out, with_number("     ICMP flood: ", self.icmp_detected));
        push_text(&mut out, with_number("     HTTP flood: ", self.http_detected));
        push_text(&mut out, with_number("     SSH brute: ", self.ssh_detected));
        push_text(&mut out, with_number("     DDoS обнаружено: ", self.ddos_detected));
        push_text(&mut out, with_number("     Баннов выдано: ", self.bans_issued));
        push_text(&mut out, with_text("     Режим: ", mode));
        assert(views(out@) =~= ddos_report(self@));
        out
    }
}

// ---------------------------------------------------------------------------
// Messages
// ---------------------------------------------------------------------------

/// The notice that a source was banned.
pub open spec fn source_ban_notice(ip: Seq<char>, port: u16, count: nat, permanent: bool) -> Seq<
    char,
> {
    "[DDoS] 🚨 "@ + ip + " ["@ + ip_type_of(ip) + "] порт "@ + port_text(port) + ": "@ + dec(count)
        + " событий → "@ + (if permanent {
        "ПЕРМАНЕНТНЫЙ БАН"@
    } else {
        "БАН на 10 мин"@
    })
}

/// The notice that many sources attack a port.
pub open spec fn port_attack_notice(port: u16, sources: u64) -> Seq<char> {
    "[DDoS] 🚨 DDoS ОБНАРУЖЕН: порт "@ + port_text(port) + " атакуют "@ + number_text(sources)
        + " источников"@
}

/// The notice that a source was banned.
pub fn ban_message(ip: &str, ban: &DdosBan) -> (r: String)
    ensures
        r@ == source_ban_notice(ip@, ban@.port, ban@.count, ban@.permanent),
{
    let mut s = "[DDoS] 🚨 ".to_owned();
    s.append(ip);
    s.append(" [");
    s.append(ip_type(ip).as_str());
    s.append("] порт ");
    s.append(decimal(ban.port as u64).as_str());
    s.append(": ");
    s.append(decimal(ban.count as u64).as_str());
    s.append(" событий → ");
    if ban.permanent {
        s.append("ПЕРМАНЕНТНЫЙ БАН");
    } else {
        s.append("БАН на 10 мин");
    }
    s
}

/// The notice that many sources attack a port.
pub fn ddos_message(port: u16, sources: usize) -> (r: String)
    ensures
        r@ == port_attack_notice(port, sources as u64),
{
    let mut s = with_number("[DDoS] 🚨 DDoS ОБНАРУЖЕН: порт ", port as u64);
    s.append(" атакуют ");
    s.append(decimal(sources as u64).as_str());
    s.append(" источников");
    s
}

// ---------------------------------------------------------------------------
// Laws
// ---------------------------------------------------------------------------

/// Frames from private and local addresses, from those on the whitelist and from sources
/// that are banned change nothing, and nothing comes of them.
pub proof fn law_exempt_sources_are_ignored(
    m: DdosModel,
    ip: Seq<char>,
    port: u16,
    kind: PacketKind,
    now: u64,
)
    requires
        private_ip(ip) || m.whitelist.contains(ip) || (m.counters.contains_key(ip)
            && source_banned(m.counters[ip], now)),
    ensures
        event_recorded(m, ip, port, kind, now) == (m, DdosOutcomeModel { ban: None, ddos: None }),
{
}

/// A source that is banned stays so for as long as the thresholds say, and no longer
/// unless it is banned for good.
pub proof fn law_source_ban_lasts(
    m: DdosModel,
    ip: Seq<char>,
    port: u16,
    kind: PacketKind,
    now: u64,
    later: u64,
)
    requires
        event_recorded(m, ip, port, kind, now).1.ban is Some,
    ensures
        later < now + m.thresholds.ban_duration * NANOS ==> source_banned(
            event_recorded(m, ip, port, kind, now).0.counters[ip],
            later,
        ),
        later >= now + m.thresholds.ban_duration * NANOS ==> (source_banned(
            event_recorded(m, ip, port, kind, now).0.counters[ip],
            later,
        ) <==> event_recorded(m, ip, port, kind, now).1.ban->0.permanent),
{
    assert(m.thresholds.ban_duration * NANOS <= 0xffff_ffff_ffff_ffff * NANOS) by (nonlinear_arith)
        requires
            m.thresholds.ban_duration <= 0xffff_ffff_ffff_ffffu64,
    ;
}

/// The ban whose number is the configured one, and each one after it, is for good.
pub proof fn law_repeated_bans_are_permanent(
    m: DdosModel,
    ip: Seq<char>,
    port: u16,
    kind: PacketKind,
    now: u64,
)
    requires
        event_recorded(m, ip, port, kind, now).1.ban is Some,
        source_of(m.counters, ip).ban_count < u32::MAX,
    ensures
        event_recorded(m, ip, port, kind, now).1.ban->0.permanent <==> source_of(
            m.counters,
            ip,
        ).ban_count + 1 >= m.thresholds.permanent_after || source_of(m.counters, ip).permanent,
        event_recorded(m, ip, port, kind, now).0.counters[ip].ban_count == source_of(
            m.counters,
            ip,
        ).ban_count + 1,
{
}

/// Frames of one source change nothing about another.
pub proof fn law_sources_are_apart(
    m: DdosModel,
    ip: Seq<char>,
    other: Seq<char>,
    port: u16,
    kind: PacketKind,
    now: u64,
)
    requires
        ip != other,
    ensures
        source_of(event_recorded(m, ip, port, kind, now).0.counters, other) == source_of(
            m.counters,
            other,
        ),
{
}

/// A source that is taken into account is banned as soon as its frames pass a threshold.
pub proof fn law_flood_of_frames_is_banned(
    m: DdosModel,
    ip: Seq<char>,
    port: u16,
    kind: PacketKind,
    now: u64,
)
    requires
        !source_ignored(m, ip, now),
        ({
            let c = source_recorded(source_of(m.counters, ip), kind, port, now);
            let t = m.thresholds;
            ||| port_times(c.syn, 22).len() > t.ssh
            ||| c.http.len() > t.http
            ||| c.icmp.len() > t.icmp
            ||| (udp_ports().contains(port) && port_times(c.udp, port).len() > t.udp)
            ||| (dangerous_ports().contains(port) && port_times(c.syn, port).len() > t.syn)
        }),
    ensures
        event_recorded(m, ip, port, kind, now).1.ban is Some,
{
    let c = source_recorded(source_of(m.counters, ip), kind, port, now);
    lemma_beyond_is_found(udp_ports(), c.udp, m.thresholds.udp, port);
    lemma_beyond_is_found(dangerous_ports(), c.syn, m.thresholds.syn, port);
}

proof fn lemma_beyond_is_found(
    ports: Seq<u16>,
    m: Map<u16, Seq<u64>>,
    threshold: usize,
    port: u16,
)
    ensures
        ports.contains(port) && port_times(m, port).len() > threshold ==> first_beyond(
            ports,
            m,
            threshold,
        ) is Some,
    decreases ports.len(),
{
    if ports.contains(port) && ports.len() > 0 {
        let i = ports.index_of(port);
        let rest = ports.skip(1);
        if i > 0 {
            assert(rest[i - 1] == port);
            assert(rest.contains(port));
        }
        lemma_beyond_is_found(rest, m, threshold, port);
    }
}

/// While the protector only learns, no ban is told to the firewall.
pub proof fn law_learning_spares_the_firewall(
    m: DdosModel,
    ip: Seq<char>,
    port: u16,
    kind: PacketKind,
    now: u64,
)
    requires
        m.learning_mode,
    ensures
        event_recorded(m, ip, port, kind, now).1.ban matches Some(ban) ==> !ban.firewall,
{
}

/// The lists of frames of a source.
pub open spec fn source_lists(c: SourceModel) -> EventLists {
    EventLists { first: c.syn, second: c.udp, third: c.icmp, fourth: c.http, total: c.total }
}

/// What can be done to a counter of a source.
pub ghost enum SourceStep {
    Record(PacketKind, u16),
    Clean,
    Ban(u32, u64),
    Explain(Option<Seq<char>>),
}

/// A source after one step at the moment `now`.
pub open spec fn source_after(c: SourceModel, step: SourceStep, now: u64) -> SourceModel {
    match step {
        SourceStep::Record(kind, port) => source_recorded(c, kind, port, now),
        SourceStep::Clean => source_cleaned(c, now),
        SourceStep::Ban(after, duration) => source_ban_applied(c, after, duration, now),
        SourceStep::Explain(reason) => SourceModel { reason, ..c },
    }
}

/// A new source after a history of steps.
pub open spec fn source_history(steps: Seq<(SourceStep, u64)>) -> SourceModel
    decreases steps.len(),
{
    if steps.len() == 0 {
        fresh_source()
    } else {
        source_after(source_history(steps.drop_last()), steps.last().0, steps.last().1)
    }
}

/// Where a frame is listed, beside the list of all.
spec fn place_of(kind: PacketKind, port: u16) -> Place {
    match kind {
        PacketKind::Syn => Place::First(port),
        PacketKind::Udp => Place::Second(port),
        PacketKind::Icmp => Place::Third,
        PacketKind::Http => Place::Fourth,
    }
}

proof fn lemma_step_sound(c: SourceModel, step: SourceStep, then: u64, now: u64)
    requires
        sound(source_lists(c), then),
        then <= now,
    ensures
        sound(source_lists(source_after(c, step, now)), now),
{
    lemma_later_sound(source_lists(c), then, now);
    lemma_cleaned_sound(source_lists(c), then, now);
    if let SourceStep::Record(kind, port) = step {
        lemma_event_sound(source_lists(source_cleaned(c, now)), place_of(kind, port), now);
    }
}

proof fn lemma_history_sound(steps: Seq<(SourceStep, u64)>, now: u64)
    requires
        forall|i: int, j: int| 0 <= i < j < steps.len() ==> (#[trigger] steps[i]).1 <= (
        #[trigger] steps[j]).1,
        forall|i: int| 0 <= i < steps.len() ==> (#[trigger] steps[i]).1 <= now,
    ensures
        sound(source_lists(source_history(steps)), now),
    decreases steps.len(),
{
    if steps.len() == 0 {
        lemma_no_events(now);
    } else {
        let front = steps.drop_last();
        let last = steps.last();
        assert forall|i: int| 0 <= i < front.len() implies (#[trigger] front[i]).1 <= last.1 by {
            assert(steps[i].1 <= steps[steps.len() - 1].1);
        }
        assert forall|i: int, j: int| 0 <= i < j < front.len() implies (#[trigger] front[i]).1 <= (
        #[trigger] front[j]).1 by {
            assert(steps[i].1 <= steps[j].1);
        }
        lemma_history_sound(front, last.1);
        lemma_step_sound(source_history(front), last.0, last.1, last.1);
        assert(steps[steps.len() - 1].1 <= now);
        lemma_later_sound(source_lists(source_history(steps)), last.1, now);
    }
}

/// Whatever is done to the counter of a source as time goes on, its list of all frames has
/// as many as its lists by kind together, and every list is in order of time.
pub proof fn law_lists_agree(steps: Seq<(SourceStep, u64)>, now: u64)
    requires
        forall|i: int, j: int| 0 <= i < j < steps.len() ==> (#[trigger] steps[i]).1 <= (
        #[trigger] steps[j]).1,
        forall|i: int| 0 <= i < steps.len() ==> (#[trigger] steps[i]).1 <= now,
    ensures
        lists_agree(source_lists(source_history(steps)), now),
{
    lemma_history_sound(steps, now);
    lemma_sound_agrees(source_lists(source_history(steps)), now);
}

/// The lists of all sources that the protector keeps are sound, and stay so with every
/// frame.
pub proof fn law_recording_keeps_lists_sound(
    m: DdosModel,
    ip: Seq<char>,
    port: u16,
    kind: PacketKind,
    now: u64,
    other: Seq<char>,
)
    requires
        forall|k: Seq<char>| #[trigger]
            m.counters.contains_key(k) ==> sound(source_lists(m.counters[k]), now),
        event_recorded(m, ip, port, kind, now).0.counters.contains_key(other),
    ensures
        sound(source_lists(event_recorded(m, ip, port, kind, now).0.counters[other]), now),
        lists_agree(source_lists(event_recorded(m, ip, port, kind, now).0.counters[other]), now),
{
    let after = event_recorded(m, ip, port, kind, now).0;
    let c = source_of(m.counters, ip);
    lemma_no_events(now);
    if m.counters.contains_key(ip) {
        assert(sound(source_lists(m.counters[ip]), now));
    }
    lemma_step_sound(c, SourceStep::Record(kind, port), now, now);
    if other != ip {
        assert(m.counters.contains_key(other));
    }
    lemma_sound_agrees(source_lists(after.counters[other]), now);
}

/// What can be done to the protector.
pub ghost enum DdosStep {
    Record(Seq<char>, u16, PacketKind, u64),
    Frame(Seq<u8>, u64),
    CountFrame,
    SetThresholds(DdosThresholds),
    SetWhitelist(Seq<Seq<char>>),
    Cleanup(u64),
}

/// The protector after one step.
pub open spec fn ddos_after(m: DdosModel, step: DdosStep) -> DdosModel {
    match step {
        DdosStep::Record(ip, port, kind, now) => event_recorded(m, ip, port, kind, now).0,
        DdosStep::Frame(frame, now) => frame_processed(m, frame, now).0,
        DdosStep::CountFrame => frame_counted(m),
        DdosStep::SetThresholds(thresholds) => DdosModel { thresholds, ..m },
        DdosStep::SetWhitelist(whitelist) => DdosModel { whitelist, ..m },
        DdosStep::Cleanup(now) => ddos_tidied(m, now),
    }
}

/// A new protector after a history of steps.
pub open spec fn ddos_history(
    real_ban: bool,
    learning_mode: bool,
    steps: Seq<DdosStep>,
) -> DdosModel
    decreases steps.len(),
{
    if steps.len() == 0 {
        fresh_protector(real_ban, learning_mode)
    } else {
        ddos_after(ddos_history(real_ban, learning_mode, steps.drop_last()), steps.last())
    }
}

/// How many attacks of all five kinds were found.
pub open spec fn attacks_found(m: DdosModel) -> int {
    m.syn_detected + m.udp_detected + m.icmp_detected + m.http_detected + m.ssh_detected
}

/// Every ban is counted under exactly one kind of attack: in every state that a new
/// protector can come to, the number of bans is the sum of the numbers of the five kinds.
/// So long as there were no more steps than a counter can count, it is that exactly;
/// after that up to what counters lose when they start over.
pub proof fn law_bans_are_attacks(real_ban: bool, learning_mode: bool, steps: Seq<DdosStep>)
    ensures
        ({
            let m = ddos_history(real_ban, learning_mode, steps);
            &&& steps.len() <= u64::MAX ==> m.bans_issued == attacks_found(m) && m.bans_issued
                <= steps.len()
            &&& (attacks_found(m) - m.bans_issued) % 0x1_0000_0000_0000_0000 == 0
        }),
    decreases steps.len(),
{
    if steps.len() > 0 {
        let before = ddos_history(real_ban, learning_mode, steps.drop_last());
        let m = ddos_history(real_ban, learning_mode, steps);
        law_bans_are_attacks(real_ban, learning_mode, steps.drop_last());
        lemma_step_counts(before, steps.last());
        assert(m == ddos_after(before, steps.last()));
        if m.bans_issued != before.bans_issued {
            let d0 = attacks_found(before) - before.bans_issued;
            let d1 = attacks_found(m) - m.bans_issued;
            assert(d1 == d0 || d1 == d0 + 0x1_0000_0000_0000_0000 || d1 == d0
                - 0x1_0000_0000_0000_0000);
        }
    }
}

/// A step adds one to the number of bans and to that of one kind of attack, or to none.
proof fn lemma_step_counts(m: DdosModel, step: DdosStep)
    ensures
        ({
            let n = ddos_after(m, step);
            ||| n.bans_issued == m.bans_issued && attacks_found(n) == attacks_found(m)
            ||| n.bans_issued == bump(m.bans_issued) && (attacks_found(n) == attacks_found(m) + 1
                || attacks_found(n) == attacks_found(m) - u64::MAX)
        }),
        ({
            let n = ddos_after(m, step);
            n.bans_issued != m.bans_issued && attacks_found(m) < u64::MAX ==> attacks_found(n)
                == attacks_found(m) + 1
        }),
{
    match step {
        DdosStep::Record(ip, port, kind, now) => lemma_event_counts(m, ip, port, kind, now),
        DdosStep::Frame(frame, now) => {
            if let Some((ip, port, kind)) = frame_event(frame) {
                lemma_event_counts(m, ip, port, kind, now);
            }
        },
        _ => {},
    }
}

proof fn lemma_event_counts(m: DdosModel, ip: Seq<char>, port: u16, kind: PacketKind, now: u64)
    ensures
        ({
            let n = event_recorded(m, ip, port, kind, now).0;
            ||| n.bans_issued == m.bans_issued && attacks_found(n) == attacks_found(m)
            ||| n.bans_issued == bump(m.bans_issued) && (attacks_found(n) == attacks_found(m) + 1
                || (attacks_found(n) == attacks_found(m) - u64::MAX && attacks_found(m)
                >= u64::MAX))
        }),
{
}

} // verus!
