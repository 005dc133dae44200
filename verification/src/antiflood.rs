//! Bursts of connections: counts events per address in a sliding window and bans the
//! addresses that pass a threshold.
use vstd::prelude::*;

use crate::addr::{in_same_subnet, ipv6_subnet64, same_subnet, subnet64};
use crate::bans::{
    countable, ends_at, expired, is_expired, latest, read_bans, record_views, BanRecord,
    RecordModel,
};
use crate::clock::{earlier, WallClock};
use crate::ranges::{is_neutral_ip, is_vpn_or_proxy_ip, neutral_ip, vpn_ip};
use crate::table::Table;
use crate::text::{
    contains_char, contains_text, copy_texts, dec, decimal, number_text, port_text, push_text,
    views, with_number, with_text,
};
use crate::timeline::{
    lemma_cleaned_sound, lemma_event_sound, lemma_later_sound, lemma_no_events, lemma_sound_agrees,
    lists_agree, sound, EventLists, Place,
};
use crate::window::{
    age, fresh, port_event, port_len, port_times, prune, prune_ports, purged, push_port, recent,
    recent_ports, with_source, PortAttackers,
};

verus! {

/// How long a ban lasts, in seconds.
pub const BAN_DURATION_SECS: u64 = 600;

/// How long a ban lasts, in nanoseconds.
pub const BAN_NANOS: u128 = 600_000_000_000;

/// The ban with this number does not end.
pub const PERMANENT_BAN_AFTER: u32 = 5;

/// How long a warning stands, in nanoseconds.
pub const GRACE_NANOS: u128 = 3_000_000_000;

/// How many events there must be before a threshold is looked at.
pub const MIN_PORT_REGISTRATIONS: usize = 5;

/// How many past windows the average traffic is taken over.
pub const ADAPTIVE_SAMPLES: usize = 20;

/// How many sources on one port make a distributed attack.
pub const DDOS_MIN_SOURCES: usize = 10;

/// An address without events is forgotten after this time, in nanoseconds.
pub const FORGET_NANOS: u64 = 30_000_000_000;

/// The file that bans are kept in.
pub const BANS_FILE: &'static str = "ArlianAI/models/antiflood_bans.json";

/// The bits of the number 1.0, the multiplier that a new address starts with.
pub const NEUTRAL_MULTIPLIER: u32 = 0x3f80_0000;

/// The kinds of attack.
#[derive(Debug, Clone, Copy, PartialEq, Eq, Structural)]
pub enum FloodType {
    PortFlood,
    IpFlood,
    SynScan,
    UdpFlood,
    IcmpFlood,
    HttpFlood,
    SshBrute,
    DdosFlood,
    /// No attack.
    NoFlood,
}

/// The name of a kind of attack.
pub open spec fn flood_label(kind: FloodType) -> Seq<char> {
    match kind {
        FloodType::PortFlood => "PORT-FLOOD"@,
        FloodType::IpFlood => "IP-FLOOD"@,
        FloodType::SynScan => "SYN-SCAN"@,
        FloodType::UdpFlood => "UDP-FLOOD"@,
        FloodType::IcmpFlood => "ICMP-FLOOD"@,
        FloodType::HttpFlood => "HTTP-FLOOD"@,
        FloodType::SshBrute => "SSH-BRUTE"@,
        FloodType::DdosFlood => "DDOS-FLOOD"@,
        FloodType::NoFlood => "NONE"@,
    }
}

impl FloodType {
    /// The name of the kind of attack.
    pub fn label(&self) -> (r: &'static str)
        ensures
            r@ == flood_label(*self),
    {
        match self {
            FloodType::PortFlood => "PORT-FLOOD",
            FloodType::IpFlood => "IP-FLOOD",
            FloodType::SynScan => "SYN-SCAN",
            FloodType::UdpFlood => "UDP-FLOOD",
            FloodType::IcmpFlood => "ICMP-FLOOD",
            FloodType::HttpFlood => "HTTP-FLOOD",
            FloodType::SshBrute => "SSH-BRUTE",
            FloodType::DdosFlood => "DDOS-FLOOD",
            FloodType::NoFlood => "NONE",
        }
    }
}

/// What was received.
#[derive(Debug, Clone, Copy, PartialEq, Eq, Structural)]
pub enum PacketKind {
    Tcp,
    Udp,
    Icmp,
    Http,
}

/// The thresholds that hold for one event, and the multiplier they were made with. The
/// multiplier is carried as the bits of the number and not looked into.
#[derive(Debug, Clone, Copy, PartialEq, Eq, Structural)]
pub struct AdaptiveScale {
    pub multiplier: u32,
    pub ssh: usize,
    pub http: usize,
    pub udp: usize,
    pub icmp: usize,
    pub port: usize,
    pub ip: usize,
    pub grace: usize,
}

// ---------------------------------------------------------------------------
// One address
// ---------------------------------------------------------------------------

/// What is known of one address.
pub ghost struct CounterModel {
    pub tcp: Map<u16, Seq<u64>>,
    pub udp: Map<u16, Seq<u64>>,
    pub icmp: Seq<u64>,
    pub http: Seq<u64>,
    pub total: Seq<u64>,
    pub banned_until: Option<u128>,
    pub ban_count: u32,
    pub permanent: bool,
    pub multiplier: u32,
    pub reason: Option<Seq<char>>,
    pub history: Seq<usize>,
    pub grace_warned: bool,
    pub grace_until: Option<u128>,
}

/// An address that nothing was seen of.
pub open spec fn fresh_counter() -> CounterModel {
    CounterModel {
        tcp: Map::empty(),
        udp: Map::empty(),
        icmp: Seq::empty(),
        http: Seq::empty(),
        total: Seq::empty(),
        banned_until: None,
        ban_count: 0,
        permanent: false,
        multiplier: NEUTRAL_MULTIPLIER,
        reason: None,
        history: Seq::empty(),
        grace_warned: false,
        grace_until: None,
    }
}

/// Whether the address is banned: for good, or until a moment that lies ahead.
pub open spec fn banned(c: CounterModel, now: u64) -> bool {
    c.permanent || match c.banned_until {
        Some(t) => now < t,
        None => false,
    }
}

/// The counter without the events that have left the window.
pub open spec fn cleaned(c: CounterModel, now: u64) -> CounterModel {
    CounterModel {
        tcp: recent_ports(c.tcp, now),
        udp: recent_ports(c.udp, now),
        icmp: recent(c.icmp, now),
        http: recent(c.http, now),
        total: recent(c.total, now),
        ..c
    }
}

/// The counter after an event.
pub open spec fn recorded(c: CounterModel, kind: PacketKind, port: u16, now: u64) -> CounterModel {
    let d = cleaned(c, now);
    let total = d.total.push(now);
    match kind {
        PacketKind::Tcp => CounterModel { tcp: port_event(d.tcp, port, now), total, ..d },
        PacketKind::Udp => CounterModel { udp: port_event(d.udp, port, now), total, ..d },
        PacketKind::Icmp => CounterModel { icmp: d.icmp.push(now), total, ..d },
        PacketKind::Http => CounterModel { http: d.http.push(now), total, ..d },
    }
}

/// The past traffic after a window with `n` events: the latest samples only.
pub open spec fn history_with(history: Seq<usize>, n: usize) -> Seq<usize> {
    let longer = history.push(n);
    if longer.len() > ADAPTIVE_SAMPLES {
        longer.skip(1)
    } else {
        longer
    }
}

/// The counter after its traffic was noted and its multiplier changed.
pub open spec fn adapted(c: CounterModel, multiplier: u32) -> CounterModel {
    CounterModel { history: history_with(c.history, c.total.len() as usize), multiplier, ..c }
}

/// Whether `n` events are enough to be looked at and pass a threshold.
pub open spec fn over(n: nat, threshold: usize) -> bool {
    n >= MIN_PORT_REGISTRATIONS && n > threshold
}

/// The TCP ports that are watched.
pub open spec fn dangerous_ports() -> Seq<u16> {
    seq![22u16, 23, 80, 443, 445, 3389, 5900, 8080]
}

/// The UDP ports that are watched.
pub open spec fn udp_ports() -> Seq<u16> {
    seq![53u16, 123, 443, 1900]
}

/// The first of the ports whose events pass the threshold.
pub open spec fn first_over(
    ports: Seq<u16>,
    m: Map<u16, Seq<u64>>,
    threshold: usize,
) -> Option<u16>
    decreases ports.len(),
{
    if ports.len() == 0 {
        None
    } else if over(port_times(m, ports[0]).len(), threshold) {
        Some(ports[0])
    } else {
        first_over(ports.skip(1), m, threshold)
    }
}

/// Which attack the events amount to, on which port, and with how many events. What is
/// more telling comes first.
pub open spec fn analysis(c: CounterModel, scale: AdaptiveScale) -> (FloodType, u16, nat) {
    let ssh = port_times(c.tcp, 22).len();
    if over(ssh, scale.ssh) {
        (FloodType::SshBrute, 22u16, ssh)
    } else if over(c.http.len(), scale.http) {
        (FloodType::HttpFlood, 443u16, c.http.len())
    } else if let Some(p) = first_over(udp_ports(), c.udp, scale.udp) {
        (FloodType::UdpFlood, p, port_times(c.udp, p).len())
    } else if over(c.icmp.len(), scale.icmp) {
        (FloodType::IcmpFlood, 0u16, c.icmp.len())
    } else if let Some(p) = first_over(dangerous_ports(), c.tcp, scale.port) {
        (FloodType::PortFlood, p, port_times(c.tcp, p).len())
    } else if over(c.total.len(), scale.ip) {
        (FloodType::IpFlood, 0u16, c.total.len())
    } else {
        (FloodType::NoFlood, 0u16, 0nat)
    }
}

/// Whether a warning is due: traffic comes near the threshold for the first time.
pub open spec fn grace_due(c: CounterModel, scale: AdaptiveScale) -> bool {
    c.total.len() >= scale.grace && !c.grace_warned
}

/// The counter after it was looked whether a warning is due. Where traffic has dropped
/// below half, the next rise is warned of again.
pub open spec fn grace_checked(c: CounterModel, scale: AdaptiveScale, now: u64) -> CounterModel {
    if grace_due(c, scale) {
        CounterModel {
            grace_warned: true,
            grace_until: Some((now + GRACE_NANOS) as u128),
            ..c
        }
    } else if c.total.len() < scale.grace / 2 {
        CounterModel { grace_warned: false, grace_until: None, ..c }
    } else {
        c
    }
}

/// The counter of an address that is to be banned: if it was not warned yet, it is warned
/// now.
pub open spec fn warned_before_ban(c: CounterModel, now: u64) -> CounterModel {
    if c.grace_warned {
        c
    } else {
        CounterModel {
            grace_warned: true,
            grace_until: Some((now + GRACE_NANOS) as u128),
            ..c
        }
    }
}

/// The counter after an event was counted and looked at.
pub open spec fn observed(
    c: CounterModel,
    kind: PacketKind,
    port: u16,
    now: u64,
    scale: AdaptiveScale,
) -> CounterModel {
    grace_checked(adapted(recorded(c, kind, port, now), scale.multiplier), scale, now)
}

/// The counter after one more ban.
pub open spec fn ban_applied(c: CounterModel, now: u64) -> CounterModel {
    let ban_count = (c.ban_count + 1) as u32;
    if ban_count >= PERMANENT_BAN_AFTER {
        CounterModel { ban_count, permanent: true, ..c }
    } else {
        CounterModel { ban_count, banned_until: Some((now + BAN_NANOS) as u128), ..c }
    }
}

/// The counter after one more ban of an address. That of a suspect address is for good at
/// once.
pub open spec fn ban_stored(c: CounterModel, suspect: bool, now: u64) -> CounterModel {
    let d = ban_applied(c, now);
    CounterModel { permanent: suspect || d.permanent, ..d }
}

/// The counter after a saved ban was taken up again.
pub open spec fn ban_restored(
    c: CounterModel,
    permanent: bool,
    ban_events: u32,
    now: u64,
) -> CounterModel {
    CounterModel {
        permanent,
        ban_count: ban_events,
        banned_until: if permanent {
            c.banned_until
        } else {
            Some((now + BAN_NANOS) as u128)
        },
        ..c
    }
}

/// The counter without its ban.
pub open spec fn ban_lifted(c: CounterModel) -> CounterModel {
    CounterModel { banned_until: None, permanent: false, ban_count: 0, reason: None, ..c }
}

/// The events of one address, and its bans.
pub struct PerIpCounter {
    tcp_connections: Table<u16, Vec<u64>>,
    udp_packets: Table<u16, Vec<u64>>,
    icmp_packets: Vec<u64>,
    http_requests: Vec<u64>,
    total: Vec<u64>,
    banned_until: Option<u128>,
    ban_count: u32,
    permanent_ban: bool,
    adaptive_multiplier: u32,
    ban_reason: Option<String>,
    history: Vec<usize>,
    grace_warned: bool,
    grace_until: Option<u128>,
}

/// The text held by an optional string.
pub open spec fn optional_text(s: Option<String>) -> Option<Seq<char>> {
    match s {
        Some(t) => Some(t@),
        None => None,
    }
}

impl View for PerIpCounter {
    type V = CounterModel;

    closed spec fn view(&self) -> CounterModel {
        CounterModel {
            tcp: self.tcp_connections@,
            udp: self.udp_packets@,
            icmp: self.icmp_packets@,
            http: self.http_requests@,
            total: self.total@,
            banned_until: self.banned_until,
            ban_count: self.ban_count,
            permanent: self.permanent_ban,
            multiplier: self.adaptive_multiplier,
            reason: optional_text(self.ban_reason),
            history: self.history@,
            grace_warned: self.grace_warned,
            grace_until: self.grace_until,
        }
    }
}

/// The first of the ports whose events pass the threshold.
fn find_over(ports: &Vec<u16>, table: &Table<u16, Vec<u64>>, threshold: usize) -> (r: Option<u16>)
    requires
        table.wf(),
    ensures
        r == first_over(ports@, table@, threshold),
{
    let mut i: usize = 0;
    assert(ports@.skip(0) =~= ports@);
    while i < ports.len()
        invariant
            i <= ports.len(),
            table.wf(),
            first_over(ports@, table@, threshold) == first_over(
                ports@.skip(i as int),
                table@,
                threshold,
            ),
        decreases ports.len() - i,
    {
        let n: usize = port_len(table, ports[i]);
        if n >= MIN_PORT_REGISTRATIONS && n > threshold {
            return Some(ports[i]);
        }
        assert(ports@.skip(i as int).skip(1) =~= ports@.skip(i + 1));
        i += 1;
    }
    None
}

/// The TCP ports that are watched.
pub fn dangerous_list() -> (r: Vec<u16>)
    ensures
        r@ == dangerous_ports(),
{
    let r: Vec<u16> = vec![22, 23, 80, 443, 445, 3389, 5900, 8080];
    assert(r@ =~= dangerous_ports());
    r
}

/// The UDP ports that are watched.
pub fn udp_list() -> (r: Vec<u16>)
    ensures
        r@ == udp_ports(),
{
    let r: Vec<u16> = vec![53, 123, 443, 1900];
    assert(r@ =~= udp_ports());
    r
}

impl PerIpCounter {
    /// The tables hold each port once, the past traffic is bounded, and another ban can
    /// be counted unless the address is banned for good.
    pub closed spec fn wf(&self) -> bool {
        &&& self.tcp_connections.wf()
        &&& self.udp_packets.wf()
        &&& self.history@.len() <= ADAPTIVE_SAMPLES
        &&& (!self.permanent_ban ==> self.ban_count < u32::MAX)
    }

    /// An address that nothing was seen of.
    pub fn new() -> (r: Self)
        ensures
            r.wf(),
            r@ == fresh_counter(),
    {
        PerIpCounter {
            tcp_connections: Table::new(),
            udp_packets: Table::new(),
            icmp_packets: Vec::new(),
            http_requests: Vec::new(),
            total: Vec::new(),
            banned_until: None,
            ban_count: 0,
            permanent_ban: false,
            adaptive_multiplier: NEUTRAL_MULTIPLIER,
            ban_reason: None,
            history: Vec::new(),
            grace_warned: false,
            grace_until: None,
        }
    }

    /// Drops the events that have left the window.
    pub fn cleanup(&mut self, now: u64)
        requires
            old(self).wf(),
        ensures
            final(self).wf(),
            final(self)@ == cleaned(old(self)@, now),
    {
        prune_ports(&mut self.tcp_connections, now);
        prune_ports(&mut self.udp_packets, now);
        prune(&mut self.icmp_packets, now);
        prune(&mut self.http_requests, now);
        prune(&mut self.total, now);
    }

    /// Counts a TCP connection to a port.
    pub fn record_tcp(&mut self, port: u16, now: u64)
        requires
            old(self).wf(),
        ensures
            final(self).wf(),
            final(self)@ == recorded(old(self)@, PacketKind::Tcp, port, now),
    {
        self.cleanup(now);
        push_port(&mut self.tcp_connections, port, now);
        self.total.push(now);
    }

    /// Counts a UDP packet to a port.
    pub fn record_udp(&mut self, port: u16, now: u64)
        requires
            old(self).wf(),
        ensures
            final(self).wf(),
            final(self)@ == recorded(old(self)@, PacketKind::Udp, port, now),
    {
        self.cleanup(now);
        push_port(&mut self.udp_packets, port, now);
        self.total.push(now);
    }

    /// Counts an ICMP packet.
    pub fn record_icmp(&mut self, now: u64)
        requires
            old(self).wf(),
        ensures
            final(self).wf(),
            final(self)@ == recorded(old(self)@, PacketKind::Icmp, 0, now),
    {
        self.cleanup(now);
        self.icmp_packets.push(now);
        self.total.push(now);
    }

    /// Counts an HTTP request.
    pub fn record_http(&mut self, now: u64)
        requires
            old(self).wf(),
        ensures
            final(self).wf(),
            final(self)@ == recorded(old(self)@, PacketKind::Http, 80, now),
    {
        self.cleanup(now);
        self.http_requests.push(now);
        self.total.push(now);
    }

    /// Notes the traffic of the current window and takes over the multiplier that was
    /// made from it.
    pub fn update_adaptive(&mut self, multiplier: u32)
        requires
            old(self).wf(),
        ensures
            final(self).wf(),
            final(self)@ == adapted(old(self)@, multiplier),
    {
        let current: usize = self.total.len();
        self.history.push(current);
        if self.history.len() > ADAPTIVE_SAMPLES {
            let ghost longer = self.history@;
            self.history.remove(0);
            assert(self.history@ =~= longer.skip(1));
        }
        self.adaptive_multiplier = multiplier;
    }

    /// Which attack the events amount to, on which port, and with how many events.
    pub fn analyze(&self, scale: &AdaptiveScale) -> (r: (FloodType, u16, usize))
        requires
            self.wf(),
        ensures
            r.0 == analysis(self@, *scale).0,
            r.1 == analysis(self@, *scale).1,
            r.2 == analysis(self@, *scale).2,
    {
        let ssh: usize = port_len(&self.tcp_connections, 22);
        if ssh >= MIN_PORT_REGISTRATIONS && ssh > scale.ssh {
            return (FloodType::SshBrute, 22, ssh);
        }
        let http: usize = self.http_requests.len();
        if http >= MIN_PORT_REGISTRATIONS && http > scale.http {
            return (FloodType::HttpFlood, 443, http);
        }
        if let Some(p) = find_over(&udp_list(), &self.udp_packets, scale.udp) {
            return (FloodType::UdpFlood, p, port_len(&self.udp_packets, p));
        }
        let icmp: usize = self.icmp_packets.len();
        if icmp >= MIN_PORT_REGISTRATIONS && icmp > scale.icmp {
            return (FloodType::IcmpFlood, 0, icmp);
        }
        if let Some(p) = find_over(&dangerous_list(), &self.tcp_connections, scale.port) {
            return (FloodType::PortFlood, p, port_len(&self.tcp_connections, p));
        }
        let total: usize = self.total.len();
        if total >= MIN_PORT_REGISTRATIONS && total > scale.ip {
            return (FloodType::IpFlood, 0, total);
        }
        (FloodType::NoFlood, 0, 0)
    }

    /// Whether the address is to be warned now, before it is banned.
    pub fn check_grace(&mut self, scale: &AdaptiveScale, now: u64) -> (r: bool)
        requires
            old(self).wf(),
        ensures
            final(self).wf(),
            r == grace_due(old(self)@, *scale),
            final(self)@ == grace_checked(old(self)@, *scale, now),
    {
        if self.total.len() >= scale.grace && !self.grace_warned {
            self.grace_warned = true;
            self.grace_until = Some(now as u128 + GRACE_NANOS);
            return true;
        }
        if self.total.len() < scale.grace / 2 {
            self.grace_warned = false;
            self.grace_until = None;
        }
        false
    }

    /// Whether the address is banned.
    pub fn is_banned(&self, now: u64) -> (r: bool)
        ensures
            r == banned(self@, now),
    {
        if self.permanent_ban {
            return true;
        }
        match self.banned_until {
            Some(t) => (now as u128) < t,
            None => false,
        }
    }

    /// Bans the address once more; says whether it was banned often enough for the ban to
    /// be for good.
    pub fn ban(&mut self, now: u64) -> (r: bool)
        requires
            old(self).wf(),
            old(self)@.ban_count < u32::MAX,
        ensures
            final(self).wf(),
            final(self)@ == ban_applied(old(self)@, now),
            r == (final(self)@.ban_count >= PERMANENT_BAN_AFTER),
    {
        self.ban_count += 1;
        if self.ban_count >= PERMANENT_BAN_AFTER {
            self.permanent_ban = true;
            return true;
        }
        self.banned_until = Some(now as u128 + BAN_NANOS);
        false
    }

    /// Bans the address once more, for good at once if it is suspect; says whether the
    /// ban is for good.
    fn ban_address(&mut self, suspect: bool, now: u64) -> (r: bool)
        requires
            old(self).wf(),
            !old(self)@.permanent,
        ensures
            final(self).wf(),
            final(self)@ == ban_stored(old(self)@, suspect, now),
            r == final(self)@.permanent,
    {
        let often = self.ban(now);
        if suspect {
            self.permanent_ban = true;
        }
        suspect || often
    }

    /// Warns an address that is to be banned, if it was not warned yet; says whether it
    /// was warned now.
    fn warn_before_ban(&mut self, now: u64) -> (r: bool)
        requires
            old(self).wf(),
        ensures
            final(self).wf(),
            final(self)@ == warned_before_ban(old(self)@, now),
            r == !old(self)@.grace_warned,
    {
        if self.grace_warned {
            return false;
        }
        self.grace_warned = true;
        self.grace_until = Some(now as u128 + GRACE_NANOS);
        true
    }

    /// Counts an event, notes the traffic and says whether the address is to be warned.
    fn observe(&mut self, kind: PacketKind, port: u16, now: u64, scale: &AdaptiveScale) -> (r: bool)
        requires
            old(self).wf(),
        ensures
            final(self).wf(),
            r == grace_due(
                adapted(recorded(old(self)@, kind, port, now), scale.multiplier),
                *scale,
            ),
            final(self)@ == observed(old(self)@, kind, port, now, *scale),
    {
        match kind {
            PacketKind::Tcp => self.record_tcp(port, now),
            PacketKind::Udp => self.record_udp(port, now),
            PacketKind::Icmp => self.record_icmp(now),
            PacketKind::Http => self.record_http(now),
        }
        self.update_adaptive(scale.multiplier);
        self.check_grace(scale, now)
    }

    /// Lifts the ban and starts the count of bans over.
    fn lift_ban(&mut self)
        requires
            old(self).wf(),
        ensures
            final(self).wf(),
            final(self)@ == ban_lifted(old(self)@),
    {
        self.banned_until = None;
        self.permanent_ban = false;
        self.ban_count = 0;
        self.ban_reason = None;
    }

    /// Takes up a saved ban again.
    pub fn restore_ban(&mut self, permanent: bool, ban_events: u32, now: u64)
        requires
            old(self).wf(),
            !permanent ==> ban_events < u32::MAX,
        ensures
            final(self).wf(),
            final(self)@ == ban_restored(old(self)@, permanent, ban_events, now),
    {
        self.permanent_ban = permanent;
        self.ban_count = ban_events;
        if !permanent {
            self.banned_until = Some(now as u128 + BAN_NANOS);
        }
    }
}

// ---------------------------------------------------------------------------
// All addresses
// ---------------------------------------------------------------------------

/// What the detector knows.
pub ghost struct FloodModel {
    pub counters: Map<Seq<char>, CounterModel>,
    pub whitelist: Seq<Seq<char>>,
    pub attackers: Map<u16, Map<Seq<char>, u64>>,
    pub events_logged: u64,
    pub bans_issued: u64,
    pub permanent_bans: u64,
    pub grace_warnings: u64,
    pub ddos_detected: u64,
    pub real_ban: bool,
    pub learning_mode: bool,
    pub fake_ip_guard: bool,
}

/// An attack that was found.
pub ghost struct EventModel {
    pub ip: Seq<char>,
    pub ip_type: Seq<char>,
    pub flood_type: FloodType,
    pub port: u16,
    pub count: nat,
    pub timestamp: u64,
    pub permanent: bool,
    pub grace: bool,
}

/// A ban that was issued.
pub ghost struct BanModel {
    pub event: EventModel,
    pub reason: Seq<char>,
    pub target: Seq<char>,
    pub firewall: bool,
}

/// What came of one event: how many events were warned of, the ban that was issued, and
/// how many sources a distributed attack has.
pub ghost struct OutcomeModel {
    pub grace: Option<nat>,
    pub ban: Option<BanModel>,
    pub ddos: Option<nat>,
}

/// The next value of a counter that starts over after its largest value.
pub open spec fn bump(n: u64) -> u64 {
    if n == u64::MAX {
        0
    } else {
        (n + 1) as u64
    }
}

/// The next value of a counter that starts over after its largest value.
pub fn next_count(n: u64) -> (r: u64)
    ensures
        r == bump(n),
{
    if n == u64::MAX {
        0
    } else {
        n + 1
    }
}

/// What is known of an address.
pub open spec fn counter_of(counters: Map<Seq<char>, CounterModel>, ip: Seq<char>) -> CounterModel {
    if counters.contains_key(ip) {
        counters[ip]
    } else {
        fresh_counter()
    }
}

/// Whether a ban holds of the address: its own, or for IPv6 that of another address of
/// its subnet.
pub open spec fn ip_banned(m: FloodModel, ip: Seq<char>, now: u64) -> bool {
    exists|other: Seq<char>| #[trigger]
        m.counters.contains_key(other) && same_subnet(other, ip) && banned(m.counters[other], now)
}

/// What a ban of the address is enforced on: for IPv6 its whole subnet.
pub open spec fn ban_target_of(ip: Seq<char>) -> Seq<char> {
    match subnet64(ip) {
        Some(subnet) => subnet,
        None => ip,
    }
}

/// Whether events of the address are left out of account: it is never to be banned, or
/// it is banned already.
pub open spec fn ignored(m: FloodModel, ip: Seq<char>, now: u64) -> bool {
    neutral_ip(ip) || m.whitelist.contains(ip) || ip_banned(m, ip, now)
}

/// The protocol that the text of an address shows.
pub open spec fn ip_type_of(ip: Seq<char>) -> Seq<char> {
    if ip.contains(':') {
        "IPv6"@
    } else {
        "IPv4"@
    }
}

/// Why an address was banned.
pub open spec fn ban_reason(kind: FloodType, port: u16, suspect: bool) -> Seq<char> {
    let reason = match kind {
        FloodType::PortFlood => "PORT-FLOOD порт "@ + dec(port as nat),
        FloodType::UdpFlood => "UDP-FLOOD порт "@ + dec(port as nat),
        FloodType::DdosFlood => "DDOS-FLOOD порт "@ + dec(port as nat),
        FloodType::NoFlood => "UNKNOWN"@,
        other => flood_label(other),
    };
    if suspect {
        reason + " (VPN/прокси)"@
    } else {
        reason
    }
}

/// Nothing came of an event.
pub open spec fn nothing() -> OutcomeModel {
    OutcomeModel { grace: None, ban: None, ddos: None }
}

/// The detector after an event, and what came of it. No address is banned without a
/// warning: one that was not warned since its traffic was last low is warned with the ban.
pub open spec fn registered(
    m: FloodModel,
    ip: Seq<char>,
    port: u16,
    kind: PacketKind,
    now: u64,
    scale: AdaptiveScale,
) -> (FloodModel, OutcomeModel) {
    if ignored(m, ip, now) {
        (m, nothing())
    } else {
        let before = counter_of(m.counters, ip);
        let c = observed(before, kind, port, now, scale);
        let found = analysis(c, scale);
        let warned = grace_due(
            adapted(recorded(before, kind, port, now), scale.multiplier),
            scale,
        ) || (found.0 != FloodType::NoFlood && !c.grace_warned);
        let grace = if warned {
            Some(c.total.len())
        } else {
            None
        };
        let grace_warnings = if warned {
            bump(m.grace_warnings)
        } else {
            m.grace_warnings
        };
        if found.0 != FloodType::NoFlood {
            let ban = issued(m, ip, c, found, now);
            (
                FloodModel {
                    counters: m.counters.insert(
                        ip,
                        CounterModel {
                            reason: Some(ban.reason),
                            ..ban_stored(
                                warned_before_ban(c, now),
                                vpn_ip(ip) && m.fake_ip_guard,
                                now,
                            )
                        },
                    ),
                    grace_warnings,
                    bans_issued: bump(m.bans_issued),
                    events_logged: bump(m.events_logged),
                    permanent_bans: if ban.event.permanent {
                        bump(m.permanent_bans)
                    } else {
                        m.permanent_bans
                    },
                    ..m
                },
                OutcomeModel { grace, ban: Some(ban), ddos: None },
            )
        } else if dangerous_ports().contains(port) {
            let attackers = with_source(m.attackers, port, ip, now);
            let sources = attackers[port].dom().len();
            let attacked = sources >= DDOS_MIN_SOURCES;
            (
                FloodModel {
                    counters: m.counters.insert(ip, c),
                    attackers,
                    grace_warnings,
                    ddos_detected: if attacked {
                        bump(m.ddos_detected)
                    } else {
                        m.ddos_detected
                    },
                    ..m
                },
                OutcomeModel {
                    grace,
                    ban: None,
                    ddos: if attacked {
                        Some(sources)
                    } else {
                        None
                    },
                },
            )
        } else {
            (
                FloodModel { counters: m.counters.insert(ip, c), grace_warnings, ..m },
                OutcomeModel { grace, ban: None, ddos: None },
            )
        }
    }
}

/// The ban that an attack leads to. An address of a VPN, proxy or data centre is banned
/// for good at once, where those are guarded against. A ban of an IPv6 address is
/// enforced on its subnet.
pub open spec fn issued(
    m: FloodModel,
    ip: Seq<char>,
    c: CounterModel,
    found: (FloodType, u16, nat),
    now: u64,
) -> BanModel {
    let suspect = vpn_ip(ip) && m.fake_ip_guard;
    BanModel {
        event: EventModel {
            ip,
            ip_type: ip_type_of(ip),
            flood_type: found.0,
            port: found.1,
            count: found.2,
            timestamp: now,
            permanent: ban_stored(c, suspect, now).permanent,
            grace: false,
        },
        reason: ban_reason(found.0, found.1, suspect),
        target: ban_target_of(ip),
        firewall: m.real_ban && !m.learning_mode,
    }
}

/// An attack that was found.
#[derive(Debug, Clone)]
pub struct FloodEvent {
    pub ip: String,
    pub ip_type: String,
    pub flood_type: FloodType,
    pub port: u16,
    pub count: usize,
    /// When it was found, in nanoseconds of the monotonic clock.
    pub timestamp: u64,
    pub permanent: bool,
    pub grace: bool,
}

impl View for FloodEvent {
    type V = EventModel;

    open spec fn view(&self) -> EventModel {
        EventModel {
            ip: self.ip@,
            ip_type: self.ip_type@,
            flood_type: self.flood_type,
            port: self.port,
            count: self.count as nat,
            timestamp: self.timestamp,
            permanent: self.permanent,
            grace: self.grace,
        }
    }
}

/// A ban that was issued.
#[derive(Debug, Clone)]
pub struct BanOrder {
    pub event: FloodEvent,
    pub reason: String,
    /// What the ban is enforced on: the address, or for IPv6 its subnet.
    pub target: String,
    /// Whether the firewall is to be told.
    pub firewall: bool,
}

impl View for BanOrder {
    type V = BanModel;

    open spec fn view(&self) -> BanModel {
        BanModel {
            event: self.event@,
            reason: self.reason@,
            target: self.target@,
            firewall: self.firewall,
        }
    }
}

/// What came of one event.
#[derive(Debug, Clone)]
pub struct RegisterOutcome {
    /// How many events the address has, where it is to be warned.
    pub grace: Option<usize>,
    /// The ban that was issued.
    pub ban: Option<BanOrder>,
    /// How many sources attack the port, where they are many.
    pub ddos: Option<usize>,
}

/// The number held by an optional count.
pub open spec fn optional_count(n: Option<usize>) -> Option<nat> {
    match n {
        Some(k) => Some(k as nat),
        None => None,
    }
}

impl View for RegisterOutcome {
    type V = OutcomeModel;

    open spec fn view(&self) -> OutcomeModel {
        OutcomeModel {
            grace: optional_count(self.grace),
            ban: match self.ban {
                Some(b) => Some(b@),
                None => None,
            },
            ddos: optional_count(self.ddos),
        }
    }
}

impl RegisterOutcome {
    /// Nothing came of the event.
    fn nothing() -> (r: Self)
        ensures
            r@ == nothing(),
    {
        RegisterOutcome { grace: None, ban: None, ddos: None }
    }

    /// Whether the event led to a ban.
    pub fn flagged(&self) -> (r: bool)
        ensures
            r == (self@.ban is Some),
    {
        self.ban.is_some()
    }
}

/// The protocol that the text of an address shows.
pub fn ip_type(ip: &str) -> (r: String)
    ensures
        r@ == ip_type_of(ip@),
{
    if contains_char(ip, ':') {
        "IPv6".to_owned()
    } else {
        "IPv4".to_owned()
    }
}

/// Why an address was banned.
fn reason_text(kind: FloodType, port: u16, suspect: bool) -> (r: String)
    ensures
        r@ == ban_reason(kind, port, suspect),
{
    let mut s = match kind {
        FloodType::PortFlood => with_number("PORT-FLOOD порт ", port as u64),
        FloodType::UdpFlood => with_number("UDP-FLOOD порт ", port as u64),
        FloodType::DdosFlood => with_number("DDOS-FLOOD порт ", port as u64),
        FloodType::NoFlood => "UNKNOWN".to_owned(),
        other => other.label().to_owned(),
    };
    if suspect {
        s.append(" (VPN/прокси)");
    }
    s
}

/// What a ban of the address is enforced on.
pub fn ban_target(ip: &str) -> (r: String)
    ensures
        r@ == ban_target_of(ip@),
{
    match ipv6_subnet64(ip) {
        Some(subnet) => subnet,
        None => ip.to_owned(),
    }
}

/// Where the counter of an address stands; a new one is made for an address that has
/// none.
fn slot(counters: &mut Table<String, PerIpCounter>, ip: &str) -> (i: usize)
    requires
        old(counters).wf(),
        forall|j: int|
            0 <= j < old(counters).values().len() ==> (#[trigger] old(counters).values()[j]).wf(),
    ensures
        final(counters).wf(),
        forall|j: int|
            0 <= j < final(counters).values().len() ==> (#[trigger] final(
                counters
            ).values()[j]).wf(),
        i < final(counters).values().len(),
        final(counters).keys()[i as int] == ip@,
        final(counters).values()[i as int]@ == counter_of(old(counters)@, ip@),
        old(counters)@.contains_key(ip@) ==> final(counters)@ == old(counters)@,
        !old(counters)@.contains_key(ip@) ==> final(counters)@ == old(counters)@.insert(
            ip@,
            fresh_counter(),
        ),
{
    let key = ip.to_owned();
    match counters.position(&key) {
        Some(i) => i,
        None => {
            let i: usize = counters.len();
            counters.add_new(key, PerIpCounter::new());
            i
        },
    }
}

/// The numbers of what the detector has found.
#[derive(Debug, Clone, Copy, PartialEq, Eq, Structural)]
pub struct FloodCounts {
    pub events_logged: u64,
    pub bans_issued: u64,
    pub permanent_bans: u64,
    pub grace_warnings: u64,
    pub ddos_detected: u64,
}

/// Finds floods and bans the addresses that they come from.
pub struct AntiFlood {
    counters: Table<String, PerIpCounter>,
    whitelist: Vec<String>,
    port_attackers: PortAttackers,
    pub events_logged: u64,
    pub bans_issued: u64,
    pub permanent_bans: u64,
    pub grace_warnings: u64,
    pub ddos_detected: u64,
    pub real_ban: bool,
    pub learning_mode: bool,
    pub fake_ip_guard: bool,
}

impl View for AntiFlood {
    type V = FloodModel;

    closed spec fn view(&self) -> FloodModel {
        FloodModel {
            counters: self.counters@,
            whitelist: views(self.whitelist@),
            attackers: self.port_attackers@,
            events_logged: self.events_logged,
            bans_issued: self.bans_issued,
            permanent_bans: self.permanent_bans,
            grace_warnings: self.grace_warnings,
            ddos_detected: self.ddos_detected,
            real_ban: self.real_ban,
            learning_mode: self.learning_mode,
            fake_ip_guard: self.fake_ip_guard,
        }
    }
}

impl AntiFlood {
    /// The counters and the tables of attackers are well-formed.
    pub closed spec fn wf(&self) -> bool {
        &&& self.counters.wf()
        &&& forall|j: int|
            0 <= j < self.counters.values().len() ==> (#[trigger] self.counters.values()[j]).wf()
        &&& self.port_attackers.wf()
    }

    /// The addresses that are watched, in the order in which they are listed.
    pub closed spec fn ips(&self) -> Seq<Seq<char>> {
        self.counters.keys()
    }

    /// Counts an event and finds out what comes of it.
    pub fn register(
        &mut self,
        ip: &str,
        port: u16,
        kind: PacketKind,
        now: u64,
        scale: &AdaptiveScale,
    ) -> (r: RegisterOutcome)
        requires
            old(self).wf(),
        ensures
            final(self).wf(),
            final(self)@ == registered(old(self)@, ip@, port, kind, now, *scale).0,
            r@ == registered(old(self)@, ip@, port, kind, now, *scale).1,
    {
        let ghost m = self@;
        if is_neutral_ip(ip) {
            return RegisterOutcome::nothing();
        }
        if contains_text(&self.whitelist, ip) {
            return RegisterOutcome::nothing();
        }
        if self.is_banned_ip(ip, now) {
            return RegisterOutcome::nothing();
        }
        assert(!banned(counter_of(m.counters, ip@), now)) by {
            if m.counters.contains_key(ip@) {
                assert(same_subnet(ip@, ip@));
            }
        }
        let i: usize = slot(&mut self.counters, ip);
        let ghost mid = self.counters;
        let counter = self.counters.value_mut(i);
        let mut warned = counter.observe(kind, port, now, scale);
        let events: usize = counter.total.len();
        let (flood_type, flood_port, count) = counter.analyze(scale);
        if flood_type != FloodType::NoFlood {
            if counter.warn_before_ban(now) {
                warned = true;
            }
            let suspect = is_vpn_or_proxy_ip(ip) && self.fake_ip_guard;
            let permanent = counter.ban_address(suspect, now);
            let reason = reason_text(flood_type, flood_port, suspect);
            counter.ban_reason = Some(reason.as_str().to_owned());
            let ghost v = *counter;
            proof {
                Table::lemma_set(mid, self.counters, i as int, v);
            }
            if warned {
                self.grace_warnings = next_count(self.grace_warnings);
            }
            self.bans_issued = next_count(self.bans_issued);
            self.events_logged = next_count(self.events_logged);
            if permanent {
                self.permanent_bans = next_count(self.permanent_bans);
            }
            let event = FloodEvent {
                ip: ip.to_owned(),
                ip_type: ip_type(ip),
                flood_type,
                port: flood_port,
                count,
                timestamp: now,
                permanent,
                grace: false,
            };
            let firewall = self.real_ban && !self.learning_mode;
            assert(self@.counters =~= registered(m, ip@, port, kind, now, *scale).0.counters);
            return RegisterOutcome {
                grace: if warned {
                    Some(events)
                } else {
                    None
                },
                ban: Some(BanOrder { event, reason, target: ban_target(ip), firewall }),
                ddos: None,
            };
        }
        let ghost v = *counter;
        proof {
            Table::lemma_set(mid, self.counters, i as int, v);
        }
        if warned {
            self.grace_warnings = next_count(self.grace_warnings);
        }
        assert(self@.counters =~= registered(m, ip@, port, kind, now, *scale).0.counters);
        let mut ddos: Option<usize> = None;
        if is_dangerous_port(port) {
            self.port_attackers.track(port, ip, now);
            if let Some(sources) = self.port_attackers.sources(port) {
                if sources >= DDOS_MIN_SOURCES {
                    self.ddos_detected = next_count(self.ddos_detected);
                    ddos = Some(sources);
                }
            }
        }
        let grace = if warned {
            Some(events)
        } else {
            None
        };
        RegisterOutcome { grace, ban: None, ddos }
    }
}

impl AntiFlood {
    /// Whether a ban holds of the address: its own, or for IPv6 that of another address
    /// of its subnet.
    pub fn is_banned_ip(&self, ip: &str, now: u64) -> (r: bool)
        requires
            self.wf(),
        ensures
            r == ip_banned(self@, ip@, now),
    {
        let n: usize = self.counters.len();
        let mut i: usize = 0;
        while i < n
            invariant
                i <= n,
                n == self.counters.keys().len(),
                self.wf(),
                forall|j: int|
                    0 <= j < i ==> !(same_subnet(#[trigger] self.counters.keys()[j], ip@)
                        && banned(self.counters.values()[j]@, now)),
            decreases n - i,
        {
            if self.counters.value_at(i).is_banned(now) && in_same_subnet(
                self.counters.key_at(i).as_str(),
                ip,
            ) {
                proof {
                    self.counters.lemma_at(i as int);
                    assert(self@.counters.contains_key(self.counters.keys()[i as int]));
                }
                return true;
            }
            i += 1;
        }
        proof {
            assert forall|other: Seq<char>| #[trigger]
                self@.counters.contains_key(other) implies !(same_subnet(other, ip@) && banned(
                self@.counters[other],
                now,
            )) by {
                let j = self.counters.keys().index_of(other);
                self.counters.lemma_at(j);
                assert(self.counters.keys()[j] == other);
            }
        }
        false
    }
}

/// Whether the port is one of the TCP ports that are watched.
pub fn is_dangerous_port(port: u16) -> (r: bool)
    ensures
        r == dangerous_ports().contains(port),
{
    let ports = dangerous_list();
    let mut i: usize = 0;
    while i < ports.len()
        invariant
            i <= ports.len(),
            ports@ == dangerous_ports(),
            forall|j: int| 0 <= j < i ==> ports@[j] != port,
        decreases ports.len() - i,
    {
        if ports[i] == port {
            assert(dangerous_ports()[i as int] == port);
            return true;
        }
        i += 1;
    }
    false
}

// ---------------------------------------------------------------------------
// Management
// ---------------------------------------------------------------------------

/// The sum of a list of counts.
pub open spec fn sum_of(s: Seq<usize>) -> nat
    decreases s.len(),
{
    if s.len() == 0 {
        0
    } else {
        sum_of(s.drop_last()) + s.last() as nat
    }
}

/// What the multiplier of an address is made from: the sum of the past traffic, over how
/// many windows it was taken, and the multiplier so far.
#[derive(Debug, Clone, Copy, PartialEq, Eq, Structural)]
pub struct AdaptiveInput {
    pub sum: u128,
    pub samples: usize,
    pub multiplier: u32,
}

/// The past traffic of an address as it will be after one more event.
pub open spec fn traffic_with_event(c: CounterModel, now: u64) -> Seq<usize> {
    history_with(c.history, (recent(c.total, now).len() + 1) as usize)
}

/// The sum of a list of counts, each below the limit of its type, is bounded.
proof fn lemma_sum_bound(s: Seq<usize>)
    ensures
        sum_of(s) <= s.len() * 0xffff_ffff_ffff_ffff,
    decreases s.len(),
{
    if s.len() > 0 {
        lemma_sum_bound(s.drop_last());
        assert(s.len() * 0xffff_ffff_ffff_ffff == (s.len() - 1) * 0xffff_ffff_ffff_ffff
            + 0xffff_ffff_ffff_ffff) by (nonlinear_arith);
    }
}

/// The sum of a list of counts.
fn sum_counts(v: &Vec<usize>) -> (r: u128)
    requires
        v.len() <= 100,
    ensures
        r == sum_of(v@),
{
    let mut sum: u128 = 0;
    let mut i: usize = 0;
    assert(v@.take(0) =~= Seq::<usize>::empty());
    while i < v.len()
        invariant
            i <= v.len() <= 100,
            sum == sum_of(v@.take(i as int)),
        decreases v.len() - i,
    {
        proof {
            lemma_sum_bound(v@.take(i as int));
            assert(v@.take(i + 1).drop_last() =~= v@.take(i as int));
        }
        sum = sum + v[i] as u128;
        i += 1;
    }
    assert(v@.take(i as int) =~= v@);
    sum
}

/// The bans on the list that still hold.
pub open spec fn active_bans(
    bans: Map<Seq<char>, RecordModel>,
    clock: WallClock,
) -> Set<Seq<char>> {
    bans.dom().filter(|ip: Seq<char>| !expired(bans[ip], clock))
}

/// The counters after the saved bans that still hold were taken up again.
pub open spec fn bans_loaded(
    counters: Map<Seq<char>, CounterModel>,
    bans: Map<Seq<char>, RecordModel>,
    clock: WallClock,
    now: u64,
) -> Map<Seq<char>, CounterModel> {
    counters.union_prefer_right(
        Map::new(
            |ip: Seq<char>| active_bans(bans, clock).contains(ip),
            |ip: Seq<char>|
                CounterModel {
                    reason: Some(bans[ip].reason),
                    ..ban_restored(
                        counter_of(counters, ip),
                        bans[ip].permanent,
                        bans[ip].ban_events,
                        now,
                    )
                },
        ),
    )
}

/// A detector that has seen nothing.
pub open spec fn fresh_detector(real_ban: bool, learning_mode: bool) -> FloodModel {
    FloodModel {
        counters: Map::empty(),
        whitelist: Seq::empty(),
        attackers: Map::empty(),
        events_logged: 0,
        bans_issued: 0,
        permanent_bans: 0,
        grace_warnings: 0,
        ddos_detected: 0,
        real_ban,
        learning_mode,
        fake_ip_guard: true,
    }
}

/// Whether an address stays on record: it has events in the list, and the latest of
/// them is not long ago or the address is banned.
pub open spec fn remembered(c: CounterModel, now: u64) -> bool {
    c.total.len() > 0 && (age(c.total.last(), now) <= FORGET_NANOS || banned(c, now))
}

/// The detector after a cleanup.
pub open spec fn tidied(m: FloodModel, now: u64) -> FloodModel {
    FloodModel {
        counters: m.counters.restrict(
            Set::new(
                |ip: Seq<char>| m.counters.contains_key(ip) && remembered(m.counters[ip], now),
            ),
        ),
        attackers: purged(m.attackers, now),
        ..m
    }
}

/// The addresses that bans were issued of.
pub open spec fn banned_ips(m: FloodModel, now: u64) -> Set<Seq<char>> {
    m.counters.dom().filter(|ip: Seq<char>| banned(m.counters[ip], now))
}

/// The counters without the bans of an address and of its subnet.
pub open spec fn bans_lifted(
    counters: Map<Seq<char>, CounterModel>,
    ip: Seq<char>,
) -> Map<Seq<char>, CounterModel> {
    Map::new(
        |other: Seq<char>| counters.contains_key(other),
        |other: Seq<char>|
            if same_subnet(other, ip) {
                ban_lifted(counters[other])
            } else {
                counters[other]
            },
    )
}

/// The detector after the ban of an address on record, and of its subnet, was lifted by
/// hand.
pub open spec fn unbanned(m: FloodModel, ip: Seq<char>) -> FloodModel {
    if m.counters.contains_key(ip) {
        FloodModel { counters: bans_lifted(m.counters, ip), ..m }
    } else {
        m
    }
}

/// What the status report says.
pub open spec fn status_report(m: FloodModel, now: u64, average: Seq<char>) -> Seq<Seq<char>> {
    seq![
        "   Anti-Flood v3.0:"@,
        "     Наблюдаемых IP: "@ + dec(m.counters.dom().len()),
        "     Забаненных: "@ + dec(banned_ips(m, now).len()),
        "     Баннов выдано: "@ + dec(m.bans_issued as nat),
        "     Перманентных: "@ + dec(m.permanent_bans as nat),
        "     Грейс-предупреждений: "@ + dec(m.grace_warnings as nat),
        "     DDoS обнаружено: "@ + dec(m.ddos_detected as nat),
        "     Защита от VPN/фейк IP: "@ + (if m.fake_ip_guard {
            "ВКЛ"@
        } else {
            "ВЫКЛ"@
        }),
        "     Событий зафиксировано: "@ + dec(m.events_logged as nat),
        "     Средний адаптивный множитель: "@ + average,
        "     Файл банов: "@ + BANS_FILE@,
    ]
}

impl AntiFlood {
    /// A detector that takes up the saved bans that still hold.
    pub fn new(
        real_ban: bool,
        learning_mode: bool,
        saved: Vec<BanRecord>,
        clock: &WallClock,
        now: u64,
    ) -> (r: Self)
        requires
            clock.wf(),
            forall|i: int| 0 <= i < saved@.len() ==> countable((#[trigger] saved@[i])@),
        ensures
            r.wf(),
            r@ == (FloodModel {
                counters: bans_loaded(
                    Map::empty(),
                    latest(record_views(saved@)),
                    *clock,
                    now,
                ),
                ..fresh_detector(real_ban, learning_mode)
            }),
    {
        let mut module = AntiFlood {
            counters: Table::new(),
            whitelist: Vec::new(),
            port_attackers: PortAttackers::new(),
            events_logged: 0,
            bans_issued: 0,
            permanent_bans: 0,
            grace_warnings: 0,
            ddos_detected: 0,
            real_ban,
            learning_mode,
            fake_ip_guard: true,
        };
        assert(module@.whitelist =~= Seq::empty());
        module.load_bans(saved, clock, now);
        module
    }

    /// Takes up the saved bans that still hold; says how many there are.
    pub fn load_bans(&mut self, saved: Vec<BanRecord>, clock: &WallClock, now: u64) -> (r: usize)
        requires
            old(self).wf(),
            clock.wf(),
            forall|i: int| 0 <= i < saved@.len() ==> countable((#[trigger] saved@[i])@),
        ensures
            final(self).wf(),
            final(self)@ == (FloodModel {
                counters: bans_loaded(
                    old(self)@.counters,
                    latest(record_views(saved@)),
                    *clock,
                    now,
                ),
                ..old(self)@
            }),
            r == active_bans(latest(record_views(saved@)), *clock).len(),
    {
        let ghost m = self@;
        let ghost counters = self.counters@;
        let bans = read_bans(saved);
        let ghost all = bans@;
        let n: usize = bans.len();
        let mut loaded: usize = 0;
        let mut i: usize = 0;
        let ghost mut done: Set<Seq<char>> = Set::empty();
        proof {
            bans.lemma_len();
        }
        while i < n
            invariant
                i <= n,
                n == bans.keys().len(),
                bans.wf(),
                all == bans@,
                counters == m.counters,
                clock.wf(),
                self.wf(),
                forall|j: int| 0 <= j < n ==> countable((#[trigger] bans.values()[j])@),
                self@ == (FloodModel { counters: self.counters@, ..m }),
                done.finite(),
                loaded == done.len(),
                loaded <= i,
                forall|ip: Seq<char>| #[trigger]
                    done.contains(ip) <==> exists|j: int|
                        0 <= j < i && #[trigger] bans.keys()[j] == ip && !expired(all[ip], *clock),
                forall|ip: Seq<char>| #[trigger]
                    self.counters@.contains_key(ip) <==> counters.contains_key(ip)
                        || done.contains(ip),
                forall|ip: Seq<char>| #[trigger]
                    self.counters@.contains_key(ip) && !done.contains(ip) ==> self.counters@[ip]
                        == counters[ip],
                forall|ip: Seq<char>| #[trigger]
                    done.contains(ip) ==> self.counters@[ip] == (CounterModel {
                        reason: Some(all[ip].reason),
                        ..ban_restored(
                            counter_of(counters, ip),
                            all[ip].permanent,
                            all[ip].ban_events,
                            now,
                        )
                    }),
            decreases n - i,
        {
            let rec = bans.value_at(i);
            let ghost before_done = done;
            let ghost ip = bans.keys()[i as int];
            proof {
                bans.lemma_at(i as int);
                if done.contains(ip) {
                    let j = choose|j: int|
                        0 <= j < i && #[trigger] bans.keys()[j] == ip && !expired(all[ip], *clock);
                    assert(bans.keys()[j] == bans.keys()[i as int]);
                }
            }
            if !is_expired(rec, clock) {
                let key = bans.key_at(i);
                let at: usize = slot(&mut self.counters, key.as_str());
                let ghost mid = self.counters;
                let counter = self.counters.value_mut(at);
                counter.restore_ban(rec.permanent, rec.ban_events, now);
                counter.ban_reason = Some(rec.reason.as_str().to_owned());
                let ghost v = *counter;
                proof {
                    Table::lemma_set(mid, self.counters, at as int, v);
                    done = done.insert(ip);
                }
                loaded += 1;
            }
            i += 1;
            proof {
                assert forall|q: Seq<char>| #[trigger]
                    done.contains(q) <==> exists|j: int|
                        0 <= j < i && #[trigger] bans.keys()[j] == q && !expired(
                            all[q],
                            *clock,
                        ) by {
                    if done.contains(q) {
                        if before_done.contains(q) {
                            let j = choose|j: int|
                                0 <= j < i - 1 && #[trigger] bans.keys()[j] == q && !expired(
                                    all[q],
                                    *clock,
                                );
                            assert(bans.keys()[j] == q);
                        } else {
                            assert(bans.keys()[i - 1] == q);
                        }
                    }
                    if exists|j: int|
                        0 <= j < i && #[trigger] bans.keys()[j] == q && !expired(all[q], *clock) {
                        let j = choose|j: int|
                            0 <= j < i && #[trigger] bans.keys()[j] == q && !expired(
                                all[q],
                                *clock,
                            );
                        if j < i - 1 {
                            assert(before_done.contains(q));
                        }
                    }
                }
            }
        }
        proof {
            assert forall|q: Seq<char>| done.contains(q) <==> active_bans(all, *clock).contains(
                q,
            ) by {
                if active_bans(all, *clock).contains(q) {
                    let j = bans.keys().index_of(q);
                    assert(bans.keys()[j] == q);
                }
                if done.contains(q) {
                    let j = choose|j: int|
                        0 <= j < n && #[trigger] bans.keys()[j] == q && !expired(all[q], *clock);
                    bans.lemma_at(j);
                }
            }
            assert(done =~= active_bans(all, *clock));
            assert(self.counters@ =~= bans_loaded(counters, all, *clock, now));
        }
        loaded
    }

    /// Sets the addresses that are never banned.
    pub fn set_whitelist(&mut self, ips: &Vec<String>)
        requires
            old(self).wf(),
        ensures
            final(self).wf(),
            final(self)@ == (FloodModel { whitelist: views(ips@), ..old(self)@ }),
    {
        self.whitelist = copy_texts(ips);
    }

    /// What the next multiplier of an address is made from; nothing where its events are
    /// left out of account.
    pub fn adaptive_input(&self, ip: &str, now: u64) -> (r: Option<AdaptiveInput>)
        requires
            self.wf(),
        ensures
            r is None <==> ignored(self@, ip@, now),
            r matches Some(a) ==> {
                let c = counter_of(self@.counters, ip@);
                let history = traffic_with_event(c, now);
                a.sum == sum_of(history) && a.samples == history.len() && a.multiplier
                    == c.multiplier
            },
            r matches Some(a) ==> 1 <= a.samples <= ADAPTIVE_SAMPLES,
    {
        if is_neutral_ip(ip) || contains_text(&self.whitelist, ip) || self.is_banned_ip(ip, now) {
            return None;
        }
        let mut history: Vec<usize> = Vec::new();
        let mut multiplier: u32 = NEUTRAL_MULTIPLIER;
        let mut times: Vec<u64> = Vec::new();
        match self.counters.position(&ip.to_owned()) {
            None => {},
            Some(i) => {
                let c = self.counters.value_at(i);
                multiplier = c.adaptive_multiplier;
                times = c.total.clone();
                assert(times@ =~= c.total@);
                history = c.history.clone();
                assert(history@ =~= c.history@);
            },
        }
        prune(&mut times, now);
        times.push(now);
        history.push(times.len());
        if history.len() > ADAPTIVE_SAMPLES {
            let ghost longer = history@;
            history.remove(0);
            assert(history@ =~= longer.skip(1));
        }
        Some(AdaptiveInput { sum: sum_counts(&history), samples: history.len(), multiplier })
    }

    /// Counts a TCP connection to a port.
    pub fn register_tcp(&mut self, ip: &str, port: u16, now: u64, scale: &AdaptiveScale) -> (r:
        RegisterOutcome)
        requires
            old(self).wf(),
        ensures
            final(self).wf(),
            final(self)@ == registered(old(self)@, ip@, port, PacketKind::Tcp, now, *scale).0,
            r@ == registered(old(self)@, ip@, port, PacketKind::Tcp, now, *scale).1,
    {
        self.register(ip, port, PacketKind::Tcp, now, scale)
    }

    /// Counts a UDP packet to a port.
    pub fn register_udp(&mut self, ip: &str, port: u16, now: u64, scale: &AdaptiveScale) -> (r:
        RegisterOutcome)
        requires
            old(self).wf(),
        ensures
            final(self).wf(),
            final(self)@ == registered(old(self)@, ip@, port, PacketKind::Udp, now, *scale).0,
            r@ == registered(old(self)@, ip@, port, PacketKind::Udp, now, *scale).1,
    {
        self.register(ip, port, PacketKind::Udp, now, scale)
    }

    /// Counts an ICMP packet.
    pub fn register_icmp(&mut self, ip: &str, now: u64, scale: &AdaptiveScale) -> (r:
        RegisterOutcome)
        requires
            old(self).wf(),
        ensures
            final(self).wf(),
            final(self)@ == registered(old(self)@, ip@, 0, PacketKind::Icmp, now, *scale).0,
            r@ == registered(old(self)@, ip@, 0, PacketKind::Icmp, now, *scale).1,
    {
        self.register(ip, 0, PacketKind::Icmp, now, scale)
    }

    /// Counts an HTTP request.
    pub fn register_http(&mut self, ip: &str, now: u64, scale: &AdaptiveScale) -> (r:
        RegisterOutcome)
        requires
            old(self).wf(),
        ensures
            final(self).wf(),
            final(self)@ == registered(old(self)@, ip@, 80, PacketKind::Http, now, *scale).0,
            r@ == registered(old(self)@, ip@, 80, PacketKind::Http, now, *scale).1,
    {
        self.register(ip, 80, PacketKind::Http, now, scale)
    }

    /// Forgets addresses without recent events, and sources that attack no more.
    pub fn periodic_cleanup(&mut self, now: u64)
        requires
            old(self).wf(),
        ensures
            final(self).wf(),
            final(self)@ == tidied(old(self)@, now),
    {
        let ghost m = self@;
        let ghost p = |c: CounterModel| remembered(c, now);
        let keep = |c: &PerIpCounter| -> (b: bool)
            ensures
                b == remembered(c@, now),
        {
            c.is_remembered(now)
        };
        self.counters.retain(keep, Ghost(p));
        self.port_attackers.purge(now);
        assert(self@.counters =~= tidied(m, now).counters);
    }

    /// Lifts the ban of an address on record, and for IPv6 those of its subnet; says
    /// whether the address was on record.
    pub fn unban(&mut self, ip: &str) -> (r: bool)
        requires
            old(self).wf(),
        ensures
            final(self).wf(),
            final(self)@ == unbanned(old(self)@, ip@),
            r == old(self)@.counters.contains_key(ip@),
    {
        if !self.counters.contains(&ip.to_owned()) {
            return false;
        }
        let ghost m = self@;
        let ghost before = self.counters;
        let n: usize = self.counters.len();
        let mut i: usize = 0;
        while i < n
            invariant
                i <= n,
                before.wf(),
                n == before.keys().len(),
                self.counters.keys() == before.keys(),
                self.counters.values().len() == n,
                self.port_attackers.wf(),
                self@ == (FloodModel { counters: self.counters@, ..m }),
                forall|j: int| 0 <= j < n ==> (#[trigger] self.counters.values()[j]).wf(),
                forall|j: int|
                    0 <= j < i ==> (#[trigger] self.counters.values()[j])@ == (if same_subnet(
                        before.keys()[j],
                        ip@,
                    ) {
                        ban_lifted(before.values()[j]@)
                    } else {
                        before.values()[j]@
                    }),
                forall|j: int|
                    i <= j < n ==> #[trigger] self.counters.values()[j] == before.values()[j],
            decreases n - i,
        {
            if in_same_subnet(self.counters.key_at(i).as_str(), ip) {
                self.counters.value_mut(i).lift_ban();
            }
            i += 1;
        }
        proof {
            assert forall|k: Seq<char>| #[trigger] before@.contains_key(k) implies self.counters@[k]
                == bans_lifted(before@, ip@)[k] by {
                let j = before.keys().index_of(k);
                before.lemma_at(j);
                self.counters.lemma_at(j);
                assert(before.keys()[j] == k);
            }
            assert(self.counters@ =~= bans_lifted(before@, ip@));
        }
        true
    }

    /// Each watched address is listed once.
    pub proof fn lemma_ips(&self)
        requires
            self.wf(),
        ensures
            self.ips().no_duplicates(),
            self.ips().to_set() == self@.counters.dom(),
            self@.counters.dom().finite(),
    {
        self.counters.lemma_len();
        assert(self.ips().to_set() =~= self@.counters.dom());
    }

    /// The addresses that bans were issued of and still hold.
    pub fn get_banned_ips(&self, now: u64) -> (r: Vec<String>)
        requires
            self.wf(),
        ensures
            views(r@).no_duplicates(),
            views(r@).to_set() == banned_ips(self@, now),
    {
        let n: usize = self.counters.len();
        let mut out: Vec<String> = Vec::new();
        let mut i: usize = 0;
        while i < n
            invariant
                i <= n,
                n == self.counters.keys().len(),
                self.wf(),
                views(out@).no_duplicates(),
                forall|ip: Seq<char>| #[trigger]
                    views(out@).contains(ip) <==> exists|j: int|
                        0 <= j < i && #[trigger] self.counters.keys()[j] == ip && banned(
                            self@.counters[ip],
                            now,
                        ),
            decreases n - i,
        {
            let ghost before = views(out@);
            let ghost ip = self.counters.keys()[i as int];
            proof {
                self.counters.lemma_at(i as int);
                if before.contains(ip) {
                    let j = choose|j: int|
                        0 <= j < i && #[trigger] self.counters.keys()[j] == ip && banned(
                            self@.counters[ip],
                            now,
                        );
                    assert(self.counters.keys()[j] == self.counters.keys()[i as int]);
                }
            }
            if self.counters.value_at(i).is_banned(now) {
                push_text(&mut out, self.counters.key_at(i).as_str().to_owned());
            }
            i += 1;
            proof {
                assert forall|q: Seq<char>| #[trigger]
                    views(out@).contains(q) <==> exists|j: int|
                        0 <= j < i && #[trigger] self.counters.keys()[j] == q && banned(
                            self@.counters[q],
                            now,
                        ) by {
                    if views(out@).contains(q) {
                        if before.contains(q) {
                            let j = choose|j: int|
                                0 <= j < i - 1 && #[trigger] self.counters.keys()[j] == q && banned(
                                    self@.counters[q],
                                    now,
                                );
                            assert(self.counters.keys()[j] == q);
                        } else {
                            assert(self.counters.keys()[i - 1] == q);
                        }
                    }
                    if exists|j: int|
                        0 <= j < i && #[trigger] self.counters.keys()[j] == q && banned(
                            self@.counters[q],
                            now,
                        ) {
                        let j = choose|j: int|
                            0 <= j < i && #[trigger] self.counters.keys()[j] == q && banned(
                                self@.counters[q],
                                now,
                            );
                        if j < i - 1 {
                            assert(before.contains(q));
                            let k = before.index_of(q);
                            assert(views(out@)[k] == q);
                        } else {
                            assert(views(out@)[before.len() as int] == q);
                        }
                    }
                }
            }
        }
        proof {
            assert forall|q: Seq<char>| views(out@).to_set().contains(q) <==> banned_ips(
                self@,
                now,
            ).contains(q) by {
                if views(out@).contains(q) {
                    let j = choose|j: int|
                        0 <= j < n && #[trigger] self.counters.keys()[j] == q && banned(
                            self@.counters[q],
                            now,
                        );
                    self.counters.lemma_at(j);
                }
                if banned_ips(self@, now).contains(q) {
                    let j = self.counters.keys().index_of(q);
                    assert(self.counters.keys()[j] == q);
                    assert(views(out@).contains(q));
                }
            }
            assert(views(out@).to_set() =~= banned_ips(self@, now));
        }
        out
    }

    /// The multipliers of the watched addresses, in the order in which those are listed.
    pub fn multipliers(&self) -> (r: Vec<u32>)
        requires
            self.wf(),
        ensures
            r@ == self.ips().map_values(|ip: Seq<char>| self@.counters[ip].multiplier),
    {
        let n: usize = self.counters.len();
        let ghost all = self.ips().map_values(|ip: Seq<char>| self@.counters[ip].multiplier);
        let mut out: Vec<u32> = Vec::new();
        let mut i: usize = 0;
        while i < n
            invariant
                i <= n,
                n == self.counters.keys().len(),
                self.wf(),
                all == self.ips().map_values(|ip: Seq<char>| self@.counters[ip].multiplier),
                out@ == all.take(i as int),
            decreases n - i,
        {
            proof {
                self.counters.lemma_at(i as int);
            }
            out.push(self.counters.value_at(i).adaptive_multiplier);
            i += 1;
            assert(out@ =~= all.take(i as int));
        }
        assert(out@ =~= all);
        out
    }

    /// The lines of the status report. The average multiplier is given as text.
    pub fn print_status(&self, now: u64, average: &str) -> (r: Vec<String>)
        requires
            self.wf(),
        ensures
            views(r@) == status_report(self@, now, average@),
    {
        let banned_now = self.get_banned_ips(now);
        proof {
            views(banned_now@).unique_seq_to_set();
        }
        let guard = if self.fake_ip_guard {
            "ВКЛ"
        } else {
            "ВЫКЛ"
        };
        let mut out: Vec<String> = Vec::new();
        push_text(&mut out, "   Anti-Flood v3.0:".to_owned());
        push_text(&mut out, with_number("     Наблюдаемых IP: ", self.counters.len() as u64));
        push_text(&mut out, with_number("     Забаненных: ", banned_now.len() as u64));
        push_text(&mut out, with_number("     Баннов выдано: ", self.bans_issued));
        push_text(&mut out, with_number("     Перманентных: ", self.permanent_bans));
        push_text(&mut out, with_number("     Грейс-предупреждений: ", self.grace_warnings));
        push_text(&mut out, with_number("     DDoS обнаружено: ", self.ddos_detected));
        push_text(&mut out, with_text("     Защита от VPN/фейк IP: ", guard));
        push_text(&mut out, with_number("     Событий зафиксировано: ", self.events_logged));
        push_text(&mut out, with_text("     Средний адаптивный множитель: ", average));
        push_text(&mut out, with_text("     Файл банов: ", BANS_FILE));
        assert(views(out@) =~= status_report(self@, now, average@));
        out
    }

    /// The numbers of what was found so far.
    pub fn counts(&self) -> (r: FloodCounts)
        ensures
            r.events_logged == self@.events_logged,
            r.bans_issued == self@.bans_issued,
            r.permanent_bans == self@.permanent_bans,
            r.grace_warnings == self@.grace_warnings,
            r.ddos_detected == self@.ddos_detected,
    {
        FloodCounts {
            events_logged: self.events_logged,
            bans_issued: self.bans_issued,
            permanent_bans: self.permanent_bans,
            grace_warnings: self.grace_warnings,
            ddos_detected: self.ddos_detected,
        }
    }

    /// Whether the address belongs to a VPN, a proxy or a data centre.
    pub fn is_vpn(ip: &str) -> (r: bool)
        ensures
            r == vpn_ip(ip@),
    {
        is_vpn_or_proxy_ip(ip)
    }
}

impl PerIpCounter {
    /// Whether the address stays on record.
    fn is_remembered(&self, now: u64) -> (r: bool)
        ensures
            r == remembered(self@, now),
    {
        if self.total.len() == 0 {
            return false;
        }
        let last: u64 = self.total[self.total.len() - 1];
        now.saturating_sub(last) <= FORGET_NANOS || self.is_banned(now)
    }
}

/// Whether the address is not one of those that are never banned.
pub fn is_public_target(ip: &str) -> (r: bool)
    ensures
        r == !neutral_ip(ip@),
{
    !is_neutral_ip(ip)
}

// ---------------------------------------------------------------------------
// Messages
// ---------------------------------------------------------------------------

/// The warning that an address comes near a threshold.
pub open spec fn grace_notice(ip: Seq<char>, events: u64) -> Seq<char> {
    "[ANTI-FLOOD] ⚠️ ГРЕЙС-ПЕРИОД: "@ + ip + " приближается к порогу флуда ("@ + number_text(
        events,
    ) + " событий)"@
}

/// The notice that many sources attack a port.
pub open spec fn ddos_notice(port: u16, sources: u64) -> Seq<char> {
    "[ANTI-FLOOD] 🚨 DDoS ОБНАРУЖЕН: порт "@ + port_text(port) + " атакуют "@ + number_text(sources)
        + " источников"@
}

/// The notice that an address was banned.
pub open spec fn ban_notice(event: EventModel) -> Seq<char> {
    "[ANTI-FLOOD] "@ + event.ip + " ["@ + event.ip_type + "] "@ + flood_label(event.flood_type)
        + " порт "@ + port_text(event.port) + ": "@ + dec(event.count) + " событий → "@ + (
    if event.permanent {
        "ПЕРМАНЕНТНЫЙ БАН"@
    } else {
        "ЗАБАНЕН на 10 мин"@
    })
}

/// The warning that an address comes near a threshold.
pub fn grace_message(ip: &str, events: usize) -> (r: String)
    ensures
        r@ == grace_notice(ip@, events as u64),
{
    let mut s = "[ANTI-FLOOD] ⚠️ ГРЕЙС-ПЕРИОД: ".to_owned();
    s.append(ip);
    s.append(" приближается к порогу флуда (");
    s.append(decimal(events as u64).as_str());
    s.append(" событий)");
    s
}

/// The notice that many sources attack a port.
pub fn ddos_message(port: u16, sources: usize) -> (r: String)
    ensures
        r@ == ddos_notice(port, sources as u64),
{
    let mut s = with_number("[ANTI-FLOOD] 🚨 DDoS ОБНАРУЖЕН: порт ", port as u64);
    s.append(" атакуют ");
    s.append(decimal(sources as u64).as_str());
    s.append(" источников");
    s
}

/// The notice that an address was banned.
pub fn ban_message(event: &FloodEvent) -> (r: String)
    ensures
        r@ == ban_notice(event@),
{
    let mut s = "[ANTI-FLOOD] ".to_owned();
    s.append(event.ip.as_str());
    s.append(" [");
    s.append(event.ip_type.as_str());
    s.append("] ");
    s.append(event.flood_type.label());
    s.append(" порт ");
    s.append(decimal(event.port as u64).as_str());
    s.append(": ");
    s.append(decimal(event.count as u64).as_str());
    s.append(" событий → ");
    if event.permanent {
        s.append("ПЕРМАНЕНТНЫЙ БАН");
    } else {
        s.append("ЗАБАНЕН на 10 мин");
    }
    s
}

// ---------------------------------------------------------------------------
// Laws
// ---------------------------------------------------------------------------

/// Private, local and other special addresses are never counted and never banned, and
/// neither are those on the whitelist.
pub proof fn law_exempt_never_banned(
    m: FloodModel,
    ip: Seq<char>,
    port: u16,
    kind: PacketKind,
    now: u64,
    scale: AdaptiveScale,
)
    requires
        neutral_ip(ip) || m.whitelist.contains(ip),
    ensures
        registered(m, ip, port, kind, now, scale) == (m, nothing()),
{
}

/// While an address is banned, its events change nothing and nothing comes of them.
pub proof fn law_banned_is_ignored(
    m: FloodModel,
    ip: Seq<char>,
    port: u16,
    kind: PacketKind,
    now: u64,
    scale: AdaptiveScale,
)
    requires
        ip_banned(m, ip, now) || banned_ips(m, now).contains(ip),
    ensures
        registered(m, ip, port, kind, now, scale) == (m, nothing()),
{
    if banned_ips(m, now).contains(ip) {
        assert(m.counters.contains_key(ip) && same_subnet(ip, ip));
    }
}

/// An address that an event leads to a ban of is banned from then on for ten minutes, and
/// no longer unless it is banned for good.
pub proof fn law_ban_lasts_ten_minutes(
    m: FloodModel,
    ip: Seq<char>,
    port: u16,
    kind: PacketKind,
    now: u64,
    scale: AdaptiveScale,
    later: u64,
)
    requires
        registered(m, ip, port, kind, now, scale).1.ban is Some,
        now <= later,
    ensures
        later < now + BAN_NANOS ==> banned_ips(
            registered(m, ip, port, kind, now, scale).0,
            later,
        ).contains(ip),
        later >= now + BAN_NANOS ==> (banned_ips(
            registered(m, ip, port, kind, now, scale).0,
            later,
        ).contains(ip) <==> registered(m, ip, port, kind, now, scale).0.counters[ip].permanent),
{
}

/// The fifth ban of an address is for good: it holds at every later moment.
pub proof fn law_fifth_ban_is_permanent(
    m: FloodModel,
    ip: Seq<char>,
    port: u16,
    kind: PacketKind,
    now: u64,
    scale: AdaptiveScale,
    later: u64,
)
    requires
        registered(m, ip, port, kind, now, scale).1.ban is Some,
        4 <= counter_of(m.counters, ip).ban_count < u32::MAX,
    ensures
        registered(m, ip, port, kind, now, scale).1.ban->0.event.permanent,
        banned_ips(registered(m, ip, port, kind, now, scale).0, later).contains(ip),
{
}

/// Each ban of an address adds one to the number of its bans, and an event that leads to
/// no ban leaves that number as it is.
pub proof fn law_bans_are_counted(
    m: FloodModel,
    ip: Seq<char>,
    port: u16,
    kind: PacketKind,
    now: u64,
    scale: AdaptiveScale,
)
    requires
        counter_of(m.counters, ip).ban_count < u32::MAX,
    ensures
        ({
            let (after, outcome) = registered(m, ip, port, kind, now, scale);
            counter_of(after.counters, ip).ban_count == counter_of(m.counters, ip).ban_count + (
            if outcome.ban is Some {
                1int
            } else {
                0int
            })
        }),
{
}

/// No address is banned before it has five events of the kind it is banned for, or
/// while those do not pass the threshold of the kind.
pub proof fn law_no_ban_below_threshold(
    m: FloodModel,
    ip: Seq<char>,
    port: u16,
    kind: PacketKind,
    now: u64,
    scale: AdaptiveScale,
)
    requires
        registered(m, ip, port, kind, now, scale).1.ban is Some,
    ensures
        ({
            let event = registered(m, ip, port, kind, now, scale).1.ban->0.event;
            event.count >= MIN_PORT_REGISTRATIONS && event.count > (match event.flood_type {
                FloodType::SshBrute => scale.ssh,
                FloodType::HttpFlood => scale.http,
                FloodType::UdpFlood => scale.udp,
                FloodType::IcmpFlood => scale.icmp,
                FloodType::PortFlood => scale.port,
                _ => scale.ip,
            })
        }),
{
    let c = observed(counter_of(m.counters, ip), kind, port, now, scale);
    lemma_first_over(udp_ports(), c.udp, scale.udp);
    lemma_first_over(dangerous_ports(), c.tcp, scale.port);
}

/// An address that is taken into account is banned as soon as its events pass the
/// threshold for one address, or those on a watched port pass the threshold for a port.
pub proof fn law_flood_is_banned(
    m: FloodModel,
    ip: Seq<char>,
    port: u16,
    kind: PacketKind,
    now: u64,
    scale: AdaptiveScale,
)
    requires
        !ignored(m, ip, now),
        ({
            let c = observed(counter_of(m.counters, ip), kind, port, now, scale);
            ||| over(c.total.len(), scale.ip)
            ||| over(c.http.len(), scale.http)
            ||| over(c.icmp.len(), scale.icmp)
            ||| over(port_times(c.tcp, 22).len(), scale.ssh)
            ||| (dangerous_ports().contains(port) && over(
                port_times(c.tcp, port).len(),
                scale.port,
            ))
            ||| (udp_ports().contains(port) && over(port_times(c.udp, port).len(), scale.udp))
        }),
    ensures
        registered(m, ip, port, kind, now, scale).1.ban is Some,
        banned_ips(registered(m, ip, port, kind, now, scale).0, now).contains(ip),
{
    let c = observed(counter_of(m.counters, ip), kind, port, now, scale);
    lemma_over_is_found(udp_ports(), c.udp, scale.udp, port);
    lemma_over_is_found(dangerous_ports(), c.tcp, scale.port, port);
}

proof fn lemma_over_is_found(
    ports: Seq<u16>,
    m: Map<u16, Seq<u64>>,
    threshold: usize,
    port: u16,
)
    ensures
        ports.contains(port) && over(port_times(m, port).len(), threshold) ==> first_over(
            ports,
            m,
            threshold,
        ) is Some,
    decreases ports.len(),
{
    if ports.contains(port) && ports.len() > 0 {
        let i = ports.index_of(port);
        let rest = ports.skip(1);
        if i > 0 {
            assert(rest[i - 1] == port);
            assert(rest.contains(port));
        }
        lemma_over_is_found(rest, m, threshold, port);
    }
}

/// A warning is given once: while traffic does not drop below half of what it was warned
/// of, the next event of the address brings no other.
pub proof fn law_warning_comes_once(
    c: CounterModel,
    kind: PacketKind,
    port: u16,
    now: u64,
    scale: AdaptiveScale,
    next: AdaptiveScale,
)
    requires
        grace_due(c, scale),
    ensures
        ({
            let warned = grace_checked(c, scale, now);
            let more = adapted(recorded(warned, kind, port, now), next.multiplier);
            !grace_due(more, next) && (more.total.len() >= next.grace / 2 ==> grace_checked(
                more,
                next,
                now,
            ).grace_warned)
        }),
{
}

/// Where a distributed attack is reported, at least ten sources were seen on the port
/// within the last ten seconds, the one at hand among them.
pub proof fn law_reported_sources_are_recent(
    m: FloodModel,
    ip: Seq<char>,
    port: u16,
    kind: PacketKind,
    now: u64,
    scale: AdaptiveScale,
)
    requires
        registered(m, ip, port, kind, now, scale).1.ddos is Some,
    ensures
        ({
            let sources = registered(m, ip, port, kind, now, scale).0.attackers[port];
            &&& sources.dom().len() >= DDOS_MIN_SOURCES
            &&& sources.contains_key(ip)
            &&& forall|other: Seq<char>| #[trigger]
                sources.contains_key(other) ==> fresh(sources[other], now)
        }),
{
}

/// The port that is found is one of the list, and its events pass the threshold.
proof fn lemma_first_over(ports: Seq<u16>, m: Map<u16, Seq<u64>>, threshold: usize)
    ensures
        first_over(ports, m, threshold) matches Some(p) ==> ports.contains(p) && over(
            port_times(m, p).len(),
            threshold,
        ),
    decreases ports.len(),
{
    if ports.len() > 0 {
        lemma_first_over(ports.skip(1), m, threshold);
        if let Some(p) = first_over(ports, m, threshold) {
            if !over(port_times(m, ports[0]).len(), threshold) {
                let rest = ports.skip(1);
                let i = rest.index_of(p);
                assert(ports[i + 1] == p);
            } else {
                assert(ports[0] == p);
            }
        }
    }
}

/// Events of one address change nothing about another that is not of its subnet.
pub proof fn law_addresses_are_apart(
    m: FloodModel,
    ip: Seq<char>,
    other: Seq<char>,
    port: u16,
    kind: PacketKind,
    now: u64,
    scale: AdaptiveScale,
    later: u64,
)
    requires
        !same_subnet(ip, other),
    ensures
        counter_of(registered(m, ip, port, kind, now, scale).0.counters, other) == counter_of(
            m.counters,
            other,
        ),
        registered(m, ip, port, kind, now, scale).0.counters.contains_key(other)
            <==> m.counters.contains_key(other),
        ip_banned(registered(m, ip, port, kind, now, scale).0, other, later) <==> ip_banned(
            m,
            other,
            later,
        ),
{
    let after = registered(m, ip, port, kind, now, scale).0;
    assert forall|k: Seq<char>| k != ip implies (after.counters.contains_key(k)
        <==> m.counters.contains_key(k)) && (m.counters.contains_key(k) ==> after.counters[k]
        == m.counters[k]) by {}
    if ip_banned(after, other, later) {
        let k = choose|k: Seq<char>| #[trigger]
            after.counters.contains_key(k) && same_subnet(k, other) && banned(
                after.counters[k],
                later,
            );
        assert(m.counters.contains_key(k));
    }
    if ip_banned(m, other, later) {
        let k = choose|k: Seq<char>| #[trigger]
            m.counters.contains_key(k) && same_subnet(k, other) && banned(m.counters[k], later);
        assert(after.counters.contains_key(k));
    }
}

/// The ban of an IPv6 address covers its subnet: every address with the same first 64
/// bits is banned with it for ten minutes, and as long as it is if it is banned for good.
/// Its events change nothing.
pub proof fn law_ban_covers_subnet(
    m: FloodModel,
    ip: Seq<char>,
    other: Seq<char>,
    port: u16,
    kind: PacketKind,
    now: u64,
    scale: AdaptiveScale,
    later: u64,
    other_port: u16,
    other_kind: PacketKind,
    other_scale: AdaptiveScale,
)
    requires
        registered(m, ip, port, kind, now, scale).1.ban is Some,
        subnet64(ip) is Some,
        subnet64(other) == subnet64(ip),
        later < now + BAN_NANOS || registered(
            m,
            ip,
            port,
            kind,
            now,
            scale,
        ).0.counters[ip].permanent,
    ensures
        ip_banned(registered(m, ip, port, kind, now, scale).0, other, later),
        registered(
            registered(m, ip, port, kind, now, scale).0,
            other,
            other_port,
            other_kind,
            later,
            other_scale,
        ) == (registered(m, ip, port, kind, now, scale).0, nothing()),
{
    let after = registered(m, ip, port, kind, now, scale).0;
    assert(after.counters.contains_key(ip) && same_subnet(ip, other));
}

/// The first ban of an address of a VPN, proxy or data centre is for good, where those
/// are guarded against: it is reported so, and holds at every moment.
pub proof fn law_suspect_ban_is_permanent(
    m: FloodModel,
    ip: Seq<char>,
    port: u16,
    kind: PacketKind,
    now: u64,
    scale: AdaptiveScale,
    later: u64,
)
    requires
        vpn_ip(ip),
        m.fake_ip_guard,
        registered(m, ip, port, kind, now, scale).1.ban is Some,
    ensures
        registered(m, ip, port, kind, now, scale).1.ban->0.event.permanent,
        registered(m, ip, port, kind, now, scale).0.counters[ip].permanent,
        banned_ips(registered(m, ip, port, kind, now, scale).0, later).contains(ip),
        ip_banned(registered(m, ip, port, kind, now, scale).0, ip, later),
{
    let after = registered(m, ip, port, kind, now, scale).0;
    assert(after.counters.contains_key(ip) && same_subnet(ip, ip));
}

/// Whether a ban is for good is said the same by what is reported and by what is kept.
pub proof fn law_reported_ban_is_kept(
    m: FloodModel,
    ip: Seq<char>,
    port: u16,
    kind: PacketKind,
    now: u64,
    scale: AdaptiveScale,
)
    requires
        registered(m, ip, port, kind, now, scale).1.ban is Some,
    ensures
        registered(m, ip, port, kind, now, scale).1.ban->0.event.permanent
            == registered(m, ip, port, kind, now, scale).0.counters[ip].permanent,
{
}

/// Lifting the ban of an address on record ends it at every moment, whatever it was, for
/// the address and for its subnet, and starts the count of their bans over. Bans of other
/// addresses stay.
pub proof fn law_unban_undoes_ban(m: FloodModel, ip: Seq<char>, other: Seq<char>, now: u64)
    requires
        m.counters.contains_key(ip),
    ensures
        !ip_banned(unbanned(m, ip), ip, now),
        same_subnet(other, ip) ==> !ip_banned(unbanned(m, ip), other, now),
        unbanned(m, ip).counters[ip].ban_count == 0,
        !same_subnet(other, ip) ==> (ip_banned(unbanned(m, ip), other, now) <==> ip_banned(
            m,
            other,
            now,
        )),
        banned_ips(unbanned(m, ip), now) == banned_ips(m, now).filter(
            |k: Seq<char>| !same_subnet(k, ip),
        ),
{
    let after = unbanned(m, ip);
    assert(same_subnet(ip, ip));
    assert forall|k: Seq<char>| #[trigger] after.counters.contains_key(k) && same_subnet(
        k,
        ip,
    ) implies !banned(after.counters[k], now) by {}
    if ip_banned(after, ip, now) {
        let k = choose|k: Seq<char>| #[trigger]
            after.counters.contains_key(k) && same_subnet(k, ip) && banned(after.counters[k], now);
        assert(false);
    }
    if ip_banned(after, other, now) {
        let k = choose|k: Seq<char>| #[trigger]
            after.counters.contains_key(k) && same_subnet(k, other) && banned(
                after.counters[k],
                now,
            );
        assert(!same_subnet(k, ip));
        assert(m.counters.contains_key(k));
    }
    if ip_banned(m, other, now) && !same_subnet(other, ip) {
        let k = choose|k: Seq<char>| #[trigger]
            m.counters.contains_key(k) && same_subnet(k, other) && banned(m.counters[k], now);
        assert(after.counters.contains_key(k));
        assert(!same_subnet(k, ip));
    }
    assert(banned_ips(after, now) =~= banned_ips(m, now).filter(
        |k: Seq<char>| !same_subnet(k, ip),
    ));
}

/// A cleanup forgets no address that is banned and has events on record.
pub proof fn law_cleanup_keeps_bans(m: FloodModel, ip: Seq<char>, now: u64)
    requires
        banned_ips(m, now).contains(ip),
        m.counters[ip].total.len() > 0,
    ensures
        banned_ips(tidied(m, now), now).contains(ip),
        tidied(m, now).counters[ip] == m.counters[ip],
{
}

/// A ban that was saved is still in force after a restart before it ends, for the address
/// and for its subnet.
pub proof fn law_saved_ban_survives_restart(
    records: Seq<RecordModel>,
    ip: Seq<char>,
    other: Seq<char>,
    real_ban: bool,
    learning_mode: bool,
    end: i64,
    clock: WallClock,
    now: u64,
)
    requires
        latest(records).contains_key(ip),
        ends_at(latest(records)[ip], end),
        !earlier((end, 0u32), (clock.local(), clock.nanos)),
    ensures
        banned(
            counter_of(bans_loaded(Map::empty(), latest(records), clock, now), ip),
            now,
        ),
        same_subnet(ip, other) ==> ip_banned(
            FloodModel {
                counters: bans_loaded(Map::empty(), latest(records), clock, now),
                ..fresh_detector(real_ban, learning_mode)
            },
            other,
            now,
        ),
{
    law_loaded_bans_hold(Map::empty(), latest(records), clock, ip, now, now);
    let counters = bans_loaded(Map::empty(), latest(records), clock, now);
    let m = FloodModel { counters, ..fresh_detector(real_ban, learning_mode) };
    assert(active_bans(latest(records), clock).contains(ip));
    assert(m.counters.contains_key(ip));
    assert(counter_of(counters, ip) == m.counters[ip]);
}

/// A ban that is taken up from the list holds for ten minutes more, or for good.
pub proof fn law_loaded_bans_hold(
    counters: Map<Seq<char>, CounterModel>,
    bans: Map<Seq<char>, RecordModel>,
    clock: WallClock,
    ip: Seq<char>,
    now: u64,
    later: u64,
)
    requires
        bans.contains_key(ip),
        !expired(bans[ip], clock),
        bans[ip].permanent || later < now + BAN_NANOS,
    ensures
        banned(counter_of(bans_loaded(counters, bans, clock, now), ip), later),
{
}

/// While the detector only learns, no ban is told to the firewall.
pub proof fn law_learning_spares_the_firewall(
    m: FloodModel,
    ip: Seq<char>,
    port: u16,
    kind: PacketKind,
    now: u64,
    scale: AdaptiveScale,
)
    requires
        m.learning_mode,
    ensures
        registered(m, ip, port, kind, now, scale).1.ban matches Some(ban) ==> !ban.firewall,
{
}

/// The lists of events of a counter.
pub open spec fn counter_lists(c: CounterModel) -> EventLists {
    EventLists { first: c.tcp, second: c.udp, third: c.icmp, fourth: c.http, total: c.total }
}

/// What can be done to a counter.
pub ghost enum CounterStep {
    Record(PacketKind, u16),
    Clean,
    Adapt(u32),
    Grace(AdaptiveScale),
    Ban(bool),
    Restore(bool, u32),
    Lift,
    Explain(Option<Seq<char>>),
}

/// A counter after one step at the moment `now`.
pub open spec fn counter_after(c: CounterModel, step: CounterStep, now: u64) -> CounterModel {
    match step {
        CounterStep::Record(kind, port) => recorded(c, kind, port, now),
        CounterStep::Clean => cleaned(c, now),
        CounterStep::Adapt(multiplier) => adapted(c, multiplier),
        CounterStep::Grace(scale) => grace_checked(c, scale, now),
        CounterStep::Ban(suspect) => ban_stored(c, suspect, now),
        CounterStep::Restore(permanent, events) => ban_restored(c, permanent, events, now),
        CounterStep::Lift => ban_lifted(c),
        CounterStep::Explain(reason) => CounterModel { reason, ..c },
    }
}

/// A new counter after a history of steps.
pub open spec fn counter_history(steps: Seq<(CounterStep, u64)>) -> CounterModel
    decreases steps.len(),
{
    if steps.len() == 0 {
        fresh_counter()
    } else {
        counter_after(counter_history(steps.drop_last()), steps.last().0, steps.last().1)
    }
}

/// Where an event is listed, beside the list of all.
spec fn place_of(kind: PacketKind, port: u16) -> Place {
    match kind {
        PacketKind::Tcp => Place::First(port),
        PacketKind::Udp => Place::Second(port),
        PacketKind::Icmp => Place::Third,
        PacketKind::Http => Place::Fourth,
    }
}

proof fn lemma_step_sound(c: CounterModel, step: CounterStep, then: u64, now: u64)
    requires
        sound(counter_lists(c), then),
        then <= now,
    ensures
        sound(counter_lists(counter_after(c, step, now)), now),
{
    lemma_later_sound(counter_lists(c), then, now);
    lemma_cleaned_sound(counter_lists(c), then, now);
    if let CounterStep::Record(kind, port) = step {
        lemma_event_sound(counter_lists(cleaned(c, now)), place_of(kind, port), now);
    }
}

proof fn lemma_history_sound(steps: Seq<(CounterStep, u64)>, now: u64)
    requires
        forall|i: int, j: int| 0 <= i < j < steps.len() ==> (#[trigger] steps[i]).1 <= (
        #[trigger] steps[j]).1,
        forall|i: int| 0 <= i < steps.len() ==> (#[trigger] steps[i]).1 <= now,
    ensures
        sound(counter_lists(counter_history(steps)), now),
    decreases steps.len(),
{
    if steps.len() == 0 {
        lemma_no_events(now);
    } else {
        let front = steps.drop_last();
        let last = steps.last();
        assert forall|i: int| 0 <= i < front.len() implies (#[trigger] front[i]).1 <= last.1 by {
            assert(steps[i].1 <= steps[steps.len() - 1].1);
        }
        assert forall|i: int, j: int| 0 <= i < j < front.len() implies (#[trigger] front[i]).1 <= (
        #[trigger] front[j]).1 by {
            assert(steps[i].1 <= steps[j].1);
        }
        lemma_history_sound(front, last.1);
        lemma_step_sound(counter_history(front), last.0, last.1, last.1);
        assert(steps[steps.len() - 1].1 <= now);
        lemma_later_sound(counter_lists(counter_history(steps)), last.1, now);
    }
}

/// Whatever is done to a counter as time goes on, its list of all events has as many as
/// its lists by kind together, and every list is in order of time.
pub proof fn law_lists_agree(steps: Seq<(CounterStep, u64)>, now: u64)
    requires
        forall|i: int, j: int| 0 <= i < j < steps.len() ==> (#[trigger] steps[i]).1 <= (
        #[trigger] steps[j]).1,
        forall|i: int| 0 <= i < steps.len() ==> (#[trigger] steps[i]).1 <= now,
    ensures
        lists_agree(counter_lists(counter_history(steps)), now),
{
    lemma_history_sound(steps, now);
    lemma_sound_agrees(counter_lists(counter_history(steps)), now);
}

/// The lists of all counters that the detector keeps are sound, and stay so with every
/// event that is registered.
pub proof fn law_registering_keeps_lists_sound(
    m: FloodModel,
    ip: Seq<char>,
    port: u16,
    kind: PacketKind,
    now: u64,
    scale: AdaptiveScale,
    other: Seq<char>,
)
    requires
        forall|k: Seq<char>| #[trigger]
            m.counters.contains_key(k) ==> sound(counter_lists(m.counters[k]), now),
        registered(m, ip, port, kind, now, scale).0.counters.contains_key(other),
    ensures
        sound(
            counter_lists(registered(m, ip, port, kind, now, scale).0.counters[other]),
            now,
        ),
        lists_agree(
            counter_lists(registered(m, ip, port, kind, now, scale).0.counters[other]),
            now,
        ),
{
    let after = registered(m, ip, port, kind, now, scale).0;
    let c = counter_of(m.counters, ip);
    lemma_no_events(now);
    if m.counters.contains_key(ip) {
        assert(sound(counter_lists(m.counters[ip]), now));
    }
    lemma_step_sound(c, CounterStep::Record(kind, port), now, now);
    if other != ip {
        assert(m.counters.contains_key(other));
    }
    lemma_sound_agrees(counter_lists(after.counters[other]), now);
}

/// What can be done to the detector.
pub ghost enum FloodStep {
    Register(Seq<char>, u16, PacketKind, u64, AdaptiveScale),
    SetWhitelist(Seq<Seq<char>>),
    Load(Map<Seq<char>, RecordModel>, WallClock, u64),
    Cleanup(u64),
    Unban(Seq<char>),
    SetGuard(bool),
}

/// The detector after one step.
pub open spec fn flood_after(m: FloodModel, step: FloodStep) -> FloodModel {
    match step {
        FloodStep::Register(ip, port, kind, now, scale) => registered(
            m,
            ip,
            port,
            kind,
            now,
            scale,
        ).0,
        FloodStep::SetWhitelist(whitelist) => FloodModel { whitelist, ..m },
        FloodStep::Load(bans, clock, now) => FloodModel {
            counters: bans_loaded(m.counters, bans, clock, now),
            ..m
        },
        FloodStep::Cleanup(now) => tidied(m, now),
        FloodStep::Unban(ip) => unbanned(m, ip),
        FloodStep::SetGuard(fake_ip_guard) => FloodModel { fake_ip_guard, ..m },
    }
}

/// A new detector after a history of steps.
pub open spec fn flood_history(
    real_ban: bool,
    learning_mode: bool,
    steps: Seq<FloodStep>,
) -> FloodModel
    decreases steps.len(),
{
    if steps.len() == 0 {
        fresh_detector(real_ban, learning_mode)
    } else {
        flood_after(flood_history(real_ban, learning_mode, steps.drop_last()), steps.last())
    }
}

/// Whether a step on the detector warns the address: the warning is part of what comes of
/// the event, and is counted.
pub open spec fn step_warns(m: FloodModel, step: FloodStep, ip: Seq<char>) -> bool {
    match step {
        FloodStep::Register(who, port, kind, now, scale) => {
            &&& who == ip
            &&& registered(m, ip, port, kind, now, scale).1.grace is Some
            &&& registered(m, ip, port, kind, now, scale).0.grace_warnings == bump(
                m.grace_warnings,
            )
        },
        _ => false,
    }
}

/// Whether a step of a history warned the address.
pub open spec fn warned_at(
    real_ban: bool,
    learning_mode: bool,
    steps: Seq<FloodStep>,
    j: int,
    ip: Seq<char>,
) -> bool {
    step_warns(flood_history(real_ban, learning_mode, steps.take(j)), steps[j], ip)
}

/// An address that is marked as warned after a step was so before, or the step warns it.
proof fn lemma_step_marks(m: FloodModel, step: FloodStep, ip: Seq<char>)
    requires
        counter_of(flood_after(m, step).counters, ip).grace_warned,
    ensures
        counter_of(m.counters, ip).grace_warned || step_warns(m, step, ip),
{
}

proof fn lemma_marked_was_warned(
    real_ban: bool,
    learning_mode: bool,
    steps: Seq<FloodStep>,
    ip: Seq<char>,
)
    requires
        counter_of(flood_history(real_ban, learning_mode, steps).counters, ip).grace_warned,
    ensures
        exists|j: int|
            0 <= j < steps.len() && #[trigger] warned_at(real_ban, learning_mode, steps, j, ip),
    decreases steps.len(),
{
    if steps.len() > 0 {
        let front = steps.drop_last();
        let n = front.len() as int;
        let m = flood_history(real_ban, learning_mode, front);
        assert(steps.take(n) =~= front);
        lemma_step_marks(m, steps.last(), ip);
        if step_warns(m, steps.last(), ip) {
            assert(warned_at(real_ban, learning_mode, steps, n, ip));
        } else {
            lemma_marked_was_warned(real_ban, learning_mode, front, ip);
            let j = choose|j: int|
                0 <= j < front.len() && #[trigger] warned_at(real_ban, learning_mode, front, j, ip);
            assert(steps.take(j) =~= front.take(j));
            assert(warned_at(real_ban, learning_mode, steps, j, ip));
        }
    }
}

/// No address is banned unwarned: in every state that a new detector can come to, an
/// event that leads to a ban warns the address, or it was warned by an earlier event.
pub proof fn law_ban_is_warned_of(
    real_ban: bool,
    learning_mode: bool,
    steps: Seq<FloodStep>,
    ip: Seq<char>,
    port: u16,
    kind: PacketKind,
    now: u64,
    scale: AdaptiveScale,
)
    requires
        registered(
            flood_history(real_ban, learning_mode, steps),
            ip,
            port,
            kind,
            now,
            scale,
        ).1.ban is Some,
    ensures
        step_warns(
            flood_history(real_ban, learning_mode, steps),
            FloodStep::Register(ip, port, kind, now, scale),
            ip,
        ) || exists|j: int|
            0 <= j < steps.len() && #[trigger] warned_at(real_ban, learning_mode, steps, j, ip),
{
    let m = flood_history(real_ban, learning_mode, steps);
    law_unwarned_ban_warns(m, ip, port, kind, now, scale);
    if counter_of(m.counters, ip).grace_warned {
        lemma_marked_was_warned(real_ban, learning_mode, steps, ip);
    }
}

/// In whatever state, an event that leads to a ban warns an address that is not marked as
/// warned, counts the warning, and leaves the address marked.
pub proof fn law_unwarned_ban_warns(
    m: FloodModel,
    ip: Seq<char>,
    port: u16,
    kind: PacketKind,
    now: u64,
    scale: AdaptiveScale,
)
    requires
        registered(m, ip, port, kind, now, scale).1.ban is Some,
    ensures
        registered(m, ip, port, kind, now, scale).1.grace is Some || counter_of(
            m.counters,
            ip,
        ).grace_warned,
        registered(m, ip, port, kind, now, scale).1.grace is Some ==> registered(
            m,
            ip,
            port,
            kind,
            now,
            scale,
        ).0.grace_warnings == bump(m.grace_warnings),
        registered(m, ip, port, kind, now, scale).0.counters[ip].grace_warned,
{
}

/// An event on a port 22, 23, 80, 443, 445, 3389, 5900 or 8080 that is taken into account
/// and leads to no ban adds its source to those of the port, of which only those of the
/// last ten seconds stay. As soon as they are ten, and as long as they are, each such event
/// reports an attack by all of them, and the attack is counted.
pub proof fn law_many_sources_are_reported(
    m: FloodModel,
    ip: Seq<char>,
    port: u16,
    kind: PacketKind,
    now: u64,
    scale: AdaptiveScale,
)
    requires
        port == 22 || port == 23 || port == 80 || port == 443 || port == 445 || port == 3389
            || port == 5900 || port == 8080,
        !neutral_ip(ip),
        !m.whitelist.contains(ip),
        !ip_banned(m, ip, now),
        registered(m, ip, port, kind, now, scale).1.ban is None,
    ensures
        ({
            let (after, outcome) = registered(m, ip, port, kind, now, scale);
            let earlier = if m.attackers.contains_key(port) {
                m.attackers[port]
            } else {
                Map::<Seq<char>, u64>::empty()
            };
            let sources = after.attackers[port];
            &&& after.attackers.contains_key(port)
            &&& sources.contains_key(ip) && sources[ip] == now
            &&& forall|other: Seq<char>|
                other != ip ==> (#[trigger] sources.contains_key(other) <==> earlier.contains_key(
                    other,
                ) && earlier[other] + 10_000_000_000 > now)
            &&& forall|other: Seq<char>|
                other != ip && #[trigger] sources.contains_key(other) ==> sources[other]
                    == earlier[other]
            &&& forall|p: u16| p != port ==> (#[trigger] after.attackers.contains_key(p)
                <==> m.attackers.contains_key(p)) && (m.attackers.contains_key(p)
                ==> after.attackers[p] == m.attackers[p])
            &&& sources.dom().len() >= 10 ==> outcome.ddos == Some(sources.dom().len()) && (
            m.ddos_detected < u64::MAX ==> after.ddos_detected == m.ddos_detected + 1)
            &&& sources.dom().len() < 10 ==> outcome.ddos is None && after.ddos_detected
                == m.ddos_detected
        }),
{
    let l = dangerous_ports();
    assert(l[0] == 22 && l[1] == 23 && l[2] == 80 && l[3] == 443 && l[4] == 445 && l[5] == 3389
        && l[6] == 5900 && l[7] == 8080);
    assert(l.contains(port));
}

/// An event on another port, or one that leads to a ban, reports no attack by many
/// sources and notes no source.
pub proof fn law_no_other_attack_is_reported(
    m: FloodModel,
    ip: Seq<char>,
    port: u16,
    kind: PacketKind,
    now: u64,
    scale: AdaptiveScale,
)
    requires
        registered(m, ip, port, kind, now, scale).1.ban is Some || !(port == 22 || port == 23
            || port == 80 || port == 443 || port == 445 || port == 3389 || port == 5900 || port
            == 8080),
    ensures
        registered(m, ip, port, kind, now, scale).1.ddos is None,
        registered(m, ip, port, kind, now, scale).0.attackers == m.attackers,
        registered(m, ip, port, kind, now, scale).0.ddos_detected == m.ddos_detected,
{
}

} // verus!
