//! A scan of the network: which addresses are visited, and what is done about the devices
//! that answer.
use vstd::prelude::*;

use crate::addr::{addr_display, law_addr_roundtrip, IpAddrUniversal};
use crate::antiflood::{bump, ip_type, ip_type_of, tidied, AntiFlood};
use crate::ban_manager::{ban_tried, BanManager};
use crate::clock::WallClock;
use crate::config::Whitelist;
use crate::ddos::{ddos_tidied, DdosProtector};
use crate::detector::{
    curve_point, curve_with, data_cleaned, device_analyzed, learnable, profile_of, sample_collected,
    AIDetector, Anomaly, DetectorModel, HackerProfile, HIGH_RISK_THRESHOLD,
};
use crate::firewall::{ban_rules, command_views};
use crate::metrics::Metrics;
use crate::order::{are_smallest, smallest};
use crate::rate_limiter::{
    cleaned_up, fresh_limiter, has_room_for, law_first_scan_is_allowed, scan_requested,
    LimiterModel, RateLimiter,
};
use crate::store::{
    ban_row, log_ban_to_db, profile_row, save_hacker_profile, BanRow, ProfileRow,
};
use crate::text::{
    contains_char, contains_text, copy_texts, dec, decimal, number_text, port_text, push_text,
    same_text, views, with_number,
};
use crate::training::{input_of, BehaviorInput};

verus! {

// ---------------------------------------------------------------------------
// Targets
// ---------------------------------------------------------------------------

/// Whether addresses of its protocol are to be scanned.
pub open spec fn protocol_allows(protocol: Seq<char>, ip: IpAddrUniversal) -> bool {
    !(protocol == "ipv4"@ && ip is V6) && !(protocol == "ipv6"@ && ip is V4)
}

/// The limiter after all addresses were asked for, and those that are to be scanned.
pub open spec fn planned(
    m: LimiterModel,
    ips: Seq<IpAddrUniversal>,
    protocol: Seq<char>,
    now: u64,
) -> (LimiterModel, Seq<Seq<char>>)
    decreases ips.len(),
{
    if ips.len() == 0 {
        (m, seq![])
    } else {
        let (m1, targets) = planned(m, ips.drop_last(), protocol, now);
        let ip = addr_display(ips.last());
        if !protocol_allows(protocol, ips.last()) {
            (m1, targets)
        } else {
            let (m2, allowed) = scan_requested(m1, ip, now);
            (
                m2,
                if allowed {
                    targets.push(ip)
                } else {
                    targets
                },
            )
        }
    }
}

/// The addresses of a network that are to be scanned now: those of the wanted protocol
/// that were not scanned a moment ago.
pub fn plan_scan(
    ips: &Vec<IpAddrUniversal>,
    protocol: &str,
    limiter: &mut RateLimiter,
    now: u64,
) -> (r: Vec<String>)
    requires
        has_room_for(old(limiter)@, ips@.len()),
    ensures
        final(limiter)@ == planned(old(limiter)@, ips@, protocol@, now).0,
        views(r@) == planned(old(limiter)@, ips@, protocol@, now).1,
{
    let ghost m = limiter@;
    let mut out: Vec<String> = Vec::new();
    let mut i: usize = 0;
    assert(ips@.take(0) =~= Seq::<IpAddrUniversal>::empty());
    assert(views(out@) =~= Seq::<Seq<char>>::empty());
    while i < ips.len()
        invariant
            i <= ips.len(),
            has_room_for(limiter@, (ips.len() - i) as nat),
            limiter@ == planned(m, ips@.take(i as int), protocol@, now).0,
            views(out@) == planned(m, ips@.take(i as int), protocol@, now).1,
        decreases ips.len() - i,
    {
        assert(ips@.take(i + 1).drop_last() =~= ips@.take(i as int));
        let ip = ips[i];
        let skipped = (same_text(protocol, "ipv4") && !ip.is_v4()) || (same_text(protocol, "ipv6")
            && !ip.is_v6());
        if !skipped {
            let name = ip.to_string();
            if limiter.allow_scan(name.as_str(), now) {
                push_text(&mut out, name);
            }
        }
        i += 1;
    }
    assert(ips@.take(i as int) =~= ips@);
    out
}

/// No address is scanned whose protocol is not wanted, and none that is refused.
pub proof fn law_plan_is_selective(
    m: LimiterModel,
    ips: Seq<IpAddrUniversal>,
    protocol: Seq<char>,
    now: u64,
    k: int,
)
    requires
        0 <= k < planned(m, ips, protocol, now).1.len(),
    ensures
        exists|j: int|
            0 <= j < ips.len() && planned(m, ips, protocol, now).1[k] == addr_display(
                #[trigger] ips[j],
            ) && protocol_allows(protocol, ips[j]),
    decreases ips.len(),
{
    let front = ips.drop_last();
    let targets = planned(m, front, protocol, now).1;
    if k < targets.len() {
        law_plan_is_selective(m, front, protocol, now, k);
        let j = choose|j: int|
            0 <= j < front.len() && targets[k] == addr_display(#[trigger] front[j])
                && protocol_allows(protocol, front[j]);
        assert(ips[j] == front[j]);
    } else {
        assert(ips[ips.len() - 1] == ips.last());
    }
}

/// One address more in the network: unless it is excluded, an IPv6 address by "ipv4" and
/// an IPv4 address by "ipv6" and by nothing else, it is asked for, and it ends the plan
/// exactly if the limiter allows it. An excluded address changes nothing. What was planned
/// before stays as it is.
pub proof fn law_plan_grows(
    m: LimiterModel,
    ips: Seq<IpAddrUniversal>,
    ip: IpAddrUniversal,
    protocol: Seq<char>,
    now: u64,
)
    ensures
        ({
            let (before, targets) = planned(m, ips, protocol, now);
            let (after, longer) = planned(m, ips.push(ip), protocol, now);
            let excluded = (ip is V6 && protocol == "ipv4"@) || (ip is V4 && protocol
                == "ipv6"@);
            let (asked, allowed) = scan_requested(before, addr_display(ip), now);
            &&& excluded ==> after == before && longer == targets
            &&& !excluded ==> after == asked
            &&& !excluded && allowed ==> longer == targets.push(addr_display(ip))
            &&& !excluded && !allowed ==> longer == targets
        }),
        planned(m, Seq::empty(), protocol, now).1.len() == 0,
        planned(m, Seq::empty(), protocol, now).0 == m,
{
    assert(ips.push(ip).drop_last() =~= ips);
}

/// The addresses that a setting leaves: all of them, unless it is "ipv4" or "ipv6".
spec fn of_protocol(
    ips: Seq<IpAddrUniversal>,
    protocol: Seq<char>,
) -> Seq<IpAddrUniversal> {
    if protocol == "ipv4"@ {
        ips.filter(|ip: IpAddrUniversal| ip is V4)
    } else if protocol == "ipv6"@ {
        ips.filter(|ip: IpAddrUniversal| ip is V6)
    } else {
        ips
    }
}

spec fn notes_only(m: LimiterModel, ips: Seq<IpAddrUniversal>) -> bool {
    &&& forall|s: Seq<char>| #[trigger]
        m.generic.contains_key(s) ==> exists|i: int|
            0 <= i < ips.len() && s == addr_display(#[trigger] ips[i])
    &&& forall|a: u128| #[trigger]
        m.v4.contains_key(a) ==> exists|i: int|
            0 <= i < ips.len() && ips[i] is V4 && a == (#[trigger] ips[i])->V4_0
    &&& forall|a: u128| #[trigger]
        m.v6.contains_key(a) ==> exists|i: int|
            0 <= i < ips.len() && ips[i] is V6 && a == (#[trigger] ips[i])->V6_0
}

proof fn lemma_notes_stay(m: LimiterModel, ips: Seq<IpAddrUniversal>, ip: IpAddrUniversal)
    requires
        notes_only(m, ips),
    ensures
        notes_only(m, ips.push(ip)),
{
    let all = ips.push(ip);
    assert forall|i: int| 0 <= i < ips.len() implies #[trigger] all[i] == ips[i] by {}
    assert forall|s: Seq<char>| #[trigger] m.generic.contains_key(s) implies exists|i: int|
        0 <= i < all.len() && s == addr_display(#[trigger] all[i]) by {
        let i = choose|i: int| 0 <= i < ips.len() && s == addr_display(#[trigger] ips[i]);
        assert(all[i] == ips[i]);
    }
    assert forall|a: u128| #[trigger] m.v4.contains_key(a) implies exists|i: int|
        0 <= i < all.len() && all[i] is V4 && a == (#[trigger] all[i])->V4_0 by {
        let i = choose|i: int|
            0 <= i < ips.len() && ips[i] is V4 && a == (#[trigger] ips[i])->V4_0;
        assert(all[i] == ips[i]);
    }
    assert forall|a: u128| #[trigger] m.v6.contains_key(a) implies exists|i: int|
        0 <= i < all.len() && all[i] is V6 && a == (#[trigger] all[i])->V6_0 by {
        let i = choose|i: int|
            0 <= i < ips.len() && ips[i] is V6 && a == (#[trigger] ips[i])->V6_0;
        assert(all[i] == ips[i]);
    }
}

proof fn lemma_new_address_is_allowed(
    m: LimiterModel,
    ips: Seq<IpAddrUniversal>,
    ip: IpAddrUniversal,
    now: u64,
)
    requires
        notes_only(m, ips),
        !ips.contains(ip),
    ensures
        scan_requested(m, addr_display(ip), now).1,
        notes_only(scan_requested(m, addr_display(ip), now).0, ips.push(ip)),
{
    let s = addr_display(ip);
    law_addr_roundtrip(ip);
    if m.generic.contains_key(s) {
        let i = choose|i: int| 0 <= i < ips.len() && s == addr_display(#[trigger] ips[i]);
        law_addr_roundtrip(ips[i]);
        assert(ips[i] == ip);
    }
    match ip {
        IpAddrUniversal::V4(a) => {
            if m.v4.contains_key(a as u128) {
                let i = choose|i: int|
                    0 <= i < ips.len() && ips[i] is V4 && a as u128 == (#[trigger] ips[i])->V4_0;
                assert(ips[i] == ip);
            }
        },
        IpAddrUniversal::V6(a) => {
            if m.v6.contains_key(a) {
                let i = choose|i: int|
                    0 <= i < ips.len() && ips[i] is V6 && a == (#[trigger] ips[i])->V6_0;
                assert(ips[i] == ip);
            }
        },
    }
    law_first_scan_is_allowed(m, s, now);
    lemma_notes_stay(m, ips, ip);
    assert(ips.push(ip)[ips.len() as int] == ip);
}

proof fn lemma_fresh_plan(
    interval_ms: u64,
    ips: Seq<IpAddrUniversal>,
    protocol: Seq<char>,
    now: u64,
)
    requires
        ips.no_duplicates(),
    ensures
        ({
            let (m, targets) = planned(fresh_limiter(interval_ms), ips, protocol, now);
            let wanted = of_protocol(ips, protocol);
            &&& notes_only(m, ips)
            &&& targets.len() == wanted.len()
            &&& forall|i: int|
                0 <= i < wanted.len() ==> #[trigger] targets[i] == addr_display(wanted[i])
        }),
    decreases ips.len(),
{
    reveal(Seq::filter);
    reveal_strlit("ipv4");
    reveal_strlit("ipv6");
    assert("ipv4"@[3] != "ipv6"@[3]);
    if ips.len() > 0 {
        let front = ips.drop_last();
        let ip = ips.last();
        lemma_fresh_plan(interval_ms, front, protocol, now);
        assert(front.push(ip) =~= ips);
        law_plan_grows(fresh_limiter(interval_ms), front, ip, protocol, now);
        let before = planned(fresh_limiter(interval_ms), front, protocol, now).0;
        if front.contains(ip) {
            let j = front.index_of(ip);
            assert(ips[j] == ips[ips.len() - 1]);
        }
        lemma_notes_stay(before, front, ip);
        lemma_new_address_is_allowed(before, front, ip, now);
    }
}

/// A limiter that no scan was asked of leaves nothing out: the plan of a network without
/// repeated addresses holds each address that is not excluded, once and in its order. With
/// the setting "ipv4" these are the IPv4 addresses, with "ipv6" the IPv6 addresses, and
/// with every other setting, such as "both", all of them.
pub proof fn law_fresh_plan_is_complete(
    interval_ms: u64,
    ips: Seq<IpAddrUniversal>,
    protocol: Seq<char>,
    now: u64,
)
    requires
        ips.no_duplicates(),
    ensures
        ({
            let targets = planned(fresh_limiter(interval_ms), ips, protocol, now).1;
            let wanted = if protocol == "ipv4"@ {
                ips.filter(|ip: IpAddrUniversal| ip is V4)
            } else if protocol == "ipv6"@ {
                ips.filter(|ip: IpAddrUniversal| ip is V6)
            } else {
                ips
            };
            &&& targets.len() == wanted.len()
            &&& forall|i: int|
                0 <= i < wanted.len() ==> #[trigger] targets[i] == addr_display(wanted[i])
        }),
{
    lemma_fresh_plan(interval_ms, ips, protocol, now);
}

/// The ports that a host is asked on.
pub fn scan_ports() -> (r: Vec<u16>)
    ensures
        r@ == seq![80u16, 443, 22, 445, 3389, 5900],
{
    let r: Vec<u16> = vec![80, 443, 22, 445, 3389, 5900];
    assert(r@ =~= seq![80u16, 443, 22, 445, 3389, 5900]);
    r
}

/// The text of an address with a port.
pub open spec fn socket_text(ip: Seq<char>, port: u16) -> Seq<char> {
    if ip.contains(':') {
        "["@ + ip + "]:"@ + port_text(port)
    } else {
        ip + ":"@ + port_text(port)
    }
}

/// The text of an address with a port.
pub fn scan_address(ip: &str, port: u16) -> (r: String)
    ensures
        r@ == socket_text(ip@, port),
{
    if contains_char(ip, ':') {
        let mut s = "[".to_owned();
        s.append(ip);
        s.append("]:");
        s.append(decimal(port as u64).as_str());
        s
    } else {
        let mut s = ip.to_owned();
        s.append(":");
        s.append(decimal(port as u64).as_str());
        s
    }
}

/// The command that asks a host whether it is there.
pub fn arp_ping(ip: &str) -> (r: Vec<String>)
    ensures
        views(r@) == seq![
            if ip@.contains(':') {
                "ping6"@
            } else {
                "ping"@
            },
            "-c"@,
            "1"@,
            "-W"@,
            "1"@,
            ip@,
        ],
{
    let program = if contains_char(ip, ':') {
        "ping6"
    } else {
        "ping"
    };
    let mut out: Vec<String> = Vec::new();
    push_text(&mut out, program.to_owned());
    push_text(&mut out, "-c".to_owned());
    push_text(&mut out, "1".to_owned());
    push_text(&mut out, "-W".to_owned());
    push_text(&mut out, "1".to_owned());
    push_text(&mut out, ip.to_owned());
    assert(views(out@) =~= seq![program@, "-c"@, "1"@, "-W"@, "1"@, ip@]);
    out
}

/// Whether a host counts as found, and its open ports: it must have answered, and have a
/// port open.
pub fn smart_scan_host(answered: bool, open_ports: Vec<u16>) -> (r: (bool, Vec<u16>))
    ensures
        r.0 == (answered && open_ports@.len() > 0),
        r.1@ == (if answered {
            open_ports@
        } else {
            Seq::<u16>::empty()
        }),
{
    if !answered {
        let none: Vec<u16> = Vec::new();
        assert(none@ =~= Seq::<u16>::empty());
        return (false, none);
    }
    (open_ports.len() > 0, open_ports)
}

// ---------------------------------------------------------------------------
// Hosts
// ---------------------------------------------------------------------------

/// Whether a device belongs to the network.
pub open spec fn is_own(
    ips: Seq<Seq<char>>,
    macs: Seq<Seq<char>>,
    ip: Seq<char>,
    mac: Option<Seq<char>>,
) -> bool {
    ips.contains(ip) || match mac {
        Some(m) => macs.contains(m),
        None => false,
    }
}

/// A device belongs to the network if its address is on the list of addresses, whether
/// its MAC is known or not and whatever it is; or if its MAC is known and on the list of
/// MACs, whatever its address is; and only in these cases.
pub proof fn law_own_devices(
    ips: Seq<Seq<char>>,
    macs: Seq<Seq<char>>,
    ip: Seq<char>,
    mac: Option<Seq<char>>,
)
    ensures
        (exists|i: int| 0 <= i < ips.len() && #[trigger] ips[i] == ip) ==> is_own(
            ips,
            macs,
            ip,
            mac,
        ),
        mac is Some && (exists|i: int| 0 <= i < macs.len() && #[trigger] macs[i] == mac->0)
            ==> is_own(ips, macs, ip, mac),
        (forall|i: int| 0 <= i < ips.len() ==> #[trigger] ips[i] != ip) && (mac is None || forall|
            i: int,
        |
            0 <= i < macs.len() ==> #[trigger] macs[i] != mac->0) ==> !is_own(ips, macs, ip, mac),
{
}

/// What a device on the list of addresses is does not depend on its MAC, nor what a device
/// on the list of MACs is on its address.
pub proof fn law_one_list_is_enough(
    ips: Seq<Seq<char>>,
    macs: Seq<Seq<char>>,
    ip: Seq<char>,
    other_ip: Seq<char>,
    mac: Option<Seq<char>>,
    other_mac: Option<Seq<char>>,
)
    ensures
        ips.contains(ip) ==> is_own(ips, macs, ip, mac) && is_own(ips, macs, ip, other_mac),
        mac is Some && macs.contains(mac->0) ==> is_own(ips, macs, ip, mac) && is_own(
            ips,
            macs,
            other_ip,
            mac,
        ),
{
}

/// The largest of the ports; zero if there are none.
pub open spec fn largest_port(ports: Seq<u16>) -> u16
    decreases ports.len(),
{
    if ports.len() == 0 {
        0
    } else {
        let before = largest_port(ports.drop_last());
        if ports.last() > before {
            ports.last()
        } else {
            before
        }
    }
}

/// The largest port is one of the ports, and none is larger.
pub proof fn law_largest_port(ports: Seq<u16>)
    requires
        ports.len() > 0,
    ensures
        ports.contains(largest_port(ports)),
        forall|i: int| 0 <= i < ports.len() ==> ports[i] <= largest_port(ports),
    decreases ports.len(),
{
    let front = ports.drop_last();
    if front.len() > 0 {
        law_largest_port(front);
        assert forall|i: int| 0 <= i < ports.len() implies ports[i] <= largest_port(ports) by {
            if i < front.len() {
                assert(front[i] == ports[i]);
            }
        }
        if front.contains(largest_port(front)) {
            let j = front.index_of(largest_port(front));
            assert(ports[j] == largest_port(front));
        }
    }
    assert(ports[ports.len() - 1] == ports.last());
    reveal_with_fuel(largest_port, 2);
}

fn max_port(ports: &Vec<u16>) -> (r: u16)
    ensures
        r == largest_port(ports@),
{
    let mut best: u16 = 0;
    let mut i: usize = 0;
    assert(ports@.take(0) =~= Seq::<u16>::empty());
    while i < ports.len()
        invariant
            i <= ports.len(),
            best == largest_port(ports@.take(i as int)),
        decreases ports.len() - i,
    {
        assert(ports@.take(i + 1).drop_last() =~= ports@.take(i as int));
        if ports[i] > best {
            best = ports[i];
        }
        i += 1;
    }
    assert(ports@.take(i as int) =~= ports@);
    best
}

/// What is to be done about a device that was found.
#[derive(Debug, Clone, Copy, PartialEq, Eq, Structural)]
pub struct HostFound {
    /// Whether it belongs to the network.
    pub own: bool,
    /// What its behaviour is to be learnt from, if there are samples enough.
    pub behavior: Option<BehaviorInput>,
    /// The port under which the flood detector is told of it.
    pub flood_port: Option<u16>,
}

/// What came of the ban of a stranger's device.
#[derive(Debug, Clone)]
pub enum BanStep {
    /// Nobody is banned while the detector learns.
    Learning,
    /// The device was banned before.
    Already,
    /// The device is banned; the firewall commands, if any, are to be run.
    Banned(Vec<Vec<String>>),
}

/// One scan of the network.
pub struct ScanSession {
    ips: Vec<String>,
    macs: Vec<String>,
    learning_mode: bool,
    hour: u32,
    day: u32,
    found: u32,
    rogue: u32,
}

/// What a scan knows.
pub ghost struct ScanModel {
    pub ips: Seq<Seq<char>>,
    pub macs: Seq<Seq<char>>,
    pub learning_mode: bool,
    pub hour: u32,
    pub day: u32,
    pub found: u32,
    pub rogue: u32,
}

impl View for ScanSession {
    type V = ScanModel;

    closed spec fn view(&self) -> ScanModel {
        ScanModel {
            ips: views(self.ips@),
            macs: views(self.macs@),
            learning_mode: self.learning_mode,
            hour: self.hour,
            day: self.day,
            found: self.found,
            rogue: self.rogue,
        }
    }
}

/// The text held by an optional string.
pub open spec fn mac_view(mac: Option<String>) -> Option<Seq<char>> {
    match mac {
        Some(t) => Some(t@),
        None => None,
    }
}

/// The metrics after a device was found.
pub open spec fn host_counted(m: Metrics, ip: Seq<char>) -> Metrics {
    if ip.contains(':') {
        Metrics { ipv6_scans: bump(m.ipv6_scans), ..m }
    } else {
        Metrics { ipv4_scans: bump(m.ipv4_scans), ..m }
    }
}

impl ScanSession {
    /// A scan that starts at the moment `clock`.
    pub fn new(whitelist: &Whitelist, learning_mode: bool, clock: &WallClock) -> (r: Self)
        requires
            clock.wf(),
        ensures
            r@.ips == views(whitelist.ips@),
            r@.macs == views(whitelist.macs@),
            r@.learning_mode == learning_mode,
            r@.hour == clock.spec_hour(),
            r@.day == clock.spec_weekday(),
            r@.found == 0,
            r@.rogue == 0,
    {
        ScanSession {
            ips: copy_texts(&whitelist.ips),
            macs: copy_texts(&whitelist.macs),
            learning_mode,
            hour: clock.hour(),
            day: clock.weekday(),
            found: 0,
            rogue: 0,
        }
    }

    /// The hour at which the scan started.
    pub fn hour(&self) -> (r: u32)
        ensures
            r == self@.hour,
    {
        self.hour
    }

    /// How many devices were found, and how many of them are strangers'.
    pub fn counts(&self) -> (r: (u32, u32))
        ensures
            r.0 == self@.found,
            r.1 == self@.rogue,
    {
        (self.found, self.rogue)
    }

    /// Counts a device that was found, notes a sample of it, and says what is to be done.
    /// Only strangers' devices with an open port are told to the flood detector, once,
    /// under the largest port.
    pub fn host_found(
        &mut self,
        ip: &str,
        ports: &Vec<u16>,
        mac: &Option<String>,
        ai: &mut AIDetector,
        metrics: &mut Metrics,
        clock: &WallClock,
    ) -> (r: HostFound)
        requires
            old(self)@.found < u32::MAX,
            clock.wf(),
        ensures
            final(self)@ == (ScanModel { found: (old(self)@.found + 1) as u32, ..old(self)@ }),
            *final(metrics) == host_counted(*old(metrics), ip@),
            final(ai)@ == sample_collected(
                old(ai)@,
                ip@,
                old(self)@.hour,
                old(self)@.day,
                ports@,
                *clock,
            ),
            r.own == is_own(old(self)@.ips, old(self)@.macs, ip@, mac_view(*mac)),
            r.own <==> old(self)@.ips.contains(ip@) || (*mac matches Some(m)
                && old(self)@.macs.contains(m@)),
            r.behavior is Some <==> learnable(final(ai)@, ip@),
            r.behavior matches Some(i) ==> input_of(i, final(ai)@.samples[ip@]),
            r.flood_port is Some <==> !r.own && ports@.len() > 0,
            r.flood_port matches Some(p) ==> ports@.contains(p) && forall|i: int|
                0 <= i < ports@.len() ==> #[trigger] ports@[i] <= p,
            r.flood_port == (if !r.own && ports@.len() > 0 {
                Some(largest_port(ports@))
            } else {
                None
            }),
    {
        self.found += 1;
        if contains_char(ip, ':') {
            metrics.inc_ipv6();
        } else {
            metrics.inc_ipv4();
        }
        let sampled: Vec<u16> = ports.clone();
        assert(sampled@ =~= ports@);
        ai.collect_sample(ip, self.hour, self.day, sampled, clock);
        let behavior = ai.behavior_input(ip);
        let own = contains_text(&self.ips, ip) || match mac {
            Some(m) => contains_text(&self.macs, m.as_str()),
            None => false,
        };
        let flood_port = if !own && ports.len() > 0 {
            proof {
                law_largest_port(ports@);
            }
            Some(max_port(ports))
        } else {
            None
        };
        HostFound { own, behavior, flood_port }
    }

    /// Counts a stranger's device and judges it.
    pub fn stranger_found(
        &mut self,
        ip: &str,
        ports: Vec<u16>,
        anomaly: Option<Anomaly>,
        mac: Option<String>,
        ai: &mut AIDetector,
        metrics: &mut Metrics,
        clock: &WallClock,
    ) -> (r: HackerProfile)
        requires
            old(self)@.rogue < u32::MAX,
            clock.wf(),
        ensures
            final(self)@ == (ScanModel { rogue: (old(self)@.rogue + 1) as u32, ..old(self)@ }),
            *final(metrics) == (Metrics {
                total_rogue: bump(old(metrics).total_rogue),
                ..*old(metrics)
            }),
            r@ == profile_of(ip@, ports@, anomaly, mac, *clock),
            final(ai)@ == device_analyzed(old(ai)@, ip@, ports@, anomaly, *clock),
    {
        self.rogue += 1;
        metrics.inc_rogue();
        ai.analyze_device(ip, ports, anomaly, mac, clock)
    }

    /// Bans a stranger's device, unless the detector only learns or it is banned already.
    pub fn ban_stranger(&self, ip: &str, ban: &mut BanManager, metrics: &mut Metrics) -> (r:
        BanStep)
        ensures
            self@.learning_mode ==> r is Learning && final(ban)@ == old(ban)@ && *final(metrics)
                == *old(metrics),
            !self@.learning_mode ==> final(ban)@ == ban_tried(old(ban)@, ip@),
            !self@.learning_mode && old(ban)@.banned.contains(ip@) ==> r is Already
                && *final(metrics) == *old(metrics),
            !self@.learning_mode && !old(ban)@.banned.contains(ip@) ==> r is Banned
                && *final(metrics) == (Metrics {
                total_bans: bump(old(metrics).total_bans),
                ..*old(metrics)
            }),
            r matches BanStep::Banned(commands) ==> command_views(commands@) == (
            if old(ban)@.real_ban {
                ban_rules(ip@, false)
            } else {
                Seq::<Seq<Seq<char>>>::empty()
            }),
    {
        if self.learning_mode {
            return BanStep::Learning;
        }
        let (banned, commands) = ban.try_ban(ip, metrics);
        if banned {
            BanStep::Banned(commands)
        } else {
            BanStep::Already
        }
    }
}

/// What came of a stranger's device.
#[derive(Debug, Clone)]
pub struct StrangerOutcome {
    pub profile: HackerProfile,
    /// Whether the device is a high risk.
    pub high_risk: bool,
    /// The row to be kept of its profile.
    pub row: ProfileRow,
    /// What came of its ban.
    pub ban: BanStep,
    /// The row to be kept of its ban, if it was banned now.
    pub ban_row: Option<BanRow>,
}

/// The metrics after a stranger's device was found, and banned or not.
pub open spec fn stranger_counted(m: Metrics, banned: bool) -> Metrics {
    Metrics {
        total_rogue: bump(m.total_rogue),
        total_bans: if banned {
            bump(m.total_bans)
        } else {
            m.total_bans
        },
        ..m
    }
}

impl ScanSession {
    /// Deals with a stranger's device: counts it, judges it, and bans it unless the
    /// detector only learns or it is banned already.
    pub fn stranger_met(
        &mut self,
        ip: &str,
        ports: Vec<u16>,
        anomaly: Option<Anomaly>,
        mac: Option<String>,
        ai: &mut AIDetector,
        ban: &mut BanManager,
        metrics: &mut Metrics,
        clock: &WallClock,
    ) -> (r: StrangerOutcome)
        requires
            old(self)@.rogue < u32::MAX,
            clock.wf(),
        ensures
            final(self)@ == (ScanModel { rogue: (old(self)@.rogue + 1) as u32, ..old(self)@ }),
            final(ai)@ == device_analyzed(old(ai)@, ip@, ports@, anomaly, *clock),
            final(ban)@ == (if old(self)@.learning_mode {
                old(ban)@
            } else {
                ban_tried(old(ban)@, ip@)
            }),
            *final(metrics) == stranger_counted(*old(metrics), r.ban is Banned),
            r.profile@ == profile_of(ip@, ports@, anomaly, mac, *clock),
            r.high_risk == (r.profile@.risk_score >= HIGH_RISK_THRESHOLD),
            r.row@ == profile_row(r.profile@),
            r.ban is Learning <==> old(self)@.learning_mode,
            r.ban is Banned <==> !old(self)@.learning_mode && !old(ban)@.banned.contains(ip@),
            r.ban matches BanStep::Banned(commands) ==> command_views(commands@) == (
            if old(ban)@.real_ban {
                ban_rules(ip@, false)
            } else {
                Seq::<Seq<Seq<char>>>::empty()
            }),
            match r.ban_row {
                Some(row) => r.ban is Banned && row@ == ban_row(
                    ip@,
                    mac_view(mac),
                    "rogue_device"@,
                    *clock,
                ),
                None => !(r.ban is Banned),
            },
    {
        let kept_mac = match &mac {
            Some(t) => Some(t.as_str().to_owned()),
            None => None,
        };
        let profile = self.stranger_found(ip, ports, anomaly, mac, ai, metrics, clock);
        let step = self.ban_stranger(ip, ban, metrics);
        let kept_ban = match &step {
            BanStep::Banned(_) => Some(log_ban_to_db(ip, &kept_mac, "rogue_device", clock)),
            _ => None,
        };
        StrangerOutcome {
            high_risk: profile.risk_score >= HIGH_RISK_THRESHOLD,
            row: save_hacker_profile(&profile),
            profile,
            ban: step,
            ban_row: kept_ban,
        }
    }
}

/// What is done at the end of a scan: old data goes, and the learning curve grows.
pub fn finish_scan(
    ai: &mut AIDetector,
    limiter: &mut RateLimiter,
    antiflood: &mut AntiFlood,
    ddos: &mut DdosProtector,
    clock: &WallClock,
    now: u64,
)
    requires
        clock.wf(),
        old(antiflood).wf(),
        old(ddos).wf(),
    ensures
        final(antiflood).wf(),
        final(ddos).wf(),
        final(antiflood)@ == tidied(old(antiflood)@, now),
        final(ddos)@ == ddos_tidied(old(ddos)@, now),
        cleaned_up(old(limiter)@, final(limiter)@, now),
        exists|mid: DetectorModel| #[trigger]
            data_cleaned(old(ai)@, mid, *clock) && final(ai)@ == (DetectorModel {
                curve: curve_with(mid.curve, curve_point(mid, *clock)),
                ..mid
            }),
{
    ai.cleanup_old_data(clock);
    let ghost mid = ai@;
    ai.update_learning_curve(clock);
    limiter.cleanup(now);
    antiflood.periodic_cleanup(now);
    ddos.periodic_cleanup(now);
    assert(data_cleaned(old(ai)@, mid, *clock));
}

// ---------------------------------------------------------------------------
// Results of the outside analysis
// ---------------------------------------------------------------------------

/// The devices that the analysis calls anomalous.
pub open spec fn anomalous(devices: Seq<(String, bool, u8)>) -> Seq<(String, bool, u8)> {
    devices.filter(|d: (String, bool, u8)| d.1)
}

/// How far the risk of each device is from the largest possible.
pub open spec fn risk_gaps(devices: Seq<(String, bool, u8)>) -> Seq<u64> {
    devices.map_values(|d: (String, bool, u8)| (255 - d.2) as u64)
}

/// The line on an anomalous device.
pub open spec fn anomaly_line(d: (String, bool, u8)) -> Seq<char> {
    "   "@ + d.0@ + " ["@ + ip_type_of(d.0@) + "] риск "@ + number_text(d.2 as u64) + "%"@
}

/// How many devices are reported.
pub open spec fn reported(n: nat) -> nat {
    if n < 5 {
        n
    } else {
        5
    }
}

/// The lines on the anomalous devices with the highest risk, at most five, the highest
/// first.
pub fn top_anomalies(devices: &Vec<(String, bool, u8)>) -> (r: Vec<String>)
    ensures
        exists|picked: Seq<usize>| #[trigger]
            are_smallest(
                risk_gaps(anomalous(devices@)),
                reported(anomalous(devices@).len()),
                picked,
            ) && views(r@) == picked.map_values(
                |k: usize| anomaly_line(anomalous(devices@)[k as int]),
            ),
{
    let ghost all = anomalous(devices@);
    let ghost p = |d: (String, bool, u8)| d.1;
    let mut places: Vec<usize> = Vec::new();
    let mut gaps: Vec<u64> = Vec::new();
    let mut i: usize = 0;
    proof {
        reveal(Seq::filter);
        assert(devices@.take(0).filter(p) =~= Seq::empty());
    }
    while i < devices.len()
        invariant
            i <= devices.len(),
            p == |d: (String, bool, u8)| d.1,
            places.len() == gaps.len(),
            places.len() == devices@.take(i as int).filter(p).len(),
            forall|k: int|
                0 <= k < places.len() ==> (#[trigger] places@[k]) < devices.len()
                    && devices@[places@[k] as int] == devices@.take(i as int).filter(p)[k],
            gaps@ == risk_gaps(devices@.take(i as int).filter(p)),
        decreases devices.len() - i,
    {
        let ghost before = devices@.take(i as int).filter(p);
        let ghost old_places = places@;
        proof {
            reveal(Seq::filter);
            assert(devices@.take(i + 1).drop_last() =~= devices@.take(i as int));
            assert(devices@.take(i + 1).filter(p) == (if devices@[i as int].1 {
                before.push(devices@[i as int])
            } else {
                before
            }));
        }
        if devices[i].1 {
            places.push(i);
            gaps.push((255 - devices[i].2) as u64);
            assert(gaps@ =~= risk_gaps(before.push(devices@[i as int])));
            assert forall|k: int| 0 <= k < places.len() implies (#[trigger] places@[k])
                < devices.len() && devices@[places@[k] as int] == before.push(
                devices@[i as int],
            )[k] by {
                if k < old_places.len() {
                    assert(places@[k] == old_places[k]);
                }
            }
        }
        i += 1;
    }
    assert(devices@.take(i as int) =~= devices@);
    assert(devices@.filter(p) == all);
    assert(gaps@ == risk_gaps(all));
    let n: usize = if gaps.len() < 5 {
        gaps.len()
    } else {
        5
    };
    let picked = smallest(&gaps, n);
    let ghost rows = picked@.map_values(|k: usize| anomaly_line(all[k as int]));
    let mut out: Vec<String> = Vec::new();
    let mut j: usize = 0;
    assert(views(out@) =~= rows.take(0));
    while j < n
        invariant
            j <= n,
            n == picked.len(),
            are_smallest(gaps@, n as nat, picked@),
            places.len() == gaps.len(),
            places.len() == all.len(),
            forall|k: int|
                0 <= k < places.len() ==> (#[trigger] places@[k]) < devices.len()
                    && devices@[places@[k] as int] == all[k],
            rows == picked@.map_values(|k: usize| anomaly_line(all[k as int])),
            views(out@) == rows.take(j as int),
        decreases n - j,
    {
        let at: usize = places[picked[j]];
        let ip = devices[at].0.as_str();
        let mut s = "   ".to_owned();
        s.append(ip);
        s.append(" [");
        s.append(ip_type(ip).as_str());
        s.append("] риск ");
        s.append(decimal(devices[at].2 as u64).as_str());
        s.append("%");
        push_text(&mut out, s);
        j += 1;
        assert(views(out@) =~= rows.take(j as int));
    }
    assert(rows.take(j as int) =~= rows);
    assert(are_smallest(risk_gaps(all), reported(all.len()), picked@));
    assert(views(out@) =~= picked@.map_values(
        |k: usize| anomaly_line(anomalous(devices@)[k as int]),
    ));
    out
}

/// Whether the lines are those that tell of an outside analysis: how far it has come
/// where its model is not trained yet, and else a heading and the anomalous devices with
/// the highest risk.
pub open spec fn tells_analysis(
    lines: Seq<Seq<char>>,
    trained: bool,
    total_samples: usize,
    devices: Seq<(String, bool, u8)>,
) -> bool {
    if !trained {
        lines == seq![
            "[AI] Сбор данных: "@ + number_text(total_samples as u64) + "/10 образцов"@,
        ]
    } else if anomalous(devices).len() == 0 {
        lines == seq!["[AI] Isolation Forest результаты:"@, "   Аномалий не обнаружено"@]
    } else {
        exists|picked: Seq<usize>| #[trigger]
            are_smallest(
                risk_gaps(anomalous(devices)),
                reported(anomalous(devices).len()),
                picked,
            ) && lines == seq!["[AI] Isolation Forest результаты:"@] + picked.map_values(
                |k: usize| anomaly_line(anomalous(devices)[k as int]),
            )
    }
}

/// The lines that tell of an outside analysis.
pub fn analysis_lines(trained: bool, total_samples: usize, devices: &Vec<(String, bool, u8)>) -> (r:
    Vec<String>)
    ensures
        tells_analysis(views(r@), trained, total_samples, devices@),
{
    let mut out: Vec<String> = Vec::new();
    assert(views(out@) =~= Seq::<Seq<char>>::empty());
    if !trained {
        let mut s = with_number("[AI] Сбор данных: ", total_samples as u64);
        s.append("/10 образцов");
        let ghost line = s@;
        push_text(&mut out, s);
        assert(views(out@) =~= seq![line]);
        return out;
    }
    push_text(&mut out, "[AI] Isolation Forest результаты:".to_owned());
    let mut found = top_anomalies(devices);
    let ghost all = anomalous(devices@);
    let ghost rows = views(found@);
    let ghost picked = choose|picked: Seq<usize>| #[trigger]
        are_smallest(risk_gaps(all), reported(all.len()), picked) && rows == picked.map_values(
            |k: usize| anomaly_line(anomalous(devices@)[k as int]),
        );
    assert(rows.len() == reported(all.len()));
    assert(rows.len() == found@.len());
    if found.len() == 0 {
        push_text(&mut out, "   Аномалий не обнаружено".to_owned());
        assert(views(out@) =~= seq![
            "[AI] Isolation Forest результаты:"@,
            "   Аномалий не обнаружено"@,
        ]);
    } else {
        out.append(&mut found);
        assert(views(out@) =~= seq!["[AI] Isolation Forest результаты:"@] + rows);
    }
    out
}

// ---------------------------------------------------------------------------
// Laws
// ---------------------------------------------------------------------------

/// A device that was found counts once, under the protocol that its address shows.
pub proof fn law_found_devices_are_counted(m: Metrics, ip: Seq<char>)
    requires
        m.ipv4_scans < u64::MAX,
        m.ipv6_scans < u64::MAX,
    ensures
        ({
            let after = host_counted(m, ip);
            &&& ip.contains(':') ==> after.ipv6_scans == m.ipv6_scans + 1 && after.ipv4_scans
                == m.ipv4_scans
            &&& !ip.contains(':') ==> after.ipv4_scans == m.ipv4_scans + 1 && after.ipv6_scans
                == m.ipv6_scans
            &&& after.total_scans == m.total_scans && after.total_rogue == m.total_rogue
                && after.total_bans == m.total_bans
        }),
{
}

/// A stranger's device counts once, and once among the bans if it was banned.
pub proof fn law_strangers_are_counted(m: Metrics)
    requires
        m.total_rogue < u64::MAX,
        m.total_bans < u64::MAX,
    ensures
        ({
            let banned = stranger_counted(m, true);
            let spared = stranger_counted(m, false);
            &&& banned.total_rogue == m.total_rogue + 1 && banned.total_bans == m.total_bans + 1
            &&& spared.total_rogue == m.total_rogue + 1 && spared.total_bans == m.total_bans
            &&& banned.total_scans == m.total_scans && banned.ipv4_scans == m.ipv4_scans
                && banned.ipv6_scans == m.ipv6_scans
            &&& spared.total_scans == m.total_scans && spared.ipv4_scans == m.ipv4_scans
                && spared.ipv6_scans == m.ipv6_scans
        }),
{
}

/// An address with a port: an address with a colon stands in square brackets.
pub proof fn law_addresses_with_ports(ip: Seq<char>, port: u16)
    ensures
        ip.contains(':') ==> socket_text(ip, port) == "["@ + ip + "]:"@ + dec(port as nat),
        !ip.contains(':') ==> socket_text(ip, port) == ip + ":"@ + dec(port as nat),
{
}

proof fn lemma_filter_places(s: Seq<(String, bool, u8)>) -> (places: Seq<int>)
    ensures
        places.len() == anomalous(s).len(),
        forall|i: int, j: int|
            0 <= i < j < places.len() ==> #[trigger] places[i] < #[trigger] places[j],
        forall|k: int|
            0 <= k < places.len() ==> 0 <= #[trigger] places[k] < s.len() && s[places[k]]
                == anomalous(s)[k] && s[places[k]].1,
        forall|i: int| 0 <= i < s.len() && (#[trigger] s[i]).1 ==> places.contains(i),
    decreases s.len(),
{
    reveal(Seq::filter);
    if s.len() == 0 {
        Seq::empty()
    } else {
        let front = s.drop_last();
        let p = lemma_filter_places(front);
        let n = front.len() as int;
        if s.last().1 {
            let r = p.push(n);
            assert forall|k: int| 0 <= k < r.len() implies 0 <= #[trigger] r[k] < s.len()
                && s[r[k]] == anomalous(s)[k] && s[r[k]].1 by {
                if k < p.len() {
                    assert(0 <= p[k] < front.len());
                    assert(front[p[k]] == s[p[k]]);
                }
            }
            assert forall|i: int, j: int| 0 <= i < j < r.len() implies #[trigger] r[i]
                < #[trigger] r[j] by {
                if j == p.len() {
                    assert(0 <= p[i] < front.len());
                }
            }
            assert forall|i: int| 0 <= i < s.len() && (#[trigger] s[i]).1 implies r.contains(
                i,
            ) by {
                if i < n {
                    assert(front[i] == s[i]);
                    let k = p.index_of(i);
                    assert(r[k] == i);
                } else {
                    assert(r[p.len() as int] == i);
                }
            }
            r
        } else {
            assert forall|k: int| 0 <= k < p.len() implies 0 <= #[trigger] p[k] < s.len()
                && s[p[k]] == anomalous(s)[k] && s[p[k]].1 by {
                assert(front[p[k]] == s[p[k]]);
            }
            assert forall|i: int| 0 <= i < s.len() && (#[trigger] s[i]).1 implies p.contains(
                i,
            ) by {
                assert(front[i] == s[i]);
            }
            p
        }
    }
}

/// Whether `shown` are the places of the devices that a report names: anomalous ones, each
/// once, up to five, the highest risk first, and none left out that has a higher risk.
pub open spec fn names_the_worst(devices: Seq<(String, bool, u8)>, shown: Seq<int>) -> bool {
    &&& shown.no_duplicates()
    &&& shown.len() <= 5
    &&& forall|k: int|
        0 <= k < shown.len() ==> 0 <= #[trigger] shown[k] < devices.len() && devices[shown[k]].1
    &&& forall|k: int, l: int|
        0 <= k < l < shown.len() ==> devices[#[trigger] shown[k]].2 >= devices[#[trigger] shown[l]].2
    &&& forall|i: int, k: int|
        0 <= i < devices.len() && (#[trigger] devices[i]).1 && !shown.contains(i) && 0 <= k
            < shown.len() ==> devices[i].2 <= devices[#[trigger] shown[k]].2
    &&& forall|i: int|
        0 <= i < devices.len() && (#[trigger] devices[i]).1 && !shown.contains(i) ==> shown.len()
            == 5
}

proof fn lemma_fewer_places(places: Seq<int>, n: int)
    requires
        0 <= n,
        forall|i: int, j: int|
            0 <= i < j < places.len() ==> #[trigger] places[i] < #[trigger] places[j],
        forall|k: int| 0 <= k < places.len() ==> 0 <= #[trigger] places[k] < n,
    ensures
        places.len() <= n,
    decreases places.len(),
{
    if places.len() > 0 {
        let front = places.drop_last();
        let last = places.last();
        assert forall|k: int| 0 <= k < front.len() implies 0 <= #[trigger] front[k] < last by {
            assert(places[k] < places[places.len() - 1]);
        }
        assert(places[places.len() - 1] == last);
        lemma_fewer_places(front, last);
    }
}

proof fn lemma_worst(devices: Seq<(String, bool, u8)>, picked: Seq<usize>) -> (shown: Seq<int>)
    requires
        devices.len() <= usize::MAX,
        are_smallest(
            risk_gaps(anomalous(devices)),
            reported(anomalous(devices).len()),
            picked,
        ),
    ensures
        names_the_worst(devices, shown),
        shown.len() == picked.len(),
        forall|k: int|
            0 <= k < shown.len() ==> devices[#[trigger] shown[k]] == anomalous(
                devices,
            )[picked[k] as int],
{
    let all = anomalous(devices);
    let gaps = risk_gaps(all);
    let places = lemma_filter_places(devices);
    let shown = Seq::new(picked.len(), |k: int| places[picked[k] as int]);
    lemma_fewer_places(places, devices.len() as int);
    assert forall|k: int| 0 <= k < shown.len() implies 0 <= #[trigger] shown[k] < devices.len()
        && devices[shown[k]].1 && devices[shown[k]] == all[picked[k] as int] && gaps[picked[k] as int]
        == 255 - devices[shown[k]].2 by {
        assert(picked[k] < gaps.len());
        assert(0 <= places[picked[k] as int] < devices.len());
    }
    assert forall|k: int, l: int| 0 <= k < l < shown.len() implies #[trigger] shown[k]
        != #[trigger] shown[l] by {
        assert(picked[k] != picked[l]);
        assert(picked[k] < gaps.len() && picked[l] < gaps.len());
        if picked[k] < picked[l] {
            assert(places[picked[k] as int] < places[picked[l] as int]);
        } else {
            assert(places[picked[l] as int] < places[picked[k] as int]);
        }
    }
    assert forall|k: int, l: int| 0 <= k < l < shown.len() implies devices[#[trigger] shown[k]].2
        >= devices[#[trigger] shown[l]].2 by {
        assert(gaps[picked[k] as int] <= gaps[picked[l] as int]);
    }
    assert forall|i: int|
        0 <= i < devices.len() && (#[trigger] devices[i]).1 && !shown.contains(i) implies exists|
        q: int,
    |
        0 <= q < all.len() && places[q] == i && !picked.contains(q as usize) && gaps[q] == 255
            - devices[i].2 by {
        let q = places.index_of(i);
        assert(places[q] == i);
        if picked.contains(q as usize) {
            let k = picked.index_of(q as usize);
            assert(shown[k] == i);
        }
    }
    assert forall|i: int, k: int|
        0 <= i < devices.len() && (#[trigger] devices[i]).1 && !shown.contains(i) && 0 <= k
            < shown.len() implies devices[i].2 <= devices[#[trigger] shown[k]].2 by {
        let q = choose|q: int|
            0 <= q < all.len() && places[q] == i && !picked.contains(q as usize) && gaps[q] == 255
                - devices[i].2;
        assert(gaps[picked[k] as int] <= gaps[(q as usize) as int]);
    }
    assert forall|i: int|
        0 <= i < devices.len() && (#[trigger] devices[i]).1 && !shown.contains(
            i,
        ) implies shown.len() == 5 by {
        if shown.len() < 5 {
            lemma_all_picked(picked, all.len());
            let q = choose|q: int|
                0 <= q < all.len() && places[q] == i && !picked.contains(q as usize) && gaps[q]
                    == 255 - devices[i].2;
            assert(picked.contains(q as usize));
        }
    }
    shown
}

proof fn lemma_all_picked(picked: Seq<usize>, n: nat)
    requires
        picked.no_duplicates(),
        picked.len() == n,
        forall|i: int| 0 <= i < picked.len() ==> #[trigger] picked[i] < n,
    ensures
        forall|q: int| 0 <= q < n ==> #[trigger] picked.contains(q as usize),
{
    let places = vstd::set_lib::set_int_range(0, n as int);
    vstd::set_lib::lemma_int_range(0, n as int);
    let ints = picked.map_values(|x: usize| x as int);
    assert(ints.no_duplicates()) by {
        assert forall|i: int, j: int| 0 <= i < ints.len() && 0 <= j < ints.len() && i != j implies
            ints[i] != ints[j] by {
            assert(picked[i] != picked[j]);
        }
    }
    ints.unique_seq_to_set();
    assert(ints.to_set().subset_of(places)) by {
        assert forall|x: int| ints.to_set().contains(x) implies places.contains(x) by {
            let i = ints.index_of(x);
            assert(picked[i] < n);
        }
    }
    vstd::set_lib::lemma_subset_equality(ints.to_set(), places);
    assert forall|q: int| 0 <= q < n implies #[trigger] picked.contains(q as usize) by {
        assert(places.contains(q));
        let i = ints.index_of(q);
        assert(picked[i] == q);
    }
}

/// What is told of an outside analysis: while its model is not trained, how many of the ten
/// samples there are; and then a heading, and below it either that there is no anomaly, where
/// no device is anomalous, or a line on each of the worst.
pub proof fn law_analysis_names_the_worst(
    lines: Seq<Seq<char>>,
    trained: bool,
    total_samples: usize,
    devices: Seq<(String, bool, u8)>,
)
    requires
        devices.len() <= usize::MAX,
        tells_analysis(lines, trained, total_samples, devices),
    ensures
        !trained ==> lines.len() == 1 && lines[0] == "[AI] Сбор данных: "@ + number_text(
            total_samples as u64,
        ) + "/10 образцов"@,
        trained ==> lines.len() > 1 && lines[0] == "[AI] Isolation Forest результаты:"@,
        trained && (forall|i: int| 0 <= i < devices.len() ==> !(#[trigger] devices[i]).1)
            ==> lines.len() == 2 && lines[1] == "   Аномалий не обнаружено"@,
        trained && (exists|i: int| 0 <= i < devices.len() && (#[trigger] devices[i]).1)
            ==> exists|shown: Seq<int>| #[trigger]
            names_the_worst(devices, shown) && lines.len() == 1 + shown.len() && forall|k: int|
                0 <= k < shown.len() ==> #[trigger] lines[1 + k] == anomaly_line(
                    devices[shown[k]],
                ),
{
    let places = lemma_filter_places(devices);
    let all = anomalous(devices);
    if trained && all.len() > 0 {
        assert(devices[places[0]].1);
        let picked = choose|picked: Seq<usize>| #[trigger]
            are_smallest(risk_gaps(all), reported(all.len()), picked) && lines
                == seq!["[AI] Isolation Forest результаты:"@] + picked.map_values(
                |k: usize| anomaly_line(anomalous(devices)[k as int]),
            );
        let shown = lemma_worst(devices, picked);
        assert(names_the_worst(devices, shown));
        assert forall|k: int| 0 <= k < shown.len() implies #[trigger] lines[1 + k] == anomaly_line(
            devices[shown[k]],
        ) by {}
    } else if trained {
        if exists|i: int| 0 <= i < devices.len() && (#[trigger] devices[i]).1 {
            let i = choose|i: int| 0 <= i < devices.len() && (#[trigger] devices[i]).1;
            assert(places.contains(i));
        }
    }
}

/// The line on a device names it with its protocol and its risk.
pub proof fn law_device_lines(d: (String, bool, u8))
    ensures
        d.0@.contains(':') ==> anomaly_line(d) == "   "@ + d.0@ + " ["@ + "IPv6"@ + "] риск "@ + dec(
            d.2 as nat,
        ) + "%"@,
        !d.0@.contains(':') ==> anomaly_line(d) == "   "@ + d.0@ + " ["@ + "IPv4"@ + "] риск "@
            + dec(d.2 as nat) + "%"@,
{
}

} // verus!
