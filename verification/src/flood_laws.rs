//! What holds of the flood detector, said without its own definitions: which events count,
//! which of them are a flood, what a ban is, and what is forgotten.
use vstd::prelude::*;

use crate::addr::subnet64;
use crate::antiflood::{
    active_bans, analysis, ban_lifted, ban_notice, ban_reason, banned, banned_ips, bans_loaded,
    bump, cleaned, counter_of, dangerous_ports, first_over, flood_label, fresh_counter,
    fresh_detector, history_with, ip_banned, over, recorded, registered, status_report, sum_of,
    tidied, traffic_with_event, udp_ports, unbanned, AdaptiveScale, CounterModel, EventModel,
    FloodModel, FloodType, PacketKind,
};
use crate::bans::{expired, RecordModel};
use crate::clock::WallClock;
use crate::ranges::{neutral_ip, vpn_ip};
use crate::text::dec;
use crate::window::{
    law_ports_keep_ten_seconds, law_window_is_ten_seconds, port_times, purged, ten_seconds,
};

verus! {

// ---------------------------------------------------------------------------
// Events
// ---------------------------------------------------------------------------

/// An event is noted once in the list of all events and once in the list of its kind, TCP
/// and UDP by port. What is ten seconds old or older leaves every list. Nothing else
/// changes.
pub proof fn law_event_is_noted(c: CounterModel, kind: PacketKind, port: u16, now: u64, p: u16)
    ensures
        ({
            let d = recorded(c, kind, port, now);
            let tcp = ten_seconds(port_times(c.tcp, p), now);
            let udp = ten_seconds(port_times(c.udp, p), now);
            let icmp = ten_seconds(c.icmp, now);
            let http = ten_seconds(c.http, now);
            &&& d.total == ten_seconds(c.total, now).push(now)
            &&& kind == PacketKind::Tcp && p == port ==> port_times(d.tcp, p) == tcp.push(now)
            &&& !(kind == PacketKind::Tcp && p == port) ==> port_times(d.tcp, p) == tcp
            &&& kind == PacketKind::Udp && p == port ==> port_times(d.udp, p) == udp.push(now)
            &&& !(kind == PacketKind::Udp && p == port) ==> port_times(d.udp, p) == udp
            &&& kind == PacketKind::Icmp ==> d.icmp == icmp.push(now)
            &&& kind != PacketKind::Icmp ==> d.icmp == icmp
            &&& kind == PacketKind::Http ==> d.http == http.push(now)
            &&& kind != PacketKind::Http ==> d.http == http
            &&& d.banned_until == c.banned_until && d.ban_count == c.ban_count && d.permanent
                == c.permanent && d.reason == c.reason
            &&& d.history == c.history && d.multiplier == c.multiplier && d.grace_warned
                == c.grace_warned && d.grace_until == c.grace_until
        }),
{
    law_window_is_ten_seconds(c.total, now);
    law_window_is_ten_seconds(c.icmp, now);
    law_window_is_ten_seconds(c.http, now);
    law_ports_keep_ten_seconds(c.tcp, now, p);
    law_ports_keep_ten_seconds(c.udp, now, p);
}

/// A cleaning of a counter drops what is ten seconds old or older, and nothing else.
pub proof fn law_cleaning_keeps_ten_seconds(c: CounterModel, now: u64, p: u16)
    ensures
        ({
            let d = cleaned(c, now);
            &&& d.total == ten_seconds(c.total, now)
            &&& port_times(d.tcp, p) == ten_seconds(port_times(c.tcp, p), now)
            &&& port_times(d.udp, p) == ten_seconds(port_times(c.udp, p), now)
            &&& d.icmp == ten_seconds(c.icmp, now)
            &&& d.http == ten_seconds(c.http, now)
            &&& d.banned_until == c.banned_until && d.ban_count == c.ban_count && d.permanent
                == c.permanent && d.history == c.history
        }),
{
    law_window_is_ten_seconds(c.total, now);
    law_window_is_ten_seconds(c.icmp, now);
    law_window_is_ten_seconds(c.http, now);
    law_ports_keep_ten_seconds(c.tcp, now, p);
    law_ports_keep_ten_seconds(c.udp, now, p);
}

/// The traffic of an address is remembered for its last twenty events: the number at hand
/// is the last, and from the twenty-first on the first one goes.
pub proof fn law_traffic_of_twenty_events(history: Seq<usize>, n: usize)
    ensures
        history.len() < 20 ==> history_with(history, n) == history.push(n),
        history.len() >= 20 ==> history_with(history, n) == history.skip(1).push(n),
        history.len() <= 20 ==> history_with(history, n).len() <= 20,
{
    if history.len() >= 20 {
        assert(history_with(history, n) =~= history.skip(1).push(n));
    }
}

// ---------------------------------------------------------------------------
// Verdicts
// ---------------------------------------------------------------------------

/// Whether so many events pass a threshold: they are five at least, and more than it.
pub open spec fn enough(n: nat, threshold: usize) -> bool {
    n >= 5 && n > threshold
}

/// Whether the UDP events on a port are a flood: those on 53, 123, 443 and 1900 can be.
pub open spec fn udp_flooded(c: CounterModel, port: u16, scale: AdaptiveScale) -> bool {
    (port == 53 || port == 123 || port == 443 || port == 1900) && enough(
        port_times(c.udp, port).len(),
        scale.udp,
    )
}

/// Whether the connections to a port are a flood: those to 22, 23, 80, 443, 445, 3389, 5900
/// and 8080 can be.
pub open spec fn port_flooded(c: CounterModel, port: u16, scale: AdaptiveScale) -> bool {
    (port == 22 || port == 23 || port == 80 || port == 443 || port == 445 || port == 3389 || port
        == 5900 || port == 8080) && enough(port_times(c.tcp, port).len(), scale.port)
}

spec fn rising(ports: Seq<u16>) -> bool {
    forall|i: int, j: int| 0 <= i < j < ports.len() ==> #[trigger] ports[i] < #[trigger] ports[j]
}

proof fn lemma_first_over(ports: Seq<u16>, m: Map<u16, Seq<u64>>, threshold: usize)
    requires
        rising(ports),
    ensures
        match first_over(ports, m, threshold) {
            Some(p) => ports.contains(p) && over(port_times(m, p).len(), threshold) && forall|
                i: int,
            |
                0 <= i < ports.len() && over(port_times(m, #[trigger] ports[i]).len(), threshold)
                    ==> p <= ports[i],
            None => forall|i: int|
                0 <= i < ports.len() ==> !over(port_times(m, #[trigger] ports[i]).len(), threshold),
        },
    decreases ports.len(),
{
    if ports.len() > 0 {
        let rest = ports.skip(1);
        assert forall|i: int, j: int| 0 <= i < j < rest.len() implies #[trigger] rest[i]
            < #[trigger] rest[j] by {
            assert(ports[i + 1] < ports[j + 1]);
        }
        lemma_first_over(rest, m, threshold);
        if over(port_times(m, ports[0]).len(), threshold) {
            assert(ports.contains(ports[0]));
        } else {
            assert forall|i: int|
                0 <= i < ports.len() && over(
                    port_times(m, #[trigger] ports[i]).len(),
                    threshold,
                ) implies first_over(ports, m, threshold) is Some && first_over(
                ports,
                m,
                threshold,
            )->0 <= ports[i] by {
                assert(rest[i - 1] == ports[i]);
            }
            if first_over(rest, m, threshold) is Some {
                let p = first_over(rest, m, threshold)->0;
                let i = rest.index_of(p);
                assert(ports[i + 1] == p);
            }
        }
    }
}

proof fn lemma_udp(c: CounterModel, scale: AdaptiveScale)
    ensures
        match first_over(udp_ports(), c.udp, scale.udp) {
            Some(p) => udp_flooded(c, p, scale) && forall|q: u16|
                #[trigger] udp_flooded(c, q, scale) ==> p <= q,
            None => forall|q: u16| !(#[trigger] udp_flooded(c, q, scale)),
        },
{
    let l = udp_ports();
    assert(l.len() == 4 && l[0] == 53 && l[1] == 123 && l[2] == 443 && l[3] == 1900);
    lemma_first_over(l, c.udp, scale.udp);
}

proof fn lemma_tcp(c: CounterModel, scale: AdaptiveScale)
    ensures
        match first_over(dangerous_ports(), c.tcp, scale.port) {
            Some(p) => port_flooded(c, p, scale) && forall|q: u16|
                #[trigger] port_flooded(c, q, scale) ==> p <= q,
            None => forall|q: u16| !(#[trigger] port_flooded(c, q, scale)),
        },
{
    let l = dangerous_ports();
    assert(l.len() == 8 && l[0] == 22 && l[1] == 23 && l[2] == 80 && l[3] == 443 && l[4] == 445
        && l[5] == 3389 && l[6] == 5900 && l[7] == 8080);
    lemma_first_over(l, c.tcp, scale.port);
}

/// The verdict on an address is the first of these that holds: too many connections to
/// port 22, web requests, UDP events on a port, pings, connections to a port, events. Of
/// several ports it names the smallest. Where none holds there is no flood.
pub proof fn law_verdict(c: CounterModel, scale: AdaptiveScale)
    ensures
        ({
            let (kind, port, count) = analysis(c, scale);
            let ssh = enough(port_times(c.tcp, 22).len(), scale.ssh);
            let http = enough(c.http.len(), scale.http);
            let udp = exists|q: u16| #[trigger] udp_flooded(c, q, scale);
            let icmp = enough(c.icmp.len(), scale.icmp);
            let tcp = exists|q: u16| #[trigger] port_flooded(c, q, scale);
            let ip = enough(c.total.len(), scale.ip);
            &&& ssh ==> kind == FloodType::SshBrute && port == 22 && count == port_times(
                c.tcp,
                22,
            ).len()
            &&& !ssh && http ==> kind == FloodType::HttpFlood && port == 443 && count
                == c.http.len()
            &&& !ssh && !http && udp ==> kind == FloodType::UdpFlood && udp_flooded(c, port, scale)
                && (forall|q: u16| #[trigger] udp_flooded(c, q, scale) ==> port <= q) && count
                == port_times(c.udp, port).len()
            &&& !ssh && !http && !udp && icmp ==> kind == FloodType::IcmpFlood && port == 0 && count
                == c.icmp.len()
            &&& !ssh && !http && !udp && !icmp && tcp ==> kind == FloodType::PortFlood
                && port_flooded(c, port, scale) && (forall|q: u16|
                #[trigger] port_flooded(c, q, scale) ==> port <= q) && count == port_times(
                c.tcp,
                port,
            ).len()
            &&& !ssh && !http && !udp && !icmp && !tcp && ip ==> kind == FloodType::IpFlood && port
                == 0 && count == c.total.len()
            &&& !ssh && !http && !udp && !icmp && !tcp && !ip ==> kind == FloodType::NoFlood
        }),
{
    lemma_udp(c, scale);
    lemma_tcp(c, scale);
}

// ---------------------------------------------------------------------------
// Registering
// ---------------------------------------------------------------------------

/// An event of an address that is not exempt and not banned is noted, and judged by what
/// is then on record of the address: a flood of any kind is a ban, and the ban says what
/// was found; without a flood there is no ban. No other address changes.
pub proof fn law_event_is_judged(
    m: FloodModel,
    ip: Seq<char>,
    port: u16,
    kind: PacketKind,
    now: u64,
    scale: AdaptiveScale,
    p: u16,
    other: Seq<char>,
)
    requires
        !neutral_ip(ip),
        !m.whitelist.contains(ip),
        !ip_banned(m, ip, now),
    ensures
        ({
            let before = if m.counters.contains_key(ip) {
                m.counters[ip]
            } else {
                fresh_counter()
            };
            let noted = recorded(before, kind, port, now);
            let (after, outcome) = registered(m, ip, port, kind, now, scale);
            let c = after.counters[ip];
            let verdict = analysis(c, scale);
            &&& after.counters.contains_key(ip)
            &&& c.total == noted.total && c.icmp == noted.icmp && c.http == noted.http
            &&& c.tcp == noted.tcp && c.udp == noted.udp
            &&& outcome.ban is Some <==> verdict.0 != FloodType::NoFlood
            &&& outcome.ban is Some ==> outcome.ban->0.event.flood_type == verdict.0
                && outcome.ban->0.event.port == verdict.1 && outcome.ban->0.event.count
                == verdict.2
            &&& c.multiplier == scale.multiplier
            &&& noted.total.len() <= usize::MAX ==> c.history.last() == noted.total.len()
            &&& other != ip ==> (after.counters.contains_key(other) <==> m.counters.contains_key(
                other,
            )) && after.counters[other] == m.counters[other]
            &&& after.whitelist == m.whitelist && after.real_ban == m.real_ban
                && after.learning_mode == m.learning_mode && after.fake_ip_guard == m.fake_ip_guard
        }),
{
}

/// A ban is of the address at this moment. It lasts 600 seconds, unless it is the fifth of
/// the address or the address is suspect and the guard is on: then it has no end. The
/// firewall is told where bans are real and nothing is being learnt. Every count goes up
/// by one; the one of bans without end only for such a ban.
pub proof fn law_ban_is_as_reported(
    m: FloodModel,
    ip: Seq<char>,
    port: u16,
    kind: PacketKind,
    now: u64,
    scale: AdaptiveScale,
)
    requires
        registered(m, ip, port, kind, now, scale).1.ban is Some,
        counter_of(m.counters, ip).ban_count < u32::MAX,
        m.bans_issued < u64::MAX,
        m.events_logged < u64::MAX,
        m.permanent_bans < u64::MAX,
    ensures
        ({
            let (after, outcome) = registered(m, ip, port, kind, now, scale);
            let ban = outcome.ban->0;
            let before = counter_of(m.counters, ip);
            let c = after.counters[ip];
            let suspect = vpn_ip(ip) && m.fake_ip_guard;
            let lasting = before.ban_count >= 4 || suspect || before.permanent;
            &&& ban.event.ip == ip && ban.event.timestamp == now && !ban.event.grace
            &&& ip.contains(':') ==> ban.event.ip_type == "IPv6"@
            &&& !ip.contains(':') ==> ban.event.ip_type == "IPv4"@
            &&& ban.event.permanent <==> lasting
            &&& ban.firewall <==> m.real_ban && !m.learning_mode
            &&& subnet64(ip) is None ==> ban.target == ip
            &&& subnet64(ip) is Some ==> ban.target == subnet64(ip)->0
            &&& c.ban_count == before.ban_count + 1
            &&& c.permanent <==> lasting
            &&& before.ban_count < 4 ==> c.banned_until is Some && c.banned_until->0 == now
                + 600_000_000_000
            &&& before.ban_count >= 4 ==> c.banned_until == before.banned_until
            &&& c.reason == Some(ban.reason)
            &&& c.grace_warned
            &&& after.bans_issued == m.bans_issued + 1
            &&& after.events_logged == m.events_logged + 1
            &&& lasting ==> after.permanent_bans == m.permanent_bans + 1
            &&& !lasting ==> after.permanent_bans == m.permanent_bans
        }),
{
}

/// Without a ban no ban is counted, and the record of the address keeps its bans.
pub proof fn law_no_ban_changes_no_ban(
    m: FloodModel,
    ip: Seq<char>,
    port: u16,
    kind: PacketKind,
    now: u64,
    scale: AdaptiveScale,
)
    requires
        registered(m, ip, port, kind, now, scale).1.ban is None,
    ensures
        ({
            let after = registered(m, ip, port, kind, now, scale).0;
            let before = counter_of(m.counters, ip);
            let c = counter_of(after.counters, ip);
            &&& after.bans_issued == m.bans_issued && after.events_logged == m.events_logged
                && after.permanent_bans == m.permanent_bans
            &&& c.ban_count == before.ban_count && c.permanent == before.permanent
                && c.banned_until == before.banned_until && c.reason == before.reason
        }),
{
}

/// An address is warned at the moment at which its events of the last ten seconds, the one
/// at hand with them, reach the limit for the first time; a ban of an address that was not
/// warned, or whose warning lapsed because its events fell below half the limit, warns it
/// too. The warning says how many events there are, holds for three seconds, and is
/// counted. Otherwise there is none.
pub proof fn law_warnings(
    m: FloodModel,
    ip: Seq<char>,
    port: u16,
    kind: PacketKind,
    now: u64,
    scale: AdaptiveScale,
)
    requires
        !neutral_ip(ip),
        !m.whitelist.contains(ip),
        !ip_banned(m, ip, now),
        m.grace_warnings < u64::MAX,
    ensures
        ({
            let before = counter_of(m.counters, ip);
            let (after, outcome) = registered(m, ip, port, kind, now, scale);
            let c = after.counters[ip];
            let n = ten_seconds(before.total, now).len() + 1;
            let due = n >= scale.grace && !before.grace_warned;
            let half = scale.grace / 2;
            &&& due ==> outcome.grace is Some
            &&& outcome.ban is Some && !before.grace_warned ==> outcome.grace is Some
            &&& outcome.ban is Some && n < half && n < scale.grace ==> outcome.grace is Some
            &&& outcome.grace is Some ==> due || (outcome.ban is Some && (n < half
                || !before.grace_warned))
            &&& outcome.grace is Some ==> outcome.grace->0 == n && c.grace_warned
                && c.grace_until is Some && c.grace_until->0 == now + 3_000_000_000
                && after.grace_warnings == m.grace_warnings + 1
            &&& outcome.grace is None ==> after.grace_warnings == m.grace_warnings
            &&& outcome.grace is None && n < half ==> !c.grace_warned && c.grace_until is None
            &&& outcome.grace is None && n >= half ==> c.grace_warned == before.grace_warned
                && c.grace_until == before.grace_until
        }),
{
    law_window_is_ten_seconds(counter_of(m.counters, ip).total, now);
}

/// The reason of a ban is the name of the attack, with the port where it is one on a port,
/// and a remark if the address is suspect.
pub proof fn law_ban_reasons(port: u16)
    ensures
        ban_reason(FloodType::PortFlood, port, false) == "PORT-FLOOD порт "@ + dec(port as nat),
        ban_reason(FloodType::UdpFlood, port, false) == "UDP-FLOOD порт "@ + dec(port as nat),
        ban_reason(FloodType::DdosFlood, port, false) == "DDOS-FLOOD порт "@ + dec(port as nat),
        ban_reason(FloodType::IpFlood, port, false) == "IP-FLOOD"@,
        ban_reason(FloodType::SynScan, port, false) == "SYN-SCAN"@,
        ban_reason(FloodType::HttpFlood, port, false) == "HTTP-FLOOD"@,
        ban_reason(FloodType::SshBrute, port, false) == "SSH-BRUTE"@,
        ban_reason(FloodType::NoFlood, port, false) == "UNKNOWN"@,
        forall|kind: FloodType| #[trigger]
            ban_reason(kind, port, true) == ban_reason(kind, port, false) + " (VPN/прокси)"@,
{
}

/// The reason of a ban for pings has no port.
pub proof fn law_ping_ban_reason(port: u16)
    ensures
        ban_reason(FloodType::IcmpFlood, port, false) == "ICMP-FLOOD"@,
{
}

// ---------------------------------------------------------------------------
// Bans
// ---------------------------------------------------------------------------

/// An address is banned while a ban without end is on record of it, and until the end of
/// any other; of an IPv6 address, or one of its subnet.
pub proof fn law_who_is_banned(m: FloodModel, ip: Seq<char>, other: Seq<char>, now: u64)
    requires
        m.counters.contains_key(other),
    ensures
        banned(m.counters[other], now) <==> m.counters[other].permanent || (
        m.counters[other].banned_until is Some && m.counters[other].banned_until->0 > now),
        banned_ips(m, now).contains(other) <==> m.counters[other].permanent || (
        m.counters[other].banned_until is Some && m.counters[other].banned_until->0 > now),
        banned(m.counters[other], now) && (other == ip || (subnet64(other) is Some && subnet64(other)
            == subnet64(ip))) ==> ip_banned(m, ip, now),
        !ip_banned(m, ip, now) && m.counters.contains_key(ip) ==> !banned(m.counters[ip], now),
{
}

/// Without a ban of the address or its subnet on record the address is not banned.
pub proof fn law_others_are_not_banned(m: FloodModel, ip: Seq<char>, now: u64)
    requires
        forall|other: Seq<char>| #[trigger]
            m.counters.contains_key(other) && (other == ip || (subnet64(other) is Some && subnet64(
                other,
            ) == subnet64(ip))) ==> !banned(m.counters[other], now),
    ensures
        !ip_banned(m, ip, now),
{
}

/// A lifted ban leaves no trace of a ban, and the events as they are.
pub proof fn law_lifting_keeps_events(c: CounterModel, now: u64)
    ensures
        ({
            let d = ban_lifted(c);
            &&& !banned(d, now) && d.ban_count == 0 && !d.permanent && d.banned_until is None
                && d.reason is None
            &&& d.tcp == c.tcp && d.udp == c.udp && d.icmp == c.icmp && d.http == c.http && d.total
                == c.total && d.history == c.history && d.grace_warned == c.grace_warned
        }),
{
}

/// An unban lifts the bans of the address and of those of its subnet, and no other; an
/// address that is not on record changes nothing.
pub proof fn law_unban_lifts_the_subnet(m: FloodModel, ip: Seq<char>, other: Seq<char>)
    ensures
        ({
            let after = unbanned(m, ip);
            let near = other == ip || (subnet64(other) is Some && subnet64(other) == subnet64(ip));
            &&& !m.counters.contains_key(ip) ==> after == m
            &&& after.counters.contains_key(other) <==> m.counters.contains_key(other)
            &&& m.counters.contains_key(ip) && m.counters.contains_key(other) && near
                ==> after.counters[other] == ban_lifted(m.counters[other])
            &&& m.counters.contains_key(other) && !near ==> after.counters[other]
                == m.counters[other]
            &&& after.attackers == m.attackers && after.bans_issued == m.bans_issued
                && after.permanent_bans == m.permanent_bans && after.whitelist == m.whitelist
        }),
{
}

/// A cleanup forgets an address exactly if nothing was ever noted of it, or if its last
/// event is more than thirty seconds old and it is not banned. What stays is unchanged.
pub proof fn law_cleanup_forgets_the_quiet(m: FloodModel, ip: Seq<char>, now: u64)
    requires
        m.counters.contains_key(ip),
    ensures
        ({
            let c = m.counters[ip];
            let after = tidied(m, now);
            let in_ban = c.permanent || (c.banned_until is Some && c.banned_until->0 > now);
            &&& c.total.len() == 0 ==> !after.counters.contains_key(ip)
            &&& c.total.len() > 0 ==> (after.counters.contains_key(ip) <==> c.total.last()
                + 30_000_000_000 >= now || in_ban)
            &&& after.counters.contains_key(ip) ==> after.counters[ip] == c
            &&& after.attackers == purged(m.attackers, now)
            &&& after.whitelist == m.whitelist && after.bans_issued == m.bans_issued
                && after.grace_warnings == m.grace_warnings && after.ddos_detected
                == m.ddos_detected
        }),
{
}

/// A cleanup adds no address.
pub proof fn law_cleanup_adds_nothing(m: FloodModel, ip: Seq<char>, now: u64)
    ensures
        tidied(m, now).counters.contains_key(ip) ==> m.counters.contains_key(ip),
{
}

/// A ban that is loaded starts again: one with an end for 600 seconds from now, with its
/// count and its reason. One that has run out, and an address without a saved ban, change
/// nothing. What was noted of the address stays.
pub proof fn law_loaded_bans_start_again(
    counters: Map<Seq<char>, CounterModel>,
    bans: Map<Seq<char>, RecordModel>,
    clock: WallClock,
    now: u64,
    ip: Seq<char>,
)
    requires
        bans.dom().finite(),
    ensures
        ({
            let after = bans_loaded(counters, bans, clock, now);
            let loaded = bans.contains_key(ip) && !expired(bans[ip], clock);
            let before = counter_of(counters, ip);
            &&& active_bans(bans, clock).contains(ip) <==> loaded
            &&& loaded ==> after.contains_key(ip) && after[ip].permanent == bans[ip].permanent
                && after[ip].ban_count == bans[ip].ban_events && after[ip].reason == Some(
                bans[ip].reason,
            ) && after[ip].total == before.total && after[ip].tcp == before.tcp && after[ip].udp
                == before.udp && after[ip].grace_warned == before.grace_warned
            &&& loaded && !bans[ip].permanent ==> after[ip].banned_until is Some
                && after[ip].banned_until->0 == now + 600_000_000_000
            &&& loaded && bans[ip].permanent ==> after[ip].banned_until == before.banned_until
            &&& !loaded ==> (after.contains_key(ip) <==> counters.contains_key(ip)) && (
            counters.contains_key(ip) ==> after[ip] == counters[ip])
        }),
{
}

/// A new detector knows nobody, has counted nothing, and guards against suspect addresses.
pub proof fn law_new_detector_is_empty(real_ban: bool, learning_mode: bool, ip: Seq<char>, now: u64)
    ensures
        ({
            let m = fresh_detector(real_ban, learning_mode);
            &&& !m.counters.contains_key(ip) && !ip_banned(m, ip, now) && !m.whitelist.contains(ip)
            &&& m.events_logged == 0 && m.bans_issued == 0 && m.permanent_bans == 0
                && m.grace_warnings == 0 && m.ddos_detected == 0
            &&& m.real_ban == real_ban && m.learning_mode == learning_mode && m.fake_ip_guard
            &&& forall|port: u16| !(#[trigger] m.attackers.contains_key(port))
            &&& !banned(fresh_counter(), now) && fresh_counter().ban_count == 0
                && fresh_counter().total.len() == 0 && !fresh_counter().grace_warned
        }),
{
}

/// What the next multiplier is made from is what will be on record: the past traffic as it
/// stands once the event is registered.
pub proof fn law_traffic_is_foreseen(
    m: FloodModel,
    ip: Seq<char>,
    port: u16,
    kind: PacketKind,
    now: u64,
    scale: AdaptiveScale,
)
    requires
        !neutral_ip(ip),
        !m.whitelist.contains(ip),
        !ip_banned(m, ip, now),
    ensures
        registered(m, ip, port, kind, now, scale).0.counters[ip].history == traffic_with_event(
            counter_of(m.counters, ip),
            now,
        ),
{
}

/// The sum of counts grows by each count.
pub proof fn law_sum_of_counts(s: Seq<usize>, n: usize)
    ensures
        sum_of(Seq::empty()) == 0,
        sum_of(s.push(n)) == sum_of(s) + n,
{
    assert(s.push(n).drop_last() =~= s);
}

/// A notice of a ban names the address with its protocol, the attack, the port and how many
/// events there were, and says whether the ban ends.
pub proof fn law_ban_notices(event: EventModel)
    ensures
        ({
            let start = "[ANTI-FLOOD] "@ + event.ip + " ["@ + event.ip_type + "] "@ + flood_label(
                event.flood_type,
            ) + " порт "@ + dec(event.port as nat) + ": "@ + dec(event.count) + " событий → "@;
            &&& event.permanent ==> ban_notice(event) == start + "ПЕРМАНЕНТНЫЙ БАН"@
            &&& !event.permanent ==> ban_notice(event) == start + "ЗАБАНЕН на 10 мин"@
        }),
{
}

/// The status counts each address that is banned once, and each that is known.
pub proof fn law_status_counts(m: FloodModel, now: u64, average: Seq<char>)
    ensures
        ({
            let r = status_report(m, now, average);
            &&& r.len() == 11
            &&& r[1] == "     Наблюдаемых IP: "@ + dec(m.counters.dom().len())
            &&& r[2] == "     Забаненных: "@ + dec(banned_ips(m, now).len())
            &&& r[3] == "     Баннов выдано: "@ + dec(m.bans_issued as nat)
            &&& r[4] == "     Перманентных: "@ + dec(m.permanent_bans as nat)
            &&& r[5] == "     Грейс-предупреждений: "@ + dec(m.grace_warnings as nat)
            &&& r[6] == "     DDoS обнаружено: "@ + dec(m.ddos_detected as nat)
            &&& m.fake_ip_guard ==> r[7] == "     Защита от VPN/фейк IP: "@ + "ВКЛ"@
            &&& !m.fake_ip_guard ==> r[7] == "     Защита от VPN/фейк IP: "@ + "ВЫКЛ"@
            &&& r[8] == "     Событий зафиксировано: "@ + dec(m.events_logged as nat)
            &&& r[9] == "     Средний адаптивный множитель: "@ + average
            &&& r[10] == "     Файл банов: "@ + "ArlianAI/models/antiflood_bans.json"@
        }),
{
}

/// Counters go up by one, and start over after the largest value.
pub proof fn law_counters_go_up(n: u64)
    ensures
        n < u64::MAX ==> bump(n) == n + 1,
        n == u64::MAX ==> bump(n) == 0,
{
}

} // verus!
