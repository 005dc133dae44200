//! What holds of the protector against attacks, said without its own definitions: which
//! frames count, which of them are an attack, what a ban is, and what is forgotten.
use vstd::prelude::*;

use crate::antiflood::{dangerous_ports, udp_ports};
use crate::ddos::{
    base_thresholds, ddos_report, ddos_tidied, event_recorded, first_beyond, flood_reason,
    frame_counted, frame_processed, fresh_protector, fresh_source, source_analysis,
    source_ban_notice, source_banned, source_of, source_recorded, told_as, DdosModel,
    DdosThresholds, FloodType, SourceModel,
};
use crate::packet::{frame_event, PacketKind};
use crate::ranges::private_ip;
use crate::text::{dec, number_text};
use crate::window::{
    law_ports_keep_ten_seconds, law_window_is_ten_seconds, port_times, purged, ten_seconds,
};

verus! {

/// A frame is noted once in the list of all frames and once in the list of its kind, SYN
/// and UDP by port. What is ten seconds old or older leaves every list. Nothing else
/// changes.
pub proof fn law_frame_is_noted(c: SourceModel, kind: PacketKind, port: u16, now: u64, p: u16)
    ensures
        ({
            let d = source_recorded(c, kind, port, now);
            let syn = ten_seconds(port_times(c.syn, p), now);
            let udp = ten_seconds(port_times(c.udp, p), now);
            let icmp = ten_seconds(c.icmp, now);
            let http = ten_seconds(c.http, now);
            &&& d.total == ten_seconds(c.total, now).push(now)
            &&& kind == PacketKind::Syn && p == port ==> port_times(d.syn, p) == syn.push(now)
            &&& !(kind == PacketKind::Syn && p == port) ==> port_times(d.syn, p) == syn
            &&& kind == PacketKind::Udp && p == port ==> port_times(d.udp, p) == udp.push(now)
            &&& !(kind == PacketKind::Udp && p == port) ==> port_times(d.udp, p) == udp
            &&& kind == PacketKind::Icmp ==> d.icmp == icmp.push(now)
            &&& kind != PacketKind::Icmp ==> d.icmp == icmp
            &&& kind == PacketKind::Http ==> d.http == http.push(now)
            &&& kind != PacketKind::Http ==> d.http == http
            &&& d.banned_until == c.banned_until && d.ban_count == c.ban_count && d.permanent
                == c.permanent && d.reason == c.reason
        }),
{
    law_window_is_ten_seconds(c.total, now);
    law_window_is_ten_seconds(c.icmp, now);
    law_window_is_ten_seconds(c.http, now);
    law_ports_keep_ten_seconds(c.syn, now, p);
    law_ports_keep_ten_seconds(c.udp, now, p);
}

/// Whether the UDP frames to a port are too many: those to 53, 123, 443 and 1900 can be.
pub open spec fn udp_attacked(c: SourceModel, port: u16, t: DdosThresholds) -> bool {
    (port == 53 || port == 123 || port == 443 || port == 1900) && port_times(c.udp, port).len()
        > t.udp
}

/// Whether the SYN frames to a port are too many: those to 22, 23, 80, 443, 445, 3389, 5900
/// and 8080 can be.
pub open spec fn port_attacked(c: SourceModel, port: u16, t: DdosThresholds) -> bool {
    (port == 22 || port == 23 || port == 80 || port == 443 || port == 445 || port == 3389 || port
        == 5900 || port == 8080) && port_times(c.syn, port).len() > t.syn
}

spec fn rising(ports: Seq<u16>) -> bool {
    forall|i: int, j: int| 0 <= i < j < ports.len() ==> #[trigger] ports[i] < #[trigger] ports[j]
}

proof fn lemma_first_beyond(ports: Seq<u16>, m: Map<u16, Seq<u64>>, threshold: usize)
    requires
        rising(ports),
    ensures
        match first_beyond(ports, m, threshold) {
            Some(p) => ports.contains(p) && port_times(m, p).len() > threshold && forall|i: int|
                0 <= i < ports.len() && port_times(m, #[trigger] ports[i]).len() > threshold ==> p
                    <= ports[i],
            None => forall|i: int|
                0 <= i < ports.len() ==> port_times(m, #[trigger] ports[i]).len() <= threshold,
        },
    decreases ports.len(),
{
    if ports.len() > 0 {
        let rest = ports.skip(1);
        assert forall|i: int, j: int| 0 <= i < j < rest.len() implies #[trigger] rest[i]
            < #[trigger] rest[j] by {
            assert(ports[i + 1] < ports[j + 1]);
        }
        lemma_first_beyond(rest, m, threshold);
        if port_times(m, ports[0]).len() > threshold {
            assert(ports.contains(ports[0]));
        } else {
            assert forall|i: int|
                0 <= i < ports.len() && port_times(m, #[trigger] ports[i]).len()
                    > threshold implies first_beyond(ports, m, threshold) is Some && first_beyond(
                ports,
                m,
                threshold,
            )->0 <= ports[i] by {
                assert(rest[i - 1] == ports[i]);
            }
            if first_beyond(rest, m, threshold) is Some {
                let p = first_beyond(rest, m, threshold)->0;
                let i = rest.index_of(p);
                assert(ports[i + 1] == p);
            }
        }
    }
}

proof fn lemma_udp(c: SourceModel, t: DdosThresholds)
    ensures
        match first_beyond(udp_ports(), c.udp, t.udp) {
            Some(p) => udp_attacked(c, p, t) && forall|q: u16| #[trigger]
                udp_attacked(c, q, t) ==> p <= q,
            None => forall|q: u16| !(#[trigger] udp_attacked(c, q, t)),
        },
{
    let l = udp_ports();
    assert(l.len() == 4 && l[0] == 53 && l[1] == 123 && l[2] == 443 && l[3] == 1900);
    lemma_first_beyond(l, c.udp, t.udp);
}

proof fn lemma_syn(c: SourceModel, t: DdosThresholds)
    ensures
        match first_beyond(dangerous_ports(), c.syn, t.syn) {
            Some(p) => port_attacked(c, p, t) && forall|q: u16| #[trigger]
                port_attacked(c, q, t) ==> p <= q,
            None => forall|q: u16| !(#[trigger] port_attacked(c, q, t)),
        },
{
    let l = dangerous_ports();
    assert(l.len() == 8 && l[0] == 22 && l[1] == 23 && l[2] == 80 && l[3] == 443 && l[4] == 445
        && l[5] == 3389 && l[6] == 5900 && l[7] == 8080);
    lemma_first_beyond(l, c.syn, t.syn);
}

/// The verdict on a source is the first of these that holds: too many SYN frames to port
/// 22, web frames, UDP frames to a port, pings, SYN frames to a port. Of several ports it
/// names the smallest. Where none holds there is no attack.
pub proof fn law_source_verdict(c: SourceModel, t: DdosThresholds)
    ensures
        ({
            let (kind, port, count) = source_analysis(c, t);
            let ssh = port_times(c.syn, 22).len() > t.ssh;
            let http = c.http.len() > t.http;
            let udp = exists|q: u16| #[trigger] udp_attacked(c, q, t);
            let icmp = c.icmp.len() > t.icmp;
            let syn = exists|q: u16| #[trigger] port_attacked(c, q, t);
            &&& ssh ==> kind == FloodType::SshBrute && port == 22 && count == port_times(
                c.syn,
                22,
            ).len()
            &&& !ssh && http ==> kind == FloodType::HttpFlood && port == 443 && count
                == c.http.len()
            &&& !ssh && !http && udp ==> kind == FloodType::UdpFlood && udp_attacked(c, port, t) && (
            forall|q: u16| #[trigger] udp_attacked(c, q, t) ==> port <= q) && count == port_times(
                c.udp,
                port,
            ).len()
            &&& !ssh && !http && !udp && icmp ==> kind == FloodType::IcmpFlood && port == 0 && count
                == c.icmp.len()
            &&& !ssh && !http && !udp && !icmp && syn ==> kind == FloodType::SynFlood
                && port_attacked(c, port, t) && (forall|q: u16|
                #[trigger] port_attacked(c, q, t) ==> port <= q) && count == port_times(
                c.syn,
                port,
            ).len()
            &&& !ssh && !http && !udp && !icmp && !syn ==> kind == FloodType::NoFlood
        }),
{
    lemma_udp(c, t);
    lemma_syn(c, t);
}

/// A frame of a source that is not exempt and not banned is noted, and the source is judged
/// by what is then on record of it: an attack of any kind is a ban, and the ban says what
/// was found; without an attack there is no ban. No other source changes.
pub proof fn law_frame_is_judged(
    m: DdosModel,
    ip: Seq<char>,
    port: u16,
    kind: PacketKind,
    now: u64,
    other: Seq<char>,
)
    requires
        !private_ip(ip),
        !m.whitelist.contains(ip),
        !source_banned(source_of(m.counters, ip), now),
    ensures
        ({
            let before = if m.counters.contains_key(ip) {
                m.counters[ip]
            } else {
                fresh_source()
            };
            let noted = source_recorded(before, kind, port, now);
            let (after, outcome) = event_recorded(m, ip, port, kind, now);
            let c = after.counters[ip];
            let verdict = source_analysis(c, m.thresholds);
            &&& after.counters.contains_key(ip)
            &&& c.total == noted.total && c.icmp == noted.icmp && c.http == noted.http
            &&& c.syn == noted.syn && c.udp == noted.udp
            &&& outcome.ban is Some <==> verdict.0 != FloodType::NoFlood
            &&& outcome.ban is Some ==> outcome.ban->0.flood_type == verdict.0
                && outcome.ban->0.port == verdict.1 && outcome.ban->0.count == verdict.2
                && outcome.ban->0.kind == kind
            &&& outcome.ban is None ==> c == noted
            &&& other != ip ==> (after.counters.contains_key(other) <==> m.counters.contains_key(
                other,
            )) && after.counters[other] == m.counters[other]
            &&& after.whitelist == m.whitelist && after.thresholds == m.thresholds && after.real_ban
                == m.real_ban && after.learning_mode == m.learning_mode && after.packets_captured
                == m.packets_captured
        }),
{
}

/// A ban lasts the seconds that are set, unless it is the one from which on bans have no
/// end. The firewall is told where bans are real and nothing is being learnt. The ban is
/// counted, and the attack under its kind alone.
pub proof fn law_source_ban_is_as_reported(
    m: DdosModel,
    ip: Seq<char>,
    port: u16,
    kind: PacketKind,
    now: u64,
)
    requires
        event_recorded(m, ip, port, kind, now).1.ban is Some,
        source_of(m.counters, ip).ban_count < u32::MAX,
        m.bans_issued < u64::MAX,
        m.syn_detected < u64::MAX,
        m.udp_detected < u64::MAX,
        m.icmp_detected < u64::MAX,
        m.http_detected < u64::MAX,
        m.ssh_detected < u64::MAX,
    ensures
        ({
            let (after, outcome) = event_recorded(m, ip, port, kind, now);
            let ban = outcome.ban->0;
            let before = source_of(m.counters, ip);
            let c = after.counters[ip];
            let last = before.ban_count + 1 >= m.thresholds.permanent_after;
            &&& c.ban_count == before.ban_count + 1
            &&& c.permanent <==> last || before.permanent
            &&& ban.permanent == c.permanent
            &&& !last ==> c.banned_until is Some && c.banned_until->0 == now
                + m.thresholds.ban_duration * 1_000_000_000
            &&& last ==> c.banned_until == before.banned_until
            &&& c.reason == Some(ban.reason) && ban.reason == flood_reason(
                ban.flood_type,
                ban.port,
            )
            &&& ban.firewall <==> m.real_ban && !m.learning_mode
            &&& after.bans_issued == m.bans_issued + 1
            &&& after.syn_detected - m.syn_detected == one_if(ban.flood_type == FloodType::SynFlood)
            &&& after.udp_detected - m.udp_detected == one_if(ban.flood_type == FloodType::UdpFlood)
            &&& after.icmp_detected - m.icmp_detected == one_if(
                ban.flood_type == FloodType::IcmpFlood,
            )
            &&& after.http_detected - m.http_detected == one_if(
                ban.flood_type == FloodType::HttpFlood,
            )
            &&& after.ssh_detected - m.ssh_detected == one_if(ban.flood_type == FloodType::SshBrute)
        }),
{
}

/// One if it holds, and zero if not.
pub open spec fn one_if(b: bool) -> int {
    if b {
        1
    } else {
        0
    }
}

/// Without a ban nothing is counted as one.
pub proof fn law_no_attack_counts_nothing(
    m: DdosModel,
    ip: Seq<char>,
    port: u16,
    kind: PacketKind,
    now: u64,
)
    requires
        event_recorded(m, ip, port, kind, now).1.ban is None,
    ensures
        ({
            let after = event_recorded(m, ip, port, kind, now).0;
            &&& after.bans_issued == m.bans_issued && after.syn_detected == m.syn_detected
                && after.udp_detected == m.udp_detected && after.icmp_detected == m.icmp_detected
                && after.http_detected == m.http_detected && after.ssh_detected == m.ssh_detected
            &&& source_of(after.counters, ip).ban_count == source_of(m.counters, ip).ban_count
            &&& source_of(after.counters, ip).permanent == source_of(m.counters, ip).permanent
        }),
{
}

/// A frame to a port 22, 23, 80, 443, 445, 3389, 5900 or 8080 that is taken into account
/// adds its source to those of the port, of which only those of the last ten seconds stay,
/// whether it leads to a ban or not. As long as they are as many as is set, each such frame
/// reports an attack by all of them, and the attack is counted. No other frame does.
pub proof fn law_many_sources_are_reported(
    m: DdosModel,
    ip: Seq<char>,
    port: u16,
    kind: PacketKind,
    now: u64,
)
    requires
        !private_ip(ip),
        !m.whitelist.contains(ip),
        !source_banned(source_of(m.counters, ip), now),
        m.ddos_detected < u64::MAX,
    ensures
        ({
            let (after, outcome) = event_recorded(m, ip, port, kind, now);
            let watched = port == 22 || port == 23 || port == 80 || port == 443 || port == 445
                || port == 3389 || port == 5900 || port == 8080;
            let earlier = if m.attackers.contains_key(port) {
                m.attackers[port]
            } else {
                Map::<Seq<char>, u64>::empty()
            };
            let sources = after.attackers[port];
            let many = sources.dom().len() >= m.thresholds.ddos_sources;
            &&& watched ==> after.attackers.contains_key(port) && sources.contains_key(ip)
                && sources[ip] == now
            &&& watched ==> forall|other: Seq<char>|
                other != ip ==> (#[trigger] sources.contains_key(other) <==> earlier.contains_key(
                    other,
                ) && earlier[other] + 10_000_000_000 > now) && (sources.contains_key(other)
                    ==> sources[other] == earlier[other])
            &&& watched && many ==> outcome.ddos == Some(sources.dom().len())
                && after.ddos_detected == m.ddos_detected + 1
            &&& watched && !many ==> outcome.ddos is None && after.ddos_detected == m.ddos_detected
            &&& !watched ==> outcome.ddos is None && after.ddos_detected == m.ddos_detected
                && after.attackers == m.attackers
            &&& forall|p: u16|
                p != port ==> (#[trigger] after.attackers.contains_key(p)
                    <==> m.attackers.contains_key(p)) && after.attackers[p] == m.attackers[p]
        }),
{
    let l = dangerous_ports();
    assert(l[0] == 22 && l[1] == 23 && l[2] == 80 && l[3] == 443 && l[4] == 445 && l[5] == 3389
        && l[6] == 5900 && l[7] == 8080);
    assert(l.contains(22) && l.contains(23) && l.contains(80) && l.contains(443) && l.contains(445)
        && l.contains(3389) && l.contains(5900) && l.contains(8080));
}

/// A frame that says something is an event of its source, and any other changes nothing.
pub proof fn law_frames_are_events(m: DdosModel, frame: Seq<u8>, now: u64)
    ensures
        frame_event(frame) is None ==> frame_processed(m, frame, now).0 == m && frame_processed(
            m,
            frame,
            now,
        ).1.ban is None && frame_processed(m, frame, now).1.ddos is None,
        frame_event(frame) matches Some((ip, port, kind)) ==> frame_processed(m, frame, now)
            == event_recorded(m, ip, port, kind, now),
        m.packets_captured < u64::MAX ==> frame_counted(m).packets_captured == m.packets_captured
            + 1,
        frame_counted(m).counters == m.counters && frame_counted(m).attackers == m.attackers
            && frame_counted(m).bans_issued == m.bans_issued,
{
}

/// A source is banned while a ban without end is on record of it, and until the end of any
/// other; one that is not on record is not.
pub proof fn law_who_is_banned(m: DdosModel, ip: Seq<char>, now: u64)
    ensures
        m.counters.contains_key(ip) ==> (source_banned(source_of(m.counters, ip), now)
            <==> m.counters[ip].permanent || (m.counters[ip].banned_until is Some
            && m.counters[ip].banned_until->0 > now)),
        !m.counters.contains_key(ip) ==> !source_banned(source_of(m.counters, ip), now),
{
}

/// A cleanup forgets a source exactly if nothing was ever noted of it, or if its last frame
/// is more than thirty seconds old and it is not banned. What stays is unchanged.
pub proof fn law_cleanup_forgets_the_quiet(m: DdosModel, ip: Seq<char>, now: u64)
    ensures
        ({
            let c = m.counters[ip];
            let after = ddos_tidied(m, now);
            let in_ban = c.permanent || (c.banned_until is Some && c.banned_until->0 > now);
            &&& !m.counters.contains_key(ip) || c.total.len() == 0 ==> !after.counters.contains_key(
                ip,
            )
            &&& m.counters.contains_key(ip) && c.total.len() > 0 ==> (after.counters.contains_key(
                ip,
            ) <==> c.total.last() + 30_000_000_000 >= now || in_ban)
            &&& after.counters.contains_key(ip) ==> after.counters[ip] == c
            &&& after.attackers == purged(m.attackers, now)
            &&& after.thresholds == m.thresholds && after.whitelist == m.whitelist
                && after.bans_issued == m.bans_issued && after.ddos_detected == m.ddos_detected
        }),
{
}

/// A new protector knows nobody and has counted nothing. Its limits are 100 SYN frames, 150
/// UDP frames, 200 pings, 500 web frames and 40 SSH connections, ten sources, 600 seconds
/// and five bans.
pub proof fn law_new_protector(real_ban: bool, learning_mode: bool, ip: Seq<char>)
    ensures
        ({
            let m = fresh_protector(real_ban, learning_mode);
            let t = m.thresholds;
            &&& !m.counters.contains_key(ip) && !m.whitelist.contains(ip)
            &&& forall|port: u16| !(#[trigger] m.attackers.contains_key(port))
            &&& m.packets_captured == 0 && m.bans_issued == 0 && m.ddos_detected == 0
                && m.syn_detected == 0 && m.udp_detected == 0 && m.icmp_detected == 0
                && m.http_detected == 0 && m.ssh_detected == 0
            &&& m.real_ban == real_ban && m.learning_mode == learning_mode
            &&& t == base_thresholds()
            &&& t.syn == 100 && t.udp == 150 && t.icmp == 200 && t.http == 500 && t.ssh == 40
                && t.ddos_sources == 10 && t.ban_duration == 600 && t.permanent_after == 5
        }),
{
}

/// The flood detector hears of a SYN frame as a connection to its port, of a UDP frame on
/// its port, of a ping without a port, and of a web frame on port 80.
pub proof fn law_what_the_flood_detector_hears(port: u16)
    ensures
        told_as(port, PacketKind::Syn) == (port, crate::antiflood::PacketKind::Tcp),
        told_as(port, PacketKind::Udp) == (port, crate::antiflood::PacketKind::Udp),
        told_as(port, PacketKind::Icmp) == (0u16, crate::antiflood::PacketKind::Icmp),
        told_as(port, PacketKind::Http) == (80u16, crate::antiflood::PacketKind::Http),
{
}

/// A notice of a ban names the source with its protocol, the port and how many frames there
/// were, and says whether the ban ends.
pub proof fn law_source_ban_notices(ip: Seq<char>, port: u16, count: nat)
    ensures
        ({
            let kind = if ip.contains(':') {
                "IPv6"@
            } else {
                "IPv4"@
            };
            let start = "[DDoS] 🚨 "@ + ip + " ["@ + kind + "] порт "@ + dec(port as nat) + ": "@
                + dec(count) + " событий → "@;
            &&& source_ban_notice(ip, port, count, true) == start + "ПЕРМАНЕНТНЫЙ БАН"@
            &&& source_ban_notice(ip, port, count, false) == start + "БАН на 10 мин"@
        }),
{
}

/// The reason of a ban is the name of the attack, with the port where it is one on a port.
pub proof fn law_source_ban_reasons(port: u16)
    ensures
        flood_reason(FloodType::SynFlood, port) == "SYN-FLOOD порт "@ + dec(port as nat),
        flood_reason(FloodType::UdpFlood, port) == "UDP-FLOOD порт "@ + dec(port as nat),
        flood_reason(FloodType::HttpFlood, port) == "HTTP-FLOOD"@,
        flood_reason(FloodType::SshBrute, port) == "SSH-BRUTE"@,
{
}

/// The reason of a ban for pings has no port.
pub proof fn law_ping_ban_reason(port: u16)
    ensures
        flood_reason(FloodType::IcmpFlood, port) == "ICMP-FLOOD"@,
{
}

/// The report shows each count in a line of its own, and whether the protector learns.
pub proof fn law_report_counts(m: DdosModel)
    ensures
        ({
            let r = ddos_report(m);
            &&& r.len() == 10
            &&& r[1] == "     Пакетов захвачено: "@ + number_text(m.packets_captured)
            &&& r[2] == "     SYN flood: "@ + number_text(m.syn_detected)
            &&& r[3] == "     UDP flood: "@ + number_text(m.udp_detected)
            &&& r[4] == "     ICMP flood: "@ + number_text(m.icmp_detected)
            &&& r[5] == "     HTTP flood: "@ + number_text(m.http_detected)
            &&& r[6] == "     SSH brute: "@ + number_text(m.ssh_detected)
            &&& r[7] == "     DDoS обнаружено: "@ + number_text(m.ddos_detected)
            &&& r[8] == "     Баннов выдано: "@ + number_text(m.bans_issued)
            &&& m.learning_mode ==> r[9] == "     Режим: "@ + "ОБУЧЕНИЕ"@
            &&& !m.learning_mode ==> r[9] == "     Режим: "@ + "АКТИВНЫЙ"@
        }),
{
}

} // verus!
