use arlian_perimeter::antiflood::{
    ban_message, ddos_message, grace_message, AdaptiveScale, AntiFlood, FloodEvent, FloodType,
    PacketKind, PerIpCounter, RegisterOutcome, NEUTRAL_MULTIPLIER,
};
use arlian_perimeter::bans::{
    forget_ban, has_run_out, is_expired, persist_ban, read_bans, BanRecord,
};
use arlian_perimeter::clock::WallClock;

const SEC: u64 = 1_000_000_000;

fn scale() -> AdaptiveScale {
    AdaptiveScale {
        multiplier: NEUTRAL_MULTIPLIER,
        ssh: 40,
        http: 500,
        udp: 150,
        icmp: 200,
        port: 80,
        ip: 200,
        grace: 140,
    }
}

fn noon() -> WallClock {
    WallClock { secs: 1_786_034_452, nanos: 0, offset: 0 }
}

fn detector(real_ban: bool, learning: bool) -> AntiFlood {
    AntiFlood::new(real_ban, learning, Vec::new(), &noon(), 0)
}

fn flood_ssh(a: &mut AntiFlood, ip: &str, now: u64) -> RegisterOutcome {
    let s = scale();
    for _ in 0..40 {
        assert!(!a.register_tcp(ip, 22, now, &s).flagged());
    }
    a.register_tcp(ip, 22, now, &s)
}

#[test]
fn labels() {
    assert_eq!(FloodType::PortFlood.label(), "PORT-FLOOD");
    assert_eq!(FloodType::IpFlood.label(), "IP-FLOOD");
    assert_eq!(FloodType::SynScan.label(), "SYN-SCAN");
    assert_eq!(FloodType::UdpFlood.label(), "UDP-FLOOD");
    assert_eq!(FloodType::IcmpFlood.label(), "ICMP-FLOOD");
    assert_eq!(FloodType::HttpFlood.label(), "HTTP-FLOOD");
    assert_eq!(FloodType::SshBrute.label(), "SSH-BRUTE");
    assert_eq!(FloodType::DdosFlood.label(), "DDOS-FLOOD");
    assert_eq!(FloodType::NoFlood.label(), "NONE");
}

#[test]
fn ssh_flood_is_banned_at_the_forty_first_event() {
    let mut a = detector(true, false);
    let out = flood_ssh(&mut a, "1.2.3.4", 5 * SEC);
    let ban = out.ban.unwrap();
    assert_eq!(ban.event.flood_type, FloodType::SshBrute);
    assert_eq!(ban.event.port, 22);
    assert_eq!(ban.event.count, 41);
    assert_eq!(ban.event.ip_type, "IPv4");
    assert_eq!(ban.event.timestamp, 5 * SEC);
    assert!(!ban.event.permanent);
    assert!(ban.firewall);
    assert_eq!(ban.reason, "SSH-BRUTE");
    assert_eq!(a.bans_issued, 1);
    assert_eq!(a.events_logged, 1);
    assert_eq!(a.permanent_bans, 0);
    assert_eq!(a.get_banned_ips(6 * SEC), ["1.2.3.4"]);
}

#[test]
fn old_events_do_not_count() {
    let mut a = detector(false, false);
    let s = scale();
    for i in 0..200u64 {
        let out = a.register_tcp("1.2.3.4", 22, i * SEC / 2, &s);
        assert!(!out.flagged());
    }
}

#[test]
fn kinds_of_floods() {
    let s = scale();
    let mut a = detector(false, false);
    let mut last = None;
    for _ in 0..501 {
        last = a.register_http("5.5.5.1", SEC, &AdaptiveScale { ip: 1000, ..s }).ban;
    }
    let ban = last.unwrap();
    assert_eq!((ban.event.flood_type, ban.event.port), (FloodType::HttpFlood, 443));
    assert_eq!(ban.reason, "HTTP-FLOOD");
    let mut last = None;
    for _ in 0..151 {
        last = a.register_udp("5.5.5.2", 53, SEC, &s).ban;
    }
    let ban = last.unwrap();
    assert_eq!(ban.reason, "UDP-FLOOD порт 53");
    assert_eq!((ban.event.flood_type, ban.event.count), (FloodType::UdpFlood, 151));
    let mut last = None;
    for _ in 0..201 {
        last = a.register_icmp("5.5.5.3", SEC, &s).ban;
    }
    assert_eq!(last.unwrap().event.flood_type, FloodType::IcmpFlood);
    let mut last = None;
    for _ in 0..81 {
        last = a.register_tcp("5.5.5.4", 445, SEC, &s).ban;
    }
    assert_eq!(last.unwrap().reason, "PORT-FLOOD порт 445");
    let mut last = None;
    for _ in 0..201 {
        last = a.register_tcp("5.5.5.5", 9999, SEC, &s).ban;
    }
    let ban = last.unwrap();
    assert_eq!(ban.reason, "IP-FLOOD");
    assert_eq!((ban.event.port, ban.event.count), (0, 201));
    assert!(!ban.firewall);
    assert_eq!(a.bans_issued, 5);
}

#[test]
fn a_low_threshold_still_takes_five_events() {
    let mut a = detector(false, false);
    let s = AdaptiveScale { ip: 0, ..scale() };
    for _ in 0..4 {
        assert!(!a.register_tcp("1.2.3.4", 9999, SEC, &s).flagged());
    }
    assert!(a.register_tcp("1.2.3.4", 9999, SEC, &s).flagged());
}

#[test]
fn exempt_addresses_are_never_counted() {
    let mut a = detector(true, false);
    a.set_whitelist(&vec!["1.2.3.4".to_string()]);
    let s = AdaptiveScale { ip: 0, grace: 0, ..scale() };
    for ip in ["1.2.3.4", "192.168.1.7", "::1", "rubbish"] {
        for _ in 0..10 {
            let out = a.register_tcp(ip, 22, SEC, &s);
            assert!(out.grace.is_none() && out.ban.is_none() && out.ddos.is_none());
        }
        assert!(a.adaptive_input(ip, SEC).is_none());
    }
    assert_eq!(a.get_banned_ips(SEC).len(), 0);
}

#[test]
fn a_ban_lasts_ten_minutes() {
    let mut a = detector(false, false);
    assert!(flood_ssh(&mut a, "1.2.3.4", SEC).flagged());
    let s = scale();
    let end = 601 * SEC;
    assert_eq!(a.get_banned_ips(end - 1).len(), 1);
    let out = a.register_tcp("1.2.3.4", 22, end - 1, &s);
    assert!(!out.flagged() && out.ddos.is_none());
    assert_eq!(a.get_banned_ips(end).len(), 0);
}

#[test]
fn the_fifth_ban_is_permanent() {
    let mut a = detector(false, false);
    let mut now = SEC;
    for _ in 0..4 {
        let ban = flood_ssh(&mut a, "1.2.3.4", now).ban.unwrap();
        assert!(!ban.event.permanent);
        now += 600 * SEC;
    }
    let ban = flood_ssh(&mut a, "1.2.3.4", now).ban.unwrap();
    assert!(ban.event.permanent);
    assert_eq!(a.permanent_bans, 1);
    assert_eq!(a.get_banned_ips(u64::MAX), ["1.2.3.4"]);
}

#[test]
fn unban_undoes_a_ban() {
    let mut a = detector(false, false);
    assert!(flood_ssh(&mut a, "1.2.3.4", SEC).flagged());
    assert!(a.unban("1.2.3.4"));
    assert_eq!(a.get_banned_ips(SEC).len(), 0);
    assert!(!a.unban("9.9.9.9"));
    assert!(!flood_ssh(&mut a, "1.2.3.4", 100 * SEC).ban.unwrap().event.permanent);
}

#[test]
fn vpn_addresses_are_banned_for_good_at_once() {
    let mut a = detector(false, false);
    let ban = flood_ssh(&mut a, "8.8.8.8", SEC).ban.unwrap();
    assert!(ban.event.permanent);
    assert_eq!(ban.reason, "SSH-BRUTE (VPN/прокси)");
    assert_eq!(a.permanent_bans, 1);
    assert_eq!(a.get_banned_ips(601 * SEC), ["8.8.8.8"]);
    assert_eq!(a.get_banned_ips(u64::MAX), ["8.8.8.8"]);
    assert!(a.is_banned_ip("8.8.8.8", u64::MAX));
    assert!(a.unban("8.8.8.8"));
    assert!(!a.is_banned_ip("8.8.8.8", 2 * SEC));
    let mut b = detector(false, false);
    b.fake_ip_guard = false;
    let ban = flood_ssh(&mut b, "8.8.8.8", SEC).ban.unwrap();
    assert!(!ban.event.permanent);
    assert_eq!(ban.reason, "SSH-BRUTE");
    assert!(b.get_banned_ips(601 * SEC).is_empty());
}

#[test]
fn a_ban_covers_the_subnet() {
    let mut a = detector(true, false);
    a.fake_ip_guard = false;
    a.set_whitelist(&vec!["2001:db8:1:2::9".to_string()]);
    let ban = flood_ssh(&mut a, "2001:db8:1:2::1", SEC).ban.unwrap();
    assert_eq!(ban.target, "2001:db8:1:2::/64");
    assert_eq!(ban.event.ip, "2001:db8:1:2::1");
    assert!(a.is_banned_ip("2001:db8:1:2:3:4:5:6", 2 * SEC));
    assert!(a.is_banned_ip("2001:DB8:1:2::1", 2 * SEC));
    assert!(!a.is_banned_ip("2001:db8:1:3::1", 2 * SEC));
    assert!(a.adaptive_input("2001:db8:1:2::5", 2 * SEC).is_none());
    let s = scale();
    let out = a.register_tcp("2001:db8:1:2::5", 22, 2 * SEC, &s);
    assert!(!out.flagged() && a.multipliers().len() == 1);
    a.register_tcp("2001:db8:1:3::5", 22, 2 * SEC, &s);
    assert_eq!(a.multipliers().len(), 2);
    assert!(!a.is_banned_ip("2001:db8:1:2::5", 601 * SEC));
    a.register_tcp("2001:db8:1:2::5", 22, 601 * SEC, &s);
    assert!(flood_ssh(&mut a, "2001:db8:1:2::1", 602 * SEC).flagged());
    assert!(!a.unban("2001:db8:1:2::7"));
    assert!(a.unban("2001:db8:1:2::5"));
    assert!(!a.is_banned_ip("2001:db8:1:2::1", 603 * SEC));
    assert_eq!(flood_ssh(&mut a, "1.2.3.4", SEC).ban.unwrap().target, "1.2.3.4");
}

#[test]
fn ipv6_addresses_are_suspect() {
    let mut a = detector(false, false);
    assert!(flood_ssh(&mut a, "2001:db8::1", SEC).ban.unwrap().event.permanent);
    assert!(a.is_banned_ip("2001:db8::2", u64::MAX));
}

#[test]
fn a_counter_can_be_banned_again() {
    let mut c = PerIpCounter::new();
    for _ in 0..4 {
        assert!(!c.ban(SEC));
    }
    assert!(c.ban(SEC) && c.ban(SEC));
    assert!(c.is_banned(u64::MAX));
    let mut c = PerIpCounter::new();
    c.restore_ban(true, 0, SEC);
    assert!(!c.ban(SEC));
    assert!(c.is_banned(u64::MAX));
}

#[test]
fn a_warning_comes_once_until_traffic_drops() {
    let mut a = detector(false, false);
    let s = AdaptiveScale { grace: 4, ..scale() };
    for _ in 0..3 {
        assert_eq!(a.register_tcp("1.2.3.4", 9999, SEC, &s).grace, None);
    }
    assert_eq!(a.register_tcp("1.2.3.4", 9999, SEC, &s).grace, Some(4));
    assert_eq!(a.register_tcp("1.2.3.4", 9999, SEC, &s).grace, None);
    assert_eq!(a.grace_warnings, 1);
    assert_eq!(a.register_tcp("1.2.3.4", 9999, 100 * SEC, &s).grace, None);
    for _ in 0..2 {
        assert_eq!(a.register_tcp("1.2.3.4", 9999, 100 * SEC, &s).grace, None);
    }
    assert_eq!(a.register_tcp("1.2.3.4", 9999, 100 * SEC, &s).grace, Some(4));
    assert_eq!(a.grace_warnings, 2);
}

#[test]
fn no_ban_comes_unwarned() {
    let mut a = detector(false, false);
    let s = AdaptiveScale { ssh: 20, port: 40, ip: 100, grace: 70, ..scale() };
    for _ in 0..20 {
        assert_eq!(a.register_tcp("1.2.3.4", 22, SEC, &s).grace, None);
    }
    let out = a.register_tcp("1.2.3.4", 22, SEC, &s);
    assert!(out.flagged());
    assert_eq!(out.grace, Some(21));
    assert_eq!(a.counts().grace_warnings, 1);
    let s = AdaptiveScale { ssh: 20, grace: 5, ..scale() };
    for i in 0..21 {
        let out = a.register_tcp("1.2.3.5", 22, SEC, &s);
        assert_eq!(out.grace.is_some(), i == 4);
        assert_eq!(out.flagged(), i == 20);
    }
    let c = a.counts();
    assert_eq!((c.grace_warnings, c.bans_issued, c.events_logged), (2, 2, 2));
    assert_eq!((c.permanent_bans, c.ddos_detected), (0, 0));
}

#[test]
fn many_sources_on_one_port() {
    let mut a = detector(false, false);
    let s = scale();
    for i in 0..9 {
        let out = a.register_tcp(&format!("1.2.3.{}", i), 443, SEC, &s);
        assert_eq!(out.ddos, None);
    }
    let out = a.register_tcp("1.2.3.9", 443, SEC, &s);
    assert_eq!(out.ddos, Some(10));
    assert_eq!(a.ddos_detected, 1);
    let out = a.register_tcp("1.2.3.10", 443, 20 * SEC, &s);
    assert_eq!(out.ddos, None);
    let out = a.register_tcp("1.2.3.11", 9999, SEC, &s);
    assert_eq!(out.ddos, None);
}

#[test]
fn adaptive_input_counts_the_coming_event() {
    let mut a = detector(false, false);
    let first = a.adaptive_input("1.2.3.4", SEC).unwrap();
    assert_eq!((first.sum, first.samples, first.multiplier), (1, 1, NEUTRAL_MULTIPLIER));
    let s = AdaptiveScale { multiplier: 7, ..scale() };
    for i in 0..30u128 {
        let input = a.adaptive_input("1.2.3.4", SEC).unwrap();
        let n = i + 1;
        let from = if n > 20 { n - 20 } else { 0 };
        assert_eq!(input.sum, (from + 1..=n).sum::<u128>());
        assert_eq!(input.samples as u128, n - from);
        a.register_tcp("1.2.3.4", 9999, SEC, &s);
    }
    assert_eq!(a.adaptive_input("1.2.3.4", SEC).unwrap().multiplier, 7);
    assert_eq!(a.multipliers(), [7]);
}

#[test]
fn cleanup_forgets_quiet_addresses() {
    let mut a = detector(false, false);
    let s = scale();
    a.register_tcp("1.2.3.4", 443, SEC, &s);
    assert!(flood_ssh(&mut a, "5.6.7.8", SEC).flagged());
    a.periodic_cleanup(31 * SEC);
    assert_eq!(a.multipliers().len(), 2);
    a.periodic_cleanup(31 * SEC + 1);
    assert_eq!(a.multipliers().len(), 1);
    assert_eq!(a.get_banned_ips(32 * SEC), ["5.6.7.8"]);
    assert!(!a.unban("1.2.3.4"));
    a.periodic_cleanup(700 * SEC);
    assert_eq!(a.multipliers().len(), 0);
}

#[test]
fn status_lines() {
    let mut a = detector(false, false);
    flood_ssh(&mut a, "1.2.3.4", SEC);
    let lines = a.print_status(SEC, "1.00");
    assert_eq!(
        lines,
        [
            "   Anti-Flood v3.0:",
            "     Наблюдаемых IP: 1",
            "     Забаненных: 1",
            "     Баннов выдано: 1",
            "     Перманентных: 0",
            "     Грейс-предупреждений: 1",
            "     DDoS обнаружено: 0",
            "     Защита от VPN/фейк IP: ВКЛ",
            "     Событий зафиксировано: 1",
            "     Средний адаптивный множитель: 1.00",
            "     Файл банов: ArlianAI/models/antiflood_bans.json",
        ]
    );
}

fn event(permanent: bool) -> FloodEvent {
    FloodEvent {
        ip: "1.2.3.4".to_string(),
        ip_type: "IPv4".to_string(),
        flood_type: FloodType::UdpFlood,
        port: 53,
        count: 151,
        timestamp: 0,
        permanent,
        grace: false,
    }
}

#[test]
fn messages() {
    assert_eq!(
        ban_message(&event(false)),
        "[ANTI-FLOOD] 1.2.3.4 [IPv4] UDP-FLOOD порт 53: 151 событий → ЗАБАНЕН на 10 мин"
    );
    assert!(ban_message(&event(true)).ends_with("→ ПЕРМАНЕНТНЫЙ БАН"));
    assert_eq!(
        grace_message("1.2.3.4", 140),
        "[ANTI-FLOOD] ⚠️ ГРЕЙС-ПЕРИОД: 1.2.3.4 приближается к порогу флуда (140 событий)"
    );
    assert_eq!(
        ddos_message(443, 12),
        "[ANTI-FLOOD] 🚨 DDoS ОБНАРУЖЕН: порт 443 атакуют 12 источников"
    );
}

fn record(ip: &str, permanent: bool, expires_at: &str) -> BanRecord {
    BanRecord {
        ip: ip.to_string(),
        ip_type: "IPv4".to_string(),
        reason: "SSH-BRUTE".to_string(),
        banned_at: "2026-08-06 16:30:00".to_string(),
        expires_at: expires_at.to_string(),
        permanent,
        ban_events: 3,
    }
}

#[test]
fn saved_bans_expire() {
    assert!(is_expired(&record("a", false, "2026-08-06 16:40:51"), &noon()));
    assert!(!is_expired(&record("a", false, "2026-08-06 16:40:52"), &noon()));
    assert!(!is_expired(&record("a", false, "never"), &noon()));
    assert!(is_expired(&record("a", false, "soon"), &noon()));
    assert!(!is_expired(&record("a", true, "soon"), &noon()));
    assert!(has_run_out(false, "x", Some((9, 0)), (9, 1)));
    assert!(!has_run_out(false, "x", Some((9, 1)), (9, 1)));
    assert!(has_run_out(false, "x", None, (9, 1)));
    assert!(!has_run_out(false, "never", None, (9, 1)));
}

#[test]
fn saved_bans_are_taken_up() {
    let saved = vec![
        record("1.1.1.9", false, "2026-08-06 17:00:00"),
        record("2.2.2.2", false, "2026-08-06 16:00:00"),
        record("3.3.3.3", true, "never"),
    ];
    let mut a = AntiFlood::new(false, false, saved, &noon(), SEC);
    let mut banned = a.get_banned_ips(2 * SEC);
    banned.sort();
    assert_eq!(banned, ["1.1.1.9", "3.3.3.3"]);
    assert_eq!(a.get_banned_ips(601 * SEC), ["3.3.3.3"]);
    assert!(!flood_ssh(&mut a, "1.1.1.9", 601 * SEC).ban.unwrap().event.permanent);
    assert!(flood_ssh(&mut a, "1.1.1.9", 1201 * SEC).ban.unwrap().event.permanent);
    let more = vec![record("4.4.4.4", false, "never"), record("4.4.4.4", true, "never")];
    assert_eq!(a.load_bans(more, &noon(), SEC), 1);
}

#[test]
fn a_saved_ban_reads_back() {
    let list = persist_ban(
        vec![record("1.2.3.4", true, "never"), record("9.9.9.9", false, "never")],
        &event(false),
        Some("UDP-FLOOD порт 53".to_string()),
        151,
        &noon(),
        3600,
    );
    assert_eq!(list.len(), 2);
    let table = read_bans(list);
    let r = table.get(&"1.2.3.4".to_string()).unwrap();
    assert_eq!(r.reason, "UDP-FLOOD порт 53");
    assert_eq!(r.banned_at, "2026-08-06 16:40:52");
    assert_eq!(r.expires_at, "2026-08-06 17:50:52");
    assert_eq!(r.ban_events, 151);
    let still = WallClock { secs: 1_786_034_452 + 600, nanos: 0, offset: 3600 };
    assert!(!is_expired(r, &still));
    let over = WallClock { secs: 1_786_034_452 + 601, nanos: 0, offset: 3600 };
    assert!(is_expired(r, &over));
    let list = persist_ban(Vec::new(), &event(true), None, 4_294_967_297, &noon(), 0);
    assert_eq!(list[0].expires_at, "never");
    assert_eq!(list[0].reason, "UDP-FLOOD");
    assert_eq!(list[0].ban_events, 1);
}

#[test]
fn a_saved_ban_can_be_forgotten() {
    let saved = vec![
        record("1.2.3.4", true, "never"),
        record("9.9.9.9", false, "never"),
        record("1.2.3.4", false, "never"),
    ];
    let list = forget_ban(saved, "1.2.3.4");
    assert_eq!(list.len(), 1);
    assert_eq!(list[0].ip, "9.9.9.9");
    assert_eq!(forget_ban(list, "7.7.7.7").len(), 1);
    let saved = vec![
        record("fe80:0:0:1::1", true, "never"),
        record("fe80:0:0:2::1", true, "never"),
        record("fe80:0:0:1::2", true, "never"),
    ];
    let list = forget_ban(saved, "fe80:0:0:1::3");
    assert_eq!(list.len(), 1);
    assert_eq!(list[0].ip, "fe80:0:0:2::1");
}

#[test]
fn addresses_are_apart() {
    let mut a = detector(false, false);
    flood_ssh(&mut a, "1.2.3.4", SEC);
    let out = a.register("1.2.3.5", 22, PacketKind::Tcp, SEC, &scale());
    assert!(!out.flagged());
    assert_eq!(a.adaptive_input("1.2.3.5", SEC).unwrap().sum, 3);
}
