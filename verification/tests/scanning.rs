use arlian_perimeter::antiflood::AntiFlood;
use arlian_perimeter::arp::{
    get_mac_from_ip, mac_in_reply, neighbour_command, neighbour_file, MacStep,
};
use arlian_perimeter::ban_manager::BanManager;
use arlian_perimeter::clock::WallClock;
use arlian_perimeter::config::Whitelist;
use arlian_perimeter::ddos::DdosProtector;
use arlian_perimeter::detector::{AIDetector, Anomaly};
use arlian_perimeter::firewall::{ban_commands, packet_filter_rule};
use arlian_perimeter::kayoli::KayoliTrainer;
use arlian_perimeter::metrics::Metrics;
use arlian_perimeter::network::parse_cidr;
use arlian_perimeter::rate_limiter::RateLimiter;
use arlian_perimeter::scan::{
    analysis_lines, arp_ping, finish_scan, plan_scan, scan_address, scan_ports, smart_scan_host,
    top_anomalies, BanStep, ScanSession,
};
use arlian_perimeter::store::{log_ban_to_db, save_hacker_profile};

const SEC: u64 = 1_000_000_000;
const DAY: u64 = 86_400 * SEC;

fn clock() -> WallClock {
    WallClock { secs: 1_786_034_452, nanos: 0, offset: 0 }
}

fn detector() -> AIDetector {
    AIDetector::new(KayoliTrainer::new("", "", ""), Vec::new(), Vec::new())
}

#[test]
fn scans_are_apart() {
    let mut l = RateLimiter::new(5000);
    assert!(l.can_count() && l.can_count_many(10));
    assert!(l.allow_scan("1.2.3.4", 0));
    assert!(!l.allow_scan("1.2.3.4", 5 * SEC - 1));
    assert!(l.allow_scan("1.2.3.4", 5 * SEC));
    assert!(l.allow_scan("1.2.3.5", 5 * SEC));
    assert!(l.allow_scan("fe80::1", 5 * SEC));
    assert!(!l.allow_scan("FE80::1", 5 * SEC));
    assert!(l.allow_scan("host", 5 * SEC));
    assert!(!l.allow_scan("host", 6 * SEC));
    assert_eq!(
        l.print_stats(),
        [
            "   Rate Limiter:",
            "     Total/Всего: 8, Allowed/Разрешено: 9, Blocked/Блокировано: 3",
            "     IPv4: 3, IPv6: 1",
            "     Cache/Кэш: 4",
        ]
    );
}

#[test]
fn old_scans_are_forgotten() {
    let mut l = RateLimiter::new(u64::MAX);
    assert!(l.allow_scan("1.2.3.4", 0));
    l.cleanup(7 * DAY - 1);
    assert!(!l.allow_scan("1.2.3.4", 7 * DAY));
    l.cleanup(7 * DAY);
    assert!(l.allow_scan("1.2.3.4", 7 * DAY));
}

#[test]
fn the_newest_names_are_kept() {
    let mut l = RateLimiter::new(u64::MAX);
    for i in 0..10_005u64 {
        assert!(l.allow_scan(&format!("host{}", i), i));
    }
    l.cleanup(20_000);
    for i in 0..10_005u64 {
        let kept = i >= 5;
        assert_eq!(l.allow_scan(&format!("host{}", i), 20_000), !kept);
    }
}

#[test]
fn targets_of_a_scan() {
    let ips = parse_cidr("10.0.0.0/30", 10).unwrap();
    let mut l = RateLimiter::new(1000);
    assert_eq!(plan_scan(&ips, "ipv6", &mut l, 0).len(), 0);
    assert_eq!(plan_scan(&ips, "both", &mut l, 0), ["10.0.0.1", "10.0.0.2"]);
    assert_eq!(plan_scan(&ips, "both", &mut l, SEC - 1).len(), 0);
    assert_eq!(plan_scan(&ips, "ipv4", &mut l, SEC), ["10.0.0.1", "10.0.0.2"]);
    let six = parse_cidr("fd00::/127", 10).unwrap();
    assert_eq!(plan_scan(&six, "ipv4", &mut l, 0).len(), 0);
    assert_eq!(plan_scan(&six, "ipv6", &mut l, 0), ["fd00::", "fd00::1"]);
}

#[test]
fn asking_a_host() {
    assert_eq!(scan_ports(), [80, 443, 22, 445, 3389, 5900]);
    assert_eq!(scan_address("1.2.3.4", 80), "1.2.3.4:80");
    assert_eq!(scan_address("fe80::1", 80), "[fe80::1]:80");
    assert_eq!(arp_ping("1.2.3.4"), ["ping", "-c", "1", "-W", "1", "1.2.3.4"]);
    assert_eq!(arp_ping("::1")[0], "ping6");
    assert_eq!(smart_scan_host(true, vec![80]), (true, vec![80]));
    assert_eq!(smart_scan_host(true, vec![]), (false, vec![]));
    assert_eq!(smart_scan_host(false, vec![80]), (false, vec![]));
}

#[test]
fn hosts_of_a_scan() {
    let mut ai = detector();
    let mut metrics = Metrics::new();
    let mut session = ScanSession::new(&Whitelist::default(), false, &clock());
    assert_eq!(session.hour(), 16);
    let none = None;
    let h = session.host_found("192.168.1.1", &vec![80], &none, &mut ai, &mut metrics, &clock());
    assert!(h.own && h.flood_port.is_none() && h.behavior.is_none());
    let mac = Some("aa:bb:cc:dd:ee:ff".to_string());
    let h = session.host_found("10.9.8.7", &vec![80], &mac, &mut ai, &mut metrics, &clock());
    assert!(h.own);
    let other = Some("11:22:33:44:55:66".to_string());
    let ports = vec![22, 3389, 80];
    let h = session.host_found("fe80::9", &ports, &other, &mut ai, &mut metrics, &clock());
    assert!(!h.own);
    assert_eq!(h.flood_port, Some(3389));
    for _ in 0..4 {
        let h = session.host_found("fe80::9", &vec![], &other, &mut ai, &mut metrics, &clock());
        if let Some(input) = h.behavior {
            assert_eq!(input.samples, 5);
        }
        assert_eq!(h.flood_port, None);
    }
    assert_eq!((metrics.ipv4_scans, metrics.ipv6_scans), (2, 5));
    let s = ai.saved_samples();
    assert_eq!((s[0].hour, s[0].day_of_week), (16, 3));
    let p = session.stranger_found("fe80::9", ports, None, other, &mut ai, &mut metrics, &clock());
    assert_eq!(p.risk_score, 20);
    assert_eq!(metrics.total_rogue, 1);
    assert_eq!(session.counts(), (7, 1));
}

#[test]
fn strangers_are_met() {
    let mut ai = detector();
    let mut metrics = Metrics::new();
    let mut ban = BanManager::new(true, &Vec::new());
    let mut session = ScanSession::new(&Whitelist::default(), false, &clock());
    let anomaly = Some(Anomaly { points: 40, remarks: vec!["odd".to_string()] });
    let mac = Some("11:22:33:44:55:66".to_string());
    let met = session.stranger_met(
        "1.2.3.4",
        vec![22],
        anomaly,
        mac,
        &mut ai,
        &mut ban,
        &mut metrics,
        &clock(),
    );
    assert!(met.high_risk);
    assert_eq!((met.profile.risk_score, met.row.risk_score), (60, 60));
    assert!(matches!(met.ban, BanStep::Banned(_)));
    let row = met.ban_row.unwrap();
    assert_eq!((row.reason.as_str(), row.mac.as_str()), ("rogue_device", "11:22:33:44:55:66"));
    assert_eq!(ai.saved_intel().len(), 1);
    let met = session.stranger_met(
        "1.2.3.4",
        vec![80],
        None,
        None,
        &mut ai,
        &mut ban,
        &mut metrics,
        &clock(),
    );
    assert!(!met.high_risk && met.ban_row.is_none());
    assert!(matches!(met.ban, BanStep::Already));
    assert_eq!((metrics.total_rogue, metrics.total_bans), (2, 1));
    assert_eq!(session.counts(), (0, 2));
}

#[test]
fn strangers_are_banned_once() {
    let mut metrics = Metrics::new();
    let mut ban = BanManager::new(true, &vec!["9.9.9.9".to_string()]);
    let learning = ScanSession::new(&Whitelist::default(), true, &clock());
    assert!(matches!(learning.ban_stranger("1.2.3.4", &mut ban, &mut metrics), BanStep::Learning));
    let session = ScanSession::new(&Whitelist::default(), false, &clock());
    assert!(matches!(session.ban_stranger("9.9.9.9", &mut ban, &mut metrics), BanStep::Already));
    if let BanStep::Banned(commands) = session.ban_stranger("1.2.3.4", &mut ban, &mut metrics) {
        assert_eq!(commands.len(), 2);
    } else {
        panic!();
    }
    assert!(matches!(session.ban_stranger("1.2.3.4", &mut ban, &mut metrics), BanStep::Already));
    assert_eq!(metrics.total_bans, 1);
    let mut quiet = BanManager::new(false, &Vec::new());
    let (banned, commands) = quiet.try_ban("1.2.3.4", &mut metrics);
    assert!(banned && commands.is_empty());
    assert_eq!(metrics.total_bans, 2);
}

#[test]
fn firewall_commands() {
    let c = ban_commands("1.2.3.4", true);
    assert_eq!(c[0], ["iptables", "-A", "INPUT", "-s", "1.2.3.4", "-j", "DROP"]);
    assert_eq!(c[1], ["iptables", "-A", "FORWARD", "-s", "1.2.3.4", "-j", "DROP"]);
    assert_eq!(c[2], ["iptables", "-I", "INPUT", "1", "-s", "1.2.3.4", "-j", "DROP"]);
    let c = ban_commands("fe80::1", false);
    assert_eq!(c.len(), 2);
    assert_eq!(c[0][0], "ip6tables");
    let rule = packet_filter_rule("1.2.3.4");
    assert_eq!(rule, "block in quick from 1.2.3.4 to any\n");
}

#[test]
fn session_metrics() {
    let mut m = Metrics { total_scans: u64::MAX, ..Metrics::new() };
    m.inc_scans();
    assert_eq!(m.total_scans, 0);
    m.inc_scans();
    m.inc_rogue();
    m.inc_bans();
    m.inc_ipv4();
    m.inc_ipv6();
    assert_eq!(
        m.print(),
        [
            "SESSION STATS / СТАТИСТИКА СЕССИИ:",
            "   Scans/Сканирований:  1 (IPv4: 1, IPv6: 1)",
            "   Rogue found/Чужих найдено: 1",
            "   Banned IP/Забанено IP:   1",
        ]
    );
}

#[test]
fn end_of_a_scan() {
    let mut ai = detector();
    let mut l = RateLimiter::new(1000);
    let mut a = AntiFlood::new(false, false, Vec::new(), &clock(), 0);
    let mut d = DdosProtector::new(false, false);
    ai.collect_sample("1.2.3.4", 1, 1, vec![], &clock());
    finish_scan(&mut ai, &mut l, &mut a, &mut d, &clock(), SEC);
    assert_eq!(ai.learning_curve().len(), 1);
    assert_eq!(ai.learning_curve()[0].total_samples, 1);
}

fn device(ip: &str, anomalous: bool, risk: u8) -> (String, bool, u8) {
    (ip.to_string(), anomalous, risk)
}

#[test]
fn anomalies_with_the_highest_risk() {
    let devices = vec![
        device("1.1.1.1", true, 10),
        device("2.2.2.2", false, 99),
        device("fe80::1", true, 90),
        device("3.3.3.3", true, 50),
        device("4.4.4.4", true, 20),
        device("5.5.5.5", true, 30),
        device("6.6.6.6", true, 5),
    ];
    assert_eq!(
        top_anomalies(&devices),
        [
            "   fe80::1 [IPv6] риск 90%",
            "   3.3.3.3 [IPv4] риск 50%",
            "   5.5.5.5 [IPv4] риск 30%",
            "   4.4.4.4 [IPv4] риск 20%",
            "   1.1.1.1 [IPv4] риск 10%",
        ]
    );
    assert_eq!(top_anomalies(&devices[1..2].to_vec()).len(), 0);
    assert_eq!(analysis_lines(false, 7, &devices), ["[AI] Сбор данных: 7/10 образцов"]);
    let lines = analysis_lines(true, 7, &devices);
    assert_eq!((lines.len(), lines[0].as_str()), (6, "[AI] Isolation Forest результаты:"));
    assert_eq!(lines[1], "   fe80::1 [IPv6] риск 90%");
    assert_eq!(
        analysis_lines(true, 7, &devices[1..2].to_vec()),
        ["[AI] Isolation Forest результаты:", "   Аномалий не обнаружено"]
    );
}

#[test]
fn hardware_addresses_in_tables() {
    let arp = "IP address       HW type     Flags       HW address            Mask     Device\n\
               1.2.3.4          0x1         0x0         AA:BB:CC:DD:EE:00     *        eth0\n\
               1.2.3.4          0x1         0x2         AA:BB:CC:DD:EE:FF     *        eth0\n";
    assert_eq!(neighbour_file("1.2.3.4"), "/proc/net/arp");
    if let MacStep::Known(Some(mac)) = get_mac_from_ip("1.2.3.4", Some(arp.to_string())) {
        assert_eq!(mac, "aa:bb:cc:dd:ee:ff");
    } else {
        panic!();
    }
    assert!(matches!(get_mac_from_ip("1.2.3.5", Some(arp.to_string())), MacStep::Ask));
    assert!(matches!(get_mac_from_ip("1.2.3.4", None), MacStep::Ask));
    assert!(matches!(get_mac_from_ip("1.2.3", None), MacStep::Known(None)));
    let six = "header\nfe80::1 x x x 00:11:22:33:44:55\n";
    assert_eq!(neighbour_file("fe80::1"), "/proc/net/ipv6_neighbour");
    if let MacStep::Known(Some(mac)) = get_mac_from_ip("fe80::1", Some(six.to_string())) {
        assert_eq!(mac, "00:11:22:33:44:55");
    } else {
        panic!();
    }
    let first = "fe80::1 x x x 00:11:22:33:44:55\n";
    assert!(matches!(get_mac_from_ip("fe80::1", Some(first.to_string())), MacStep::Ask));
}

#[test]
fn hardware_addresses_in_replies() {
    assert_eq!(neighbour_command("1.2.3.4"), ["arp", "-n", "1.2.3.4"]);
    assert_eq!(neighbour_command("fe80::1"), ["ip", "-6", "neigh", "show"]);
    let reply = "Address HWtype\n1.2.3.4 ether AA:bb:cc:dd:ee:FF C eth0\n";
    assert_eq!(mac_in_reply("1.2.3.4", reply), Some("aa:bb:cc:dd:ee:ff".to_string()));
    assert_eq!(mac_in_reply("9.9.9.9", reply), None);
    let reply = "1.2.3.4 (incomplete)\n1.2.3.4 ether aa:bb:cc:dd:ee:ff\n";
    assert_eq!(mac_in_reply("1.2.3.4", reply), None);
    let reply = "fe80::1:2:3:4:5:6 dev eth0 lladdr AA:BB:CC:DD:EE:FF REACHABLE\n";
    assert_eq!(
        mac_in_reply("fe80::1:2:3:4:5:6", reply),
        Some("aa:bb:cc:dd:ee:ff".to_string())
    );
}

#[test]
fn database_rows() {
    let mut ai = detector();
    let anomaly = Anomaly { points: 60, remarks: vec!["a \"b\"".to_string()] };
    let p = ai.analyze_device("1.2.3.4", vec![80, 22], Some(anomaly), None, &clock());
    let row = save_hacker_profile(&p);
    assert_eq!(row.mac, "unknown");
    assert_eq!(row.scanned_ports, "[80,22]");
    assert_eq!(row.suspicious_activities, "[\"a \\\"b\\\"\",\"Опасный порт обнаружен\"]");
    assert_eq!((row.risk_score, row.warning_count, row.attack_count), (80, 1, 1));
    assert_eq!(row.status, "investigating");
    let mac = Some("aa:bb:cc:dd:ee:ff".to_string());
    let row = log_ban_to_db("fe80::1", &mac, "rogue_device", &clock());
    assert_eq!((row.ip.as_str(), row.ip_type.as_str()), ("fe80::1", "IPv6"));
    assert_eq!(row.mac, "aa:bb:cc:dd:ee:ff");
    assert_eq!(row.reason, "rogue_device");
    assert_eq!(row.banned_at, "2026-08-06 16:40:52");
}

#[test]
fn refusals_prolong_nothing() {
    let mut l = RateLimiter::new(10);
    let ips = ["1.2.3.4", "fe80::1", "FE80::1", "host", "fe80:0::1"];
    let same = |a: usize, b: usize| a == b || [1, 2, 4].contains(&a) && [1, 2, 4].contains(&b);
    let mut allowed: Vec<(usize, u64)> = Vec::new();
    for i in 0..300u64 {
        let who = (i * 7 % 5) as usize;
        let now = i * 1_300_000;
        let recent = |e: &(usize, u64)| same(e.0, who) && now - e.1 < 10_000_000;
        let refused = allowed.iter().any(recent);
        assert_eq!(l.allow_scan(ips[who], now), !refused);
        if !refused {
            allowed.push((who, now));
        }
    }
}
