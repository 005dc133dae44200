use arlian_perimeter::antiflood;
use arlian_perimeter::ddos::{
    ban_message, ddos_message, DdosCounter, DdosProtector, FloodType,
};
use arlian_perimeter::packet::{process_packet, PacketKind};

const SEC: u64 = 1_000_000_000;

fn v4_frame(protocol: u8, payload: &[u8]) -> Vec<u8> {
    let mut f = vec![0u8; 12];
    f.extend([0x08, 0x00]);
    let mut ip = vec![0u8; 20];
    ip[0] = 0x45;
    ip[9] = protocol;
    ip[12..16].copy_from_slice(&[1, 2, 3, 4]);
    f.extend(ip);
    f.extend(payload);
    f
}

fn v6_frame(next: u8, payload: &[u8]) -> Vec<u8> {
    let mut f = vec![0u8; 12];
    f.extend([0x86, 0xdd]);
    let mut ip = vec![0u8; 40];
    ip[6] = next;
    ip[8] = 0x20;
    ip[9] = 0x01;
    ip[23] = 0x01;
    f.extend(ip);
    f.extend(payload);
    f
}

fn tcp(port: u16, flags: u8) -> Vec<u8> {
    let mut t = vec![0u8; 20];
    t[2..4].copy_from_slice(&port.to_be_bytes());
    t[13] = flags;
    t
}

#[test]
fn tcp_frames() {
    let e = process_packet(&v4_frame(6, &tcp(22, 0x02))).unwrap();
    assert_eq!((e.ip.as_str(), e.port, e.kind), ("1.2.3.4", 22, PacketKind::Syn));
    let e = process_packet(&v4_frame(6, &tcp(443, 0x10))).unwrap();
    assert_eq!((e.port, e.kind), (443, PacketKind::Http));
    assert!(process_packet(&v4_frame(6, &tcp(22, 0x10))).is_none());
    assert!(process_packet(&v4_frame(6, &tcp(22, 0x00))).is_none());
    let e = process_packet(&v4_frame(6, &tcp(80, 0x12))).unwrap();
    assert_eq!(e.kind, PacketKind::Http);
    assert!(process_packet(&v4_frame(6, &tcp(22, 0x02)[..19])).is_none());
}

#[test]
fn udp_and_ping_frames() {
    let mut d = vec![0u8; 8];
    d[3] = 53;
    let e = process_packet(&v4_frame(17, &d)).unwrap();
    assert_eq!((e.port, e.kind), (53, PacketKind::Udp));
    assert!(process_packet(&v4_frame(17, &d[..7])).is_none());
    let e = process_packet(&v4_frame(1, &[0; 4])).unwrap();
    assert_eq!((e.port, e.kind), (0, PacketKind::Icmp));
    assert!(process_packet(&v4_frame(1, &[])).is_none());
    assert!(process_packet(&v4_frame(58, &[0; 4])).is_none());
    let e = process_packet(&v6_frame(58, &[])).unwrap();
    assert_eq!((e.ip.as_str(), e.kind), ("2001::1", PacketKind::Icmp));
    let e = process_packet(&v6_frame(17, &d)).unwrap();
    assert_eq!((e.port, e.kind), (53, PacketKind::Udp));
    assert!(process_packet(&v6_frame(1, &[0; 8])).is_none());
}

#[test]
fn broken_frames() {
    assert!(process_packet(&[]).is_none());
    assert!(process_packet(&[0; 13]).is_none());
    assert!(process_packet(&[0; 60]).is_none());
    let mut f = v4_frame(6, &tcp(22, 2));
    f[14] = 0x65;
    assert!(process_packet(&f).is_none());
    let mut f = v4_frame(6, &tcp(22, 2));
    f[14] = 0x4f;
    assert!(process_packet(&f).is_none());
    assert!(process_packet(&v6_frame(6, &[])[..50]).is_none());
}

#[test]
fn header_options_are_passed_over() {
    let mut payload = vec![0u8; 4];
    payload.extend(tcp(8080, 0x02));
    let mut f = v4_frame(6, &payload);
    f[14] = 0x46;
    let e = process_packet(&f).unwrap();
    assert_eq!(e.port, 8080);
}

#[test]
fn a_syn_flood_is_banned() {
    let mut p = DdosProtector::new(true, false);
    p.set_thresholds(3, 150, 200, 500, 40, 10, 600, 2);
    let frame = v4_frame(6, &tcp(445, 0x02));
    for _ in 0..3 {
        assert!(p.process_packet(&frame, SEC).ban.is_none());
    }
    let ban = p.process_packet(&frame, SEC).ban.unwrap();
    assert_eq!(ban.flood_type, FloodType::SynFlood);
    assert_eq!((ban.port, ban.count, ban.permanent), (445, 4, false));
    assert_eq!(ban.reason, "SYN-FLOOD порт 445");
    assert_eq!(ban.kind, PacketKind::Syn);
    assert!(ban.firewall);
    assert_eq!((p.packets_captured, p.syn_detected, p.bans_issued), (0, 1, 1));
    let ignored = p.process_packet(&frame, 600 * SEC);
    assert!(ignored.ban.is_none() && ignored.ddos.is_none());
    for _ in 0..3 {
        assert!(p.process_packet(&frame, 601 * SEC).ban.is_none());
    }
    let ban = p.process_packet(&frame, 601 * SEC).ban.unwrap();
    assert!(ban.permanent);
    assert!(p.process_packet(&frame, u64::MAX).ban.is_none());
    assert_eq!(p.packets_captured, 0);
    p.count_frame();
    assert_eq!((p.packets_captured, p.bans_issued), (1, 2));
}

#[test]
fn each_kind_of_flood_is_counted() {
    let mut p = DdosProtector::new(false, true);
    p.set_thresholds(1, 1, 1, 1, 1, 100, 600, 5);
    let kinds = [
        ("9.0.0.1", 22, PacketKind::Syn, FloodType::SshBrute, "SSH-BRUTE"),
        ("9.0.0.2", 80, PacketKind::Http, FloodType::HttpFlood, "HTTP-FLOOD"),
        ("9.0.0.3", 53, PacketKind::Udp, FloodType::UdpFlood, "UDP-FLOOD порт 53"),
        ("9.0.0.4", 0, PacketKind::Icmp, FloodType::IcmpFlood, "ICMP-FLOOD"),
        ("9.0.0.5", 23, PacketKind::Syn, FloodType::SynFlood, "SYN-FLOOD порт 23"),
    ];
    for (ip, port, kind, flood, reason) in kinds {
        let told = match kind {
            PacketKind::Syn => (port, antiflood::PacketKind::Tcp),
            PacketKind::Udp => (port, antiflood::PacketKind::Udp),
            PacketKind::Icmp => (0, antiflood::PacketKind::Icmp),
            PacketKind::Http => (80, antiflood::PacketKind::Http),
        };
        assert!(p.record_event(ip, port, kind, SEC).ban.is_none());
        let ban = p.record_event(ip, port, kind, SEC).ban.unwrap();
        assert_eq!(ban.flood_type, flood);
        assert_eq!(ban.reason, reason);
        assert_eq!(ban.tell_as(), told);
        assert!(!ban.firewall);
    }
    assert_eq!(
        (p.ssh_detected, p.http_detected, p.udp_detected, p.icmp_detected, p.syn_detected),
        (1, 1, 1, 1, 1)
    );
    for _ in 0..10 {
        assert!(p.record_event("9.0.0.6", 9999, PacketKind::Syn, SEC).ban.is_none());
    }
}

#[test]
fn exempt_sources() {
    let mut p = DdosProtector::new(true, false);
    p.set_thresholds(0, 0, 0, 0, 0, 1, 600, 5);
    p.set_whitelist(&vec!["9.9.9.9".to_string()]);
    for ip in ["10.0.0.1", "fe80::1", "9.9.9.9"] {
        let out = p.record_event(ip, 22, PacketKind::Syn, SEC);
        assert!(out.ban.is_none() && out.ddos.is_none());
    }
    assert!(p.record_event("9.9.9.8", 22, PacketKind::Syn, SEC).ban.is_some());
}

#[test]
fn attacks_by_many_sources() {
    let mut p = DdosProtector::new(false, false);
    for i in 0..9 {
        let out = p.record_event(&format!("9.9.9.{}", i), 80, PacketKind::Syn, SEC);
        assert_eq!(out.ddos, None);
    }
    let out = p.record_event("9.9.9.9", 80, PacketKind::Syn, SEC);
    assert_eq!(out.ddos, Some(10));
    assert_eq!(p.ddos_detected, 1);
    p.periodic_cleanup(12 * SEC);
    let out = p.record_event("9.9.9.9", 80, PacketKind::Syn, 12 * SEC);
    assert_eq!(out.ddos, None);
}

#[test]
fn messages_and_status() {
    let mut p = DdosProtector::new(false, true);
    p.set_thresholds(100, 0, 200, 500, 40, 10, 600, 1);
    let ban = p.record_event("2001:db8::1", 53, PacketKind::Udp, SEC).ban.unwrap();
    assert_eq!(
        ban_message("2001:db8::1", &ban),
        "[DDoS] 🚨 2001:db8::1 [IPv6] порт 53: 1 событий → ПЕРМАНЕНТНЫЙ БАН"
    );
    assert_eq!(
        ddos_message(80, 10),
        "[DDoS] 🚨 DDoS ОБНАРУЖЕН: порт 80 атакуют 10 источников"
    );
    assert_eq!(
        p.print_status(),
        [
            "   DDoS Protection v1.0:",
            "     Пакетов захвачено: 0",
            "     SYN flood: 0",
            "     UDP flood: 1",
            "     ICMP flood: 0",
            "     HTTP flood: 0",
            "     SSH brute: 0",
            "     DDoS обнаружено: 0",
            "     Баннов выдано: 1",
            "     Режим: ОБУЧЕНИЕ",
        ]
    );
}

#[test]
fn quiet_sources_are_forgotten() {
    let mut p = DdosProtector::new(false, false);
    p.set_thresholds(2, 150, 200, 500, 40, 10, 600, 5);
    p.record_event("9.9.9.9", 445, PacketKind::Syn, SEC);
    p.record_event("9.9.9.9", 445, PacketKind::Syn, 2 * SEC);
    p.periodic_cleanup(33 * SEC);
    assert!(p.record_event("9.9.9.9", 445, PacketKind::Syn, 3 * SEC).ban.is_none());
}

#[test]
fn a_source_can_be_banned_again() {
    let mut c = DdosCounter::new();
    assert!(!c.ban(2, 600, SEC));
    assert!(c.is_banned(601 * SEC - 1) && !c.is_banned(601 * SEC));
    assert!(c.ban(2, 600, SEC));
    assert!(c.is_banned(u64::MAX));
    assert!(!c.ban(9, 600, SEC));
    assert!(c.is_banned(u64::MAX));
    assert!(c.ban(4, 600, SEC));
}

#[test]
fn bans_are_attacks_of_one_kind() {
    let mut p = DdosProtector::new(false, false);
    p.set_thresholds(1, 1, 1, 1, 1, 100, 0, 1000);
    let kinds = [PacketKind::Syn, PacketKind::Udp, PacketKind::Icmp, PacketKind::Http];
    for i in 0..200u64 {
        p.record_event("9.0.0.1", [22, 53, 0, 80, 445][i as usize % 5], kinds[i as usize % 4], i);
        let found = p.syn_detected + p.udp_detected + p.icmp_detected + p.http_detected;
        assert_eq!(p.bans_issued, found + p.ssh_detected);
    }
    assert!(p.bans_issued > 100);
    let c = p.counts();
    assert_eq!((c.bans_issued, c.syn_detected), (p.bans_issued, p.syn_detected));
    assert_eq!((c.icmp_detected, c.packets_captured), (p.icmp_detected, 0));
}
