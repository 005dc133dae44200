use arlian_perimeter::clock::WallClock;
use arlian_perimeter::detector::{anomaly_of, AIDetector, Anomaly};
use arlian_perimeter::kayoli::{
    patterns_of, KayoliTrainer, DEFAULT_ATTACK_PATTERNS, DEFAULT_CUSTOM_RULES,
    DEFAULT_NORMAL_BEHAVIOR,
};
use arlian_perimeter::training::{
    distinct_of, is_within_week, keep_samples, learn_behavior, measure, measure_times, typical_of,
    DeviceBehavior, TrainingSample,
};

fn kayoli() -> KayoliTrainer {
    KayoliTrainer::new(
        DEFAULT_NORMAL_BEHAVIOR,
        DEFAULT_ATTACK_PATTERNS,
        DEFAULT_CUSTOM_RULES,
    )
}

fn clock(secs: i64) -> WallClock {
    WallClock { secs: 1_786_034_452 + secs, nanos: 500_000_000, offset: 0 }
}

fn sample(ip: &str, timestamp: &str, hour: u32, day: u32, ports: &[u16]) -> TrainingSample {
    TrainingSample {
        timestamp: timestamp.to_string(),
        ip: ip.to_string(),
        ip_type: String::new(),
        hour,
        day_of_week: day,
        open_ports: ports.to_vec(),
    }
}

fn behavior(ip: &str, hours: &[u32], ports: &[u16], count: u32) -> DeviceBehavior {
    DeviceBehavior {
        ip: ip.to_string(),
        ip_type: String::new(),
        typical_hours: hours.to_vec(),
        typical_ports: ports.to_vec(),
        appearance_count: count,
        first_seen: "a".to_string(),
        last_seen: "b".to_string(),
        unique_days: 2,
        avg_interval_minutes: 0,
    }
}

#[test]
fn patterns_skip_comments_and_blank_lines() {
    assert_eq!(patterns_of("# c\n\n a \r\n#\n  \nb"), [" a ", "b"]);
    assert_eq!(
        patterns_of(DEFAULT_ATTACK_PATTERNS),
        [
            "port_scan:22,445,3389,5900,1433,3306",
            "smb_attack:445",
            "ssh_brute:22",
            "rdp_attack:3389",
            "mass_scan:>5_ports",
            "night_activity:23-6",
        ]
    );
    assert_eq!(patterns_of(DEFAULT_NORMAL_BEHAVIOR).len(), 8);
    assert_eq!(patterns_of(DEFAULT_CUSTOM_RULES).len(), 4);
}

#[test]
fn pattern_risks() {
    let k = kayoli();
    assert_eq!(k.pattern_count(), 6);
    let (risk, found) = k.detect(12, &vec![80]);
    assert_eq!((risk, found.len()), (0, 0));
    let (risk, found) = k.detect(12, &vec![22]);
    assert_eq!(risk, 15);
    assert_eq!(found, ["Паттерн атаки: port_scan:22,445,3389,5900,1433,3306"]);
    let (risk, found) = k.detect(23, &vec![1, 2, 3, 4, 5, 445]);
    assert_eq!(risk, 50);
    assert_eq!(
        found,
        [
            "Паттерн атаки: port_scan:22,445,3389,5900,1433,3306",
            "Массовое сканирование: mass_scan:>5_ports",
            "Ночная активность: night_activity:23-6",
        ]
    );
    assert_eq!(k.detect(6, &vec![]).0, 15);
    assert_eq!(k.detect(7, &vec![]).0, 0);
    assert_eq!(k.detect(22, &vec![1, 2, 3, 4, 5]).0, 0);
}

#[test]
fn pattern_risk_is_capped() {
    let many = "night_activity\n".repeat(9);
    let k = KayoliTrainer::new("", &many, "");
    let (risk, found) = k.detect(0, &vec![]);
    assert_eq!((risk, found.len()), (100, 9));
}

#[test]
fn typical_values() {
    assert_eq!(distinct_of(&vec![3u32, 1, 3, 2, 1]), [3, 1, 2]);
    assert_eq!(typical_of(&vec![3u32, 1, 3, 2, 1], 2), [3, 1]);
    assert_eq!(typical_of(&vec![80u16, 443, 80], 2), [80]);
    assert_eq!(typical_of(&vec![80u16, 443], 0), [80, 443]);
}

#[test]
fn intervals_between_samples() {
    let v = vec![
        sample("a", "2026-08-06 16:00:00.000", 16, 3, &[80]),
        sample("a", "2026-08-06 16:02:00.900", 16, 3, &[80, 22]),
        sample("a", "rubbish", 17, 3, &[]),
        sample("a", "2026-08-06 16:02:01.000", 17, 4, &[80]),
        sample("a", "2026-08-06 16:12:01", 16, 4, &[80]),
        sample("a", "2026-08-06 16:10:00.000", 16, 4, &[22]),
    ];
    let m = measure(&v);
    assert_eq!((m.samples, m.interval_count, m.interval_sum), (6, 2, 720));
    let times = vec![(0, 0), (10, 500_000_000), (12, 0), (12, 900_000_000), (5, 0)];
    assert_eq!(measure_times(&times), (2, 11));
    assert_eq!(measure_times(&vec![(5, 0)]), (0, 0));
    let leap = vec![
        sample("a", "2016-12-31 23:59:60.500", 23, 5, &[]),
        sample("a", "2017-01-01 00:00:01.500", 0, 6, &[]),
        sample("a", "2017-01-01 23:59:60.500", 23, 6, &[]),
        sample("a", "2017-01-02 23:59:59.700", 23, 0, &[]),
    ];
    let m = measure(&leap);
    assert_eq!((m.interval_count, m.interval_sum), (3, 1 + 86_399 + 86_399));
    let leap = vec![
        sample("a", "2017-01-01 10:00:60.500", 23, 5, &[]),
        sample("a", "2017-01-01 11:00:00.500", 0, 6, &[]),
    ];
    assert_eq!(measure(&leap).interval_sum, 3_541);
    let b = learn_behavior("fe80::1", &v, 2, 77);
    assert_eq!(b.ip_type, "IPv6");
    assert_eq!(b.typical_hours, [16, 17]);
    assert_eq!(b.typical_ports, [80, 22]);
    assert_eq!(b.appearance_count, 6);
    assert_eq!(b.first_seen, "2026-08-06 16:00:00.000");
    assert_eq!(b.last_seen, "2026-08-06 16:10:00.000");
    assert_eq!(b.unique_days, 2);
    assert_eq!(b.avg_interval_minutes, 77);
}

#[test]
fn behaviour_takes_five_samples() {
    let mut ai = AIDetector::new(kayoli(), Vec::new(), Vec::new());
    for i in 0..4 {
        ai.collect_sample("1.2.3.4", 10, 1, vec![80], &clock(i * 60));
        assert!(ai.behavior_input("1.2.3.4").is_none());
        ai.update_behavior("1.2.3.4", 1, 0);
        assert_eq!(ai.device_counts(), (0, 0, 0));
    }
    ai.collect_sample("1.2.3.4", 10, 1, vec![80], &clock(240));
    let input = ai.behavior_input("1.2.3.4").unwrap();
    assert_eq!((input.samples, input.interval_count, input.interval_sum), (5, 4, 240));
    ai.update_behavior("1.2.3.4", 1, 9);
    assert_eq!(ai.device_counts(), (1, 1, 0));
    let b = ai.saved_behaviors();
    assert_eq!(b[0].typical_ports, [80]);
    assert_eq!(b[0].first_seen, "2026-08-06 16:40:52.500");
    assert_eq!(ai.total_samples(), 5);
    assert!(ai.behavior_input("9.9.9.9").is_none());
}

#[test]
fn samples_are_bounded() {
    let mut ai = AIDetector::new(kayoli(), Vec::new(), Vec::new());
    for i in 0..500 {
        ai.collect_sample("1.2.3.4", i, 1, vec![], &clock(0));
    }
    assert_eq!(ai.total_samples(), 500);
    ai.collect_sample("1.2.3.4", 500, 1, vec![], &clock(0));
    assert_eq!(ai.total_samples(), 400);
    let kept = ai.saved_samples();
    assert_eq!((kept[0].hour, kept[399].hour), (101, 500));
}

#[test]
fn saved_data_load_back() {
    let samples = vec![
        sample("1.2.3.4", "t1", 1, 1, &[80]),
        sample("fe80::1", "t2", 2, 2, &[]),
        sample("1.2.3.4", "t3", 3, 3, &[22, 80]),
    ];
    let behaviors = vec![behavior("1.2.3.4", &[1], &[80], 7), behavior("1.2.3.4", &[2], &[], 9)];
    let ai = AIDetector::new(kayoli(), samples, behaviors);
    assert_eq!(ai.total_samples(), 3);
    assert_eq!(ai.device_counts(), (1, 1, 0));
    let again = AIDetector::new(kayoli(), ai.saved_samples(), ai.saved_behaviors());
    let mut kept = again.saved_samples();
    kept.sort_by(|a, b| a.timestamp.cmp(&b.timestamp));
    let seen: Vec<(String, String, String)> = kept
        .iter()
        .map(|s| (s.timestamp.clone(), s.ip.clone(), s.ip_type.clone()))
        .collect();
    let row = |a: &str, b: &str, c: &str| (a.to_string(), b.to_string(), c.to_string());
    assert_eq!(
        seen,
        [row("t1", "1.2.3.4", "IPv4"), row("t2", "fe80::1", "IPv6"), row("t3", "1.2.3.4", "IPv4")]
    );
    assert_eq!(kept[2].open_ports, [22, 80]);
    let b = again.saved_behaviors();
    assert_eq!((b[0].typical_hours[0], b[0].appearance_count), (2, 9));
}

#[test]
fn evidence_of_an_anomaly() {
    let known = vec![behavior("1.2.3.4", &[9, 10], &[80], 11), behavior("fe80::1", &[3], &[], 4)];
    let ai = AIDetector::new(kayoli(), Vec::new(), known);
    let e = ai.detect_anomaly("1.2.3.4", 23, &vec![80, 22, 8080]);
    assert_eq!((e.kayoli_risk, e.kayoli_matches), (30, 2));
    assert!(e.unusual_time && !e.few_samples);
    assert_eq!(e.unusual_ports, 2);
    assert_eq!(e.anomalies.len(), 4);
    assert_eq!(e.anomalies[2], "Необычное время: 23ч (обычно [9, 10]ч)");
    assert_eq!(e.anomalies[3], "Необычные порты: [22, 8080]");
    assert!(anomaly_of(e.clone(), false, 9).is_none());
    let anomaly = anomaly_of(e.clone(), true, 9).unwrap();
    assert_eq!((anomaly.points, anomaly.remarks), (9, e.anomalies));
    let e = ai.detect_anomaly("1.2.3.4", 9, &vec![80]);
    assert_eq!((e.kayoli_risk, e.unusual_ports, e.anomalies.len()), (0, 0, 0));
    let e = ai.detect_anomaly("fe80::1", 12, &vec![80]);
    assert!(e.few_samples && !e.unusual_time);
    let e = ai.detect_anomaly("7.7.7.7", 12, &vec![80]);
    assert!(!e.few_samples && e.anomalies.is_empty());
}

#[test]
fn judgements() {
    let mut ai = AIDetector::new(kayoli(), Vec::new(), Vec::new());
    let p = ai.analyze_device("1.2.3.4", vec![80], None, None, &clock(0));
    assert_eq!((p.risk_score, p.status.as_str(), p.warning_count), (0, "low_risk", 0));
    assert_eq!(p.first_seen, "2026-08-06 16:40:52");
    assert_eq!(p.attack_count, 1);
    let p = ai.analyze_device("1.2.3.4", vec![1, 2, 3, 4, 5, 23], None, None, &clock(0));
    assert_eq!((p.risk_score, p.status.as_str()), (35, "low_risk"));
    assert_eq!(
        p.suspicious_activities,
        ["Опасный порт обнаружен", "Массовое сканирование (6 портов)"]
    );
    let anomaly = Anomaly { points: 20, remarks: vec!["x".to_string()] };
    let p = ai.analyze_device("1.2.3.4", vec![22], Some(anomaly), None, &clock(0));
    assert_eq!((p.risk_score, p.status.as_str()), (40, "monitoring"));
    assert!(ai.saved_intel().is_empty());
    let anomaly = Anomaly { points: 50, remarks: vec!["x".to_string(), "y".to_string()] };
    let mac = Some("aa:bb:cc:dd:ee:ff".to_string());
    let p = ai.analyze_device("fe80::1", vec![22], Some(anomaly), mac, &clock(0));
    assert_eq!((p.risk_score, p.status.as_str(), p.warning_count), (70, "investigating", 1));
    assert_eq!(p.mac.unwrap(), "aa:bb:cc:dd:ee:ff");
    let intel = ai.saved_intel();
    assert_eq!(intel.len(), 1);
    assert_eq!(intel[0].details, "70% - x, y, Опасный порт обнаружен");
    assert_eq!(intel[0].event_type, "high_risk");
    assert_eq!(intel[0].source, "AI");
    assert_eq!(intel[0].ip_type, "IPv6");
    assert_eq!(intel[0].timestamp, "2026-08-06 16:40:52.500");
    let anomaly = Anomaly { points: u32::MAX, remarks: Vec::new() };
    let p = ai.analyze_device("1.2.3.4", vec![22], Some(anomaly), None, &clock(0));
    assert_eq!(p.risk_score, 100);
}

#[test]
fn old_samples_are_forgotten() {
    let week = 604_800;
    let mut v = vec![sample("a", "2026-08-06 16:40:52.500", 1, 1, &[])];
    assert!(keep_samples(&mut v, &clock(week)));
    let mut late = clock(week + 1);
    late.nanos = 499_999_999;
    assert!(keep_samples(&mut v, &late));
    assert!(!keep_samples(&mut v, &clock(week + 1)));
    let mut v = vec![sample("a", "no time", 1, 1, &[])];
    assert!(keep_samples(&mut v, &clock(week * 9)));
    assert!(!keep_samples(&mut Vec::new(), &clock(0)));
    assert!(is_within_week(Some((0, 0)), (604_800, 999_999_999)));
    assert!(!is_within_week(Some((0, 0)), (604_801, 0)));
    assert!(is_within_week(None, (0, 0)));
    let mut ai = AIDetector::new(kayoli(), Vec::new(), Vec::new());
    ai.collect_sample("1.2.3.4", 1, 1, vec![], &clock(0));
    ai.collect_sample("5.6.7.8", 1, 1, vec![], &clock(1000));
    ai.cleanup_old_data(&clock(week + 500));
    let kept = ai.saved_samples();
    assert_eq!(kept.len(), 1);
    assert_eq!(kept[0].ip, "5.6.7.8");
}

#[test]
fn the_latest_findings_are_kept() {
    let mut ai = AIDetector::new(kayoli(), Vec::new(), Vec::new());
    for i in 0..10_003u32 {
        ai.save_intel_event(&format!("{}", i), "e", "d", 1, "s", &clock(0));
    }
    ai.cleanup_old_data(&clock(0));
    let mut kept: Vec<u32> = ai.saved_intel().iter().map(|l| l.ip.parse().unwrap()).collect();
    kept.sort();
    assert_eq!(kept.len(), 10_000);
    assert_eq!((kept[0], kept[9_999]), (3, 10_002));
}

#[test]
fn learning_curve_and_health() {
    let known = vec![behavior("1.2.3.4", &[9], &[80], 11), behavior("fe80::1", &[3], &[], 4)];
    let mut ai = AIDetector::new(kayoli(), vec![sample("a", "t", 1, 1, &[])], known);
    ai.update_learning_curve(&clock(0));
    let p = &ai.learning_curve()[0];
    assert_eq!(p.timestamp, "2026-08-06 16:40:52");
    assert_eq!((p.devices_learned, p.total_samples), (2, 1));
    assert_eq!((p.ipv4_count, p.ipv6_count), (1, 1));
    for _ in 0..10_000 {
        ai.update_learning_curve(&clock(0));
    }
    assert_eq!(ai.learning_curve().len(), 9_001);
    assert_eq!(
        ai.print_health_status(),
        [
            " HEALTH STATUS / СОСТОЯНИЕ:",
            "   Devices learned/Обучено устройств: 2 (IPv4: 1, IPv6: 1)",
            "   Total samples/Всего образцов:    1",
            "   Intel logs/Intel логов:       0",
            "   Kayoli patterns/Kayoli паттернов:  6",
        ]
    );
    assert_eq!(ai.normal_patterns().len(), 8);
}
