use arlian_perimeter::clock::WallClock;
use arlian_perimeter::key_system::{
    format_key, is_past, judge_license, KeyError, KeySystem, LicenseKey,
};
use arlian_perimeter::perimeter::key_system as perimeter_keys;

const DAY: i64 = 86_400;

fn clock(secs: i64, offset: i32) -> WallClock {
    WallClock { secs: 1_786_034_452 + secs, nanos: 123_456_789, offset }
}

fn features() -> Vec<String> {
    vec!["ai".to_string(), "scan".to_string()]
}

#[test]
fn key_texts() {
    assert_eq!(format_key(0xabcd, 0x0001, 0, 0xffff), "ABCD-0001-0000-FFFF");
    let mut ks = KeySystem::new(Vec::new());
    let key = ks.generate_key(30, 5, features(), "me".to_string(), &clock(0, 0), 0);
    assert_eq!(key.len(), 19);
    for (i, c) in key.chars().enumerate() {
        if i % 5 == 4 {
            assert_eq!(c, '-');
        } else {
            assert!(c.is_ascii_digit() || ('A'..='F').contains(&c));
        }
    }
    let info = ks.get_key_info(&key).unwrap();
    assert_eq!(info.key, key);
    assert_eq!(info.created_at, "2026-08-06 16:40:52");
    assert_eq!(info.expires_at, "2026-09-05 16:40:52");
    assert_eq!(info.features, ["ai", "scan"]);
    assert_eq!(info.owner, "me");
    assert!(info.is_active && info.last_used.is_none());
    assert_eq!(ks.get_key_count(), 1);
    assert!(ks.get_key_info("none").is_none());
}

#[test]
fn keys_differ() {
    let mut ks = KeySystem::new(Vec::new());
    for _ in 0..8 {
        ks.generate_key(1, 1, Vec::new(), String::new(), &clock(0, 0), 0);
    }
    assert!(ks.get_key_count() > 1);
}

fn one_key(days: u32, max: u32) -> KeySystem {
    let mut ks = KeySystem::new(Vec::new());
    ks.add_key("K".to_string(), days, max, features(), "me".to_string(), &clock(0, 0), 3600);
    ks
}

#[test]
fn a_key_is_valid_until_it_expires() {
    let ks = one_key(2, 1);
    assert_eq!(ks.validate_key("K", &clock(0, 0)), Ok(true));
    let mut end = clock(2 * DAY + 3600, 0);
    end.nanos = 0;
    assert_eq!(ks.validate_key("K", &end), Ok(true));
    end.nanos = 1;
    assert_eq!(ks.validate_key("K", &end), Ok(false));
    assert_eq!(ks.validate_key("L", &clock(0, 0)), Ok(false));
    assert_eq!(one_key(2, 0).validate_key("K", &clock(0, 0)), Ok(false));
}

#[test]
fn devices_are_counted() {
    let mut ks = one_key(2, 2);
    assert_eq!(ks.activate_device("K", "1.1.1.1", &clock(5, 0)), Ok(true));
    assert_eq!(ks.activate_device("K", "1.1.1.1", &clock(6, 0)), Ok(true));
    assert_eq!(ks.activate_device("K", "1.1.1.1", &clock(7, 0)), Ok(false));
    assert_eq!(ks.activate_device("X", "1.1.1.1", &clock(7, 0)), Ok(false));
    let info = ks.get_key_info("K").unwrap();
    assert_eq!(info.current_devices, 2);
    assert_eq!(info.last_used.unwrap(), "2026-08-06 16:40:58");
    assert_eq!(ks.usage().len(), 2);
    assert!(ks.deactivate_device("K"));
    assert_eq!(ks.get_key_info("K").unwrap().current_devices, 1);
    assert_eq!(ks.validate_key("K", &clock(8, 0)), Ok(true));
    assert!(ks.deactivate_device("K") && ks.deactivate_device("K"));
    assert_eq!(ks.get_key_info("K").unwrap().current_devices, 0);
    assert!(!ks.deactivate_device("X"));
}

#[test]
fn use_is_noted_by_digest() {
    let mut ks = KeySystem::new(Vec::new());
    let key = "ABCD-EF01-2345-6789";
    ks.add_key(key.to_string(), 1, 1, Vec::new(), String::new(), &clock(0, 0), 0);
    assert_eq!(ks.activate_device(key, "1.1.1.1", &clock(1, 7200)), Ok(true));
    let u = &ks.usage()[0];
    assert_eq!(u.key_hash, "764b7bb50dccc0fc617e8c32951fd5d2b7557f006921bc6a1b1f3a607d839add");
    assert_eq!((u.ip.as_str(), u.action.as_str()), ("1.1.1.1", "activate"));
    assert_eq!(u.timestamp, "2026-08-06 18:40:53");
}

fn license(expires_at: &str, active: bool) -> LicenseKey {
    LicenseKey {
        key: "K".to_string(),
        created_at: String::new(),
        expires_at: expires_at.to_string(),
        max_devices: 3,
        current_devices: 1,
        features: Vec::new(),
        is_active: active,
        owner: String::new(),
        last_used: None,
    }
}

#[test]
fn an_unreadable_expiry_is_an_error() {
    let mut ks = KeySystem::new(vec![("K".to_string(), license("whenever", true))]);
    assert_eq!(ks.validate_key("K", &clock(0, 0)), Err(KeyError::UnreadableExpiry));
    assert_eq!(
        ks.activate_device("K", "1.1.1.1", &clock(0, 0)),
        Err(KeyError::UnreadableExpiry)
    );
    let ks = KeySystem::new(vec![("K".to_string(), license("whenever", false))]);
    assert_eq!(ks.validate_key("K", &clock(0, 0)), Ok(false));
}

#[test]
fn key_statistics() {
    let ks = KeySystem::new(vec![
        ("A".to_string(), license("2020-01-01 00:00:00", true)),
        ("B".to_string(), license("2030-01-01 00:00:00", true)),
        ("C".to_string(), license("2020-01-01 00:00:00", false)),
        ("D".to_string(), license("rubbish", false)),
        ("B".to_string(), license("2031-01-01 00:00:00", true)),
    ]);
    assert_eq!(ks.device_totals(), (4, 12));
    let s = ks.get_stats(&clock(0, 0));
    assert_eq!((s.total_keys, s.active_keys, s.expired_keys), (4, 2, 2));
    assert_eq!((s.total_devices, s.max_devices), (4, 12));
    let again = KeySystem::new(ks.saved_keys());
    assert_eq!(again.get_stats(&clock(0, 0)), s);
    assert_eq!(again.get_key_info("B").unwrap().expires_at, "2031-01-01 00:00:00");
}

#[test]
fn perimeter_key_texts() {
    let mut ks = perimeter_keys::KeySystem::new(Vec::new());
    let key = ks.generate_key(30, 5, features(), "Demo".to_string(), &clock(0, 3600), 3600);
    assert_eq!(key, "ARLIAN-20260806-123456");
    let saved = ks.saved_keys();
    assert_eq!(saved.len(), 1);
    assert_eq!(saved[0].0, key);
    assert_eq!(saved[0].1.created_at, "2026-08-06T17:40:52.123456789+01:00");
    assert_eq!(saved[0].1.expires_at, "2026-09-05T17:40:52.123456789+01:00");
    assert!(saved[0].1.active && saved[0].1.devices.is_empty());
    assert_eq!(ks.get_key_count(), 1);
}

#[test]
fn perimeter_devices_are_listed() {
    let mut ks = perimeter_keys::KeySystem::new(Vec::new());
    let key = ks.generate_key(1, 2, features(), "Demo".to_string(), &clock(0, 0), 0);
    assert_eq!(ks.activate_device(&key, "a", &clock(1, 0)), (true, true));
    assert_eq!(ks.activate_device(&key, "a", &clock(2, 0)), (true, false));
    assert_eq!(ks.activate_device(&key, "b", &clock(3, 0)), (true, true));
    assert_eq!(ks.activate_device(&key, "a", &clock(4, 0)), (false, false));
    assert_eq!(ks.activate_device("none", "a", &clock(4, 0)), (false, false));
    assert_eq!(ks.saved_keys()[0].1.devices, ["a", "b"]);
}

#[test]
fn perimeter_keys_expire() {
    let mut ks = perimeter_keys::KeySystem::new(Vec::new());
    let key = ks.generate_key(1, 2, features(), "Demo".to_string(), &clock(0, 0), 0);
    assert_eq!(ks.activate_device(&key, "a", &clock(DAY, 0)), (true, true));
    let mut late = clock(DAY, 0);
    late.nanos += 1;
    let s = ks.get_stats(&late);
    assert_eq!((s.active_keys, s.expired_keys, s.total_devices), (0, 1, 0));
    assert_eq!(ks.activate_device(&key, "b", &late), (false, true));
    assert_eq!(ks.activate_device(&key, "a", &clock(0, 0)), (false, false));
    assert!(!ks.saved_keys()[0].1.active);
    assert_eq!(ks.get_stats(&late).expired_keys, 0);
}

#[test]
fn perimeter_statistics() {
    let l = |expires: &str, active: bool, devices: &[&str]| perimeter_keys::LicenseKey {
        key: String::new(),
        created_at: String::new(),
        expires_at: expires.to_string(),
        max_devices: 4,
        features: Vec::new(),
        owner: String::new(),
        devices: devices.iter().map(|d| d.to_string()).collect(),
        active,
    };
    let mut ks = perimeter_keys::KeySystem::new(vec![
        ("A".to_string(), l("2030-01-01T00:00:00+00:00", true, &["x", "y"])),
        ("B".to_string(), l("2020-01-01T00:00:00+00:00", true, &["x"])),
        ("C".to_string(), l("2030-01-01T00:00:00+00:00", false, &["x"])),
        ("D".to_string(), l("rubbish", true, &["x"])),
    ]);
    assert_eq!(ks.device_totals(&clock(0, 0)), (2, 4));
    let s = ks.get_stats(&clock(0, 0));
    assert_eq!((s.total_keys, s.active_keys, s.expired_keys), (4, 1, 1));
    assert_eq!((s.total_devices, s.max_devices), (2, 4));
    assert_eq!(ks.activate_device("D", "z", &clock(0, 0)), (true, true));
    let again = perimeter_keys::KeySystem::new(ks.saved_keys());
    assert_eq!(again.get_key_count(), 4);
}

#[test]
fn licences_are_judged_by_their_expiry() {
    let l = license("whenever", true);
    assert_eq!(judge_license(&l, Some((10, 0)), (10, 0)), Ok(true));
    assert_eq!(judge_license(&l, Some((10, 0)), (10, 1)), Ok(false));
    assert_eq!(judge_license(&l, None, (10, 0)), Err(KeyError::UnreadableExpiry));
    let full = LicenseKey { current_devices: 3, ..license("whenever", true) };
    assert_eq!(judge_license(&full, Some((10, 0)), (9, 0)), Ok(false));
    assert!(is_past(Some((1, 5)), (1, 6)));
    assert!(!is_past(None, (1, 6)));
}

#[test]
fn perimeter_licences_are_asked() {
    let mut l = perimeter_keys::LicenseKey {
        key: String::new(),
        created_at: String::new(),
        expires_at: String::new(),
        max_devices: 1,
        features: Vec::new(),
        owner: String::new(),
        devices: Vec::new(),
        active: true,
    };
    assert_eq!(perimeter_keys::ask_license(&mut l, "a", None, (5, 0)), (true, true));
    assert_eq!(perimeter_keys::ask_license(&mut l, "a", Some((5, 0)), (5, 0)), (false, false));
    assert_eq!(perimeter_keys::ask_license(&mut l, "a", Some((4, 0)), (5, 0)), (false, true));
    assert!(!l.active);
    assert_eq!(perimeter_keys::key_of_date("20260806", 7_999), "ARLIAN-20260806-7");
}
