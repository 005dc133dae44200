use arlian_perimeter::clock::WallClock;
use arlian_perimeter::commands::{parse_command, Command};
use arlian_perimeter::config::{init_directories, init_files, Config, Whitelist};
use arlian_perimeter::console_manager as windows;
use arlian_perimeter::journal;
use arlian_perimeter::perimeter::console_manager as console;

fn clock() -> WallClock {
    WallClock { secs: 1_786_034_452, nanos: 7_000_000, offset: 0 }
}

#[test]
fn console_lines() {
    let c = console::ConsoleManager::new(&clock());
    assert_eq!(c.monitor_file(), "logs/monitor/monitor_2026-08-06.log");
    assert_eq!(
        c.launch_monitor_console(&clock()),
        "=== MONITOR STARTED at 2026-08-06 16:40:52 ===\n"
    );
    let levels = [
        (console::LogLevel::Info, "INFO"),
        (console::LogLevel::Warn, "WARN"),
        (console::LogLevel::Error, "ERROR"),
        (console::LogLevel::Success, "SUCCESS"),
    ];
    for (level, name) in levels {
        let e = c.log(console::LogTarget::Main, level, "hi", &clock());
        assert_eq!(e.line, format!("[2026-08-06 16:40:52] [{}] hi", name));
        assert_eq!(e.file, "logs/main.log");
    }
    let e = c.log(console::LogTarget::Monitor, console::LogLevel::Info, "", &clock());
    assert_eq!(e.file, "logs/monitor/monitor_2026-08-06.log");
    let e = c.log(console::LogTarget::KeySystem, console::LogLevel::Info, "", &clock());
    assert_eq!(e.file, "logs/key_system/keys.log");
    let line = console::compose_line("now", console::LogLevel::Warn, "m");
    assert_eq!(line, "[now] [WARN] m");
    let line = windows::compose_line("now", windows::LogLevel::Debug, "m");
    assert_eq!(line, "[now] [debug] m");
    let s = c.show_status(true, &clock());
    assert_eq!(s[2], "  Monitoring/Мониторинг: Active/Активен");
    assert_eq!(s[4], "  Time/Время: 2026-08-06 16:40:52");
    assert_eq!(
        c.show_status(false, &clock())[2],
        "  Monitoring/Мониторинг: Not running/Не запущен"
    );
}

#[test]
fn window_lines() {
    let c = windows::ConsoleManager::new(&clock());
    let cases = [
        (windows::LogTarget::Main, "logs/main/arlian_2026-08-06.log", true),
        (windows::LogTarget::Monitor, "logs/monitor/arlian_monitor.log", true),
        (windows::LogTarget::KeySystem, "logs/keys/keys.log", false),
        (windows::LogTarget::Security, "logs/security/security.log", false),
    ];
    for (target, file, shown) in cases {
        let e = c.log(target, windows::LogLevel::Debug, "hi", &clock());
        assert_eq!((e.file.as_str(), e.shown), (file, shown));
        assert_eq!(e.line, "[2026-08-06 16:40:52.007] [debug] hi");
    }
    let levels = [
        (windows::LogLevel::Error, "[error]"),
        (windows::LogLevel::Warn, "[warn]"),
        (windows::LogLevel::Info, "[info]"),
        (windows::LogLevel::Success, "[success]"),
    ];
    for (level, name) in levels {
        let e = c.log(windows::LogTarget::Main, level, "", &clock());
        assert!(e.line.contains(name));
    }
    assert_eq!(
        windows::log_directories(),
        ["logs/main", "logs/monitor", "logs/keys", "logs/security"]
    );
}

#[test]
fn monitor_window_commands() {
    let mut c = windows::ConsoleManager::new(&clock());
    assert_eq!(
        c.launch_monitor_console(windows::Platform::Linux),
        [
            "gnome-terminal",
            "--",
            "bash",
            "-c",
            "echo '🖥️ ARLIAN MONITOR v1.0' && tail -f logs/monitor/arlian_monitor.log & exec bash",
        ]
    );
    assert_eq!(
        c.launch_xterm(),
        [
            "xterm",
            "-e",
            "bash",
            "-c",
            "echo '🖥️ ARLIAN MONITOR' && tail -f logs/monitor/arlian_monitor.log",
        ]
    );
    assert_eq!(
        c.launch_monitor_console(windows::Platform::MacOs)[2],
        "tell application \"Terminal\" to do script \"tail -f logs/monitor/arlian_monitor.log\""
    );
    assert_eq!(
        c.launch_monitor_console(windows::Platform::Windows),
        ["cmd", "/C", "start", "cmd", "/K", "type logs\\monitor\\arlian_monitor.log"]
    );
    assert_eq!(
        c.monitor_launched(77),
        [
            "✅ Мониторинг-консоль запущена (PID: 77)",
            "📁 Логи: logs/monitor/arlian_monitor.log",
        ]
    );
    let script = c.create_monitor_script();
    let expected = r#"#!/bin/bash
# ARLIAN Monitor Script

echo "=========================================="
echo "🖥️  ARLIAN PERIMETER - MONITOR CONSOLE"
echo "=========================================="
echo "📁 Логи: logs/monitor/"
echo "🔑 Система ключей: logs/keys/"
echo "=========================================="
echo ""
echo "Нажмите CTRL+C для выхода"

# Отображаем последние логи
tail -f logs/monitor/arlian_monitor.log
"#;
    assert_eq!(script, expected);
}

#[test]
fn window_status() {
    let c = windows::ConsoleManager::new(&clock());
    let lines = c.show_status(&vec![("main".to_string(), 2), ("keys".to_string(), 0)], 3, Some(12));
    assert_eq!(
        lines,
        [
            "==================================================",
            "📊 СТАТУС СИСТЕМЫ",
            "==================================================",
            "📁 Логи:",
            "   main/: 2 файлов",
            "   keys/: 0 файлов",
            "🔑 Система ключей:",
            "   Активных ключей: 3",
            "💾 Память:",
            "   Использовано: 12 MB",
            "==================================================",
        ]
    );
    assert_eq!(c.show_status(&Vec::new(), 0, None).len(), 8);
}

#[test]
fn memory_in_use() {
    assert_eq!(windows::get_memory_stats("2560 300 20 1 0 50 0\n"), Some(10));
    assert_eq!(windows::get_memory_stats("255"), Some(0));
    assert_eq!(windows::get_memory_stats("many"), Some(0));
    assert_eq!(windows::get_memory_stats(" \n"), None);
    assert_eq!(windows::get_memory_stats("4503599627370496"), None);
    assert_eq!(windows::get_memory_stats("4503599627370495"), Some(17_592_186_044_415));
}

#[test]
fn operator_commands() {
    assert!(matches!(parse_command("  help \n"), Command::Help));
    assert!(matches!(parse_command("status"), Command::Status));
    assert!(matches!(parse_command("stats"), Command::Stats));
    assert!(matches!(parse_command("keys"), Command::Keys));
    assert!(matches!(parse_command("flood"), Command::Flood));
    assert!(matches!(parse_command("ddos"), Command::Ddos));
    assert!(matches!(parse_command("banned"), Command::Banned));
    assert!(matches!(parse_command("quit"), Command::Quit));
    assert!(matches!(parse_command("exit"), Command::Quit));
    assert!(matches!(parse_command(" \n"), Command::Nothing));
    assert!(matches!(parse_command("genkey"), Command::Nothing));
    assert!(matches!(parse_command("genkey 7"), Command::GenKey(7)));
    assert!(matches!(parse_command("genkey many"), Command::GenKey(30)));
    assert!(matches!(parse_command("genkey 4294967296"), Command::GenKey(30)));
    assert!(matches!(parse_command("genkeys 5 6"), Command::GenKey(5)));
    assert!(matches!(parse_command("activate"), Command::Nothing));
    assert!(matches!(parse_command("unban"), Command::Nothing));
    if let Command::Activate(key) = parse_command("activate  K1 x") {
        assert_eq!(key, "K1");
    } else {
        panic!();
    }
    if let Command::Unban(ip) = parse_command("unban 1.2.3.4") {
        assert_eq!(ip, "1.2.3.4");
    } else {
        panic!();
    }
    if let Command::Unknown(line) = parse_command(" Help me ") {
        assert_eq!(line, "Help me");
    } else {
        panic!();
    }
}

#[test]
fn default_settings() {
    let c = Config::default();
    assert_eq!(c.network, "192.168.1.0/24");
    assert_eq!((c.scan_interval, c.scan_timeout_ms, c.rate_limit_ms), (60, 300, 5000));
    assert_eq!((c.max_concurrent_scans, c.ipv6_max_hosts), (100, 65536));
    assert_eq!(c.ip_protocol, "both");
    assert!(!c.bans_take_effect());
    let active = Config { ai_learning_mode: false, ..Config::default() };
    assert!(active.bans_take_effect());
    let w = Whitelist::default();
    assert_eq!(w.ips, ["192.168.1.1", "192.168.1.2", "fd00::1"]);
    assert_eq!(w.macs, ["aa:bb:cc:dd:ee:ff"]);
    assert_eq!(w.ipv6_prefixes, ["fd00::/64"]);
}

#[test]
fn first_run() {
    let first = init_files(false, true);
    assert!(first.write_config && !first.write_whitelist && !first.go_on);
    let later = init_files(true, false);
    assert!(!later.write_config && later.write_whitelist && later.go_on);
    let dirs = init_directories();
    assert_eq!(dirs.len(), 8);
    assert_eq!((dirs[0].as_str(), dirs[7].as_str()), ("ArlianAI", "logs/key_system"));
}

#[test]
fn journal_lines() {
    assert_eq!(
        journal::journal_file("every_event", &clock()),
        "ArlianAI/logs/every_event_2026-08-06.log"
    );
    assert_eq!(journal::log_event("x", &clock()), "[2026-08-06 16:40:52.007] x");
    assert_eq!(
        journal::log_anomaly("1.2.3.4", 80, "d", &clock()),
        "[2026-08-06 16:40:52.007] ANOMALY IP=1.2.3.4 risk=80% d"
    );
    assert_eq!(
        journal::anomaly_notice("1.2.3.4", 80, "d"),
        "⚠️ ANOMALY / АНОМАЛИЯ 1.2.3.4: 80% - d"
    );
    assert_eq!(journal::decision_event("d"), "DECISION: d");
    assert_eq!(
        journal::sample_notice("fe80::1", &vec![80, 22], 5),
        "Образец fe80::1 (IPv6) : порты [80, 22] в 5ч"
    );
    assert_eq!(journal::kayoli_notice(30, 2), "KAYOLI: риск 30%, совпадений 2");
    assert_eq!(
        journal::analysis_notice("1.2.3.4", 70, "investigating", 3),
        "Анализ 1.2.3.4 (IPv4) : риск 70%, статус investigating, активностей: 3"
    );
    assert_eq!(
        journal::intel_notice("1.2.3.4", "high_risk", "d", 60),
        "INTEL: 1.2.3.4 - high_risk - d (риск 60%)"
    );
}
