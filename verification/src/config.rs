//! The settings, and what they are unless others are given.
use vstd::prelude::*;

use crate::text::{push_text, views};

verus! {

/// The settings. The threshold of the anomaly score, a fraction, is kept by the caller.
#[derive(Debug, Clone)]
pub struct Config {
    pub network: String,
    pub scan_interval: u64,
    pub ban_real: bool,
    pub scan_timeout_ms: u64,
    pub max_concurrent_scans: usize,
    pub ai_learning_mode: bool,
    pub rate_limit_ms: u64,
    pub ip_protocol: String,
    pub enable_ipv6: bool,
    pub enable_ipv4: bool,
    pub syn_threshold: usize,
    pub ip_threshold: usize,
    pub udp_threshold: usize,
    pub icmp_threshold: usize,
    pub http_threshold: usize,
    pub ssh_threshold: usize,
    pub ddos_min_sources: usize,
    pub ban_duration_secs: u64,
    pub permanent_ban_after: u32,
    pub ipv6_max_hosts: usize,
}

impl Default for Config {
    fn default() -> (r: Self)
        ensures
            r.network@ == "192.168.1.0/24"@,
            r.scan_interval == 60,
            r.ban_real,
            r.scan_timeout_ms == 300,
            r.max_concurrent_scans == 100,
            r.ai_learning_mode,
            r.rate_limit_ms == 5000,
            r.ip_protocol@ == "both"@,
            r.enable_ipv6,
            r.enable_ipv4,
            r.syn_threshold == 100,
            r.ip_threshold == 200,
            r.udp_threshold == 150,
            r.icmp_threshold == 200,
            r.http_threshold == 500,
            r.ssh_threshold == 40,
            r.ddos_min_sources == 10,
            r.ban_duration_secs == 600,
            r.permanent_ban_after == 5,
            r.ipv6_max_hosts == 65536,
    {
        Config {
            network: "192.168.1.0/24".to_owned(),
            scan_interval: 60,
            ban_real: true,
            scan_timeout_ms: 300,
            max_concurrent_scans: 100,
            ai_learning_mode: true,
            rate_limit_ms: 5000,
            ip_protocol: "both".to_owned(),
            enable_ipv6: true,
            enable_ipv4: true,
            syn_threshold: 100,
            ip_threshold: 200,
            udp_threshold: 150,
            icmp_threshold: 200,
            http_threshold: 500,
            ssh_threshold: 40,
            ddos_min_sources: 10,
            ban_duration_secs: 600,
            permanent_ban_after: 5,
            ipv6_max_hosts: 65536,
        }
    }
}

impl Config {
    /// Whether bans take effect: not while the detector only learns.
    pub fn bans_take_effect(&self) -> (r: bool)
        ensures
            r == (self.ban_real && !self.ai_learning_mode),
    {
        self.ban_real && !self.ai_learning_mode
    }
}

/// What is to be done before the first scan.
#[derive(Debug, Clone, Copy, PartialEq, Eq, Structural)]
pub struct InitPlan {
    /// Whether the settings are to be written.
    pub write_config: bool,
    /// Whether the list of own devices is to be written.
    pub write_whitelist: bool,
    /// Whether the program goes on: not when the settings were written only now.
    pub go_on: bool,
}

/// What is to be done before the first scan, given which files are there.
pub fn init_files(config_exists: bool, whitelist_exists: bool) -> (r: InitPlan)
    ensures
        r == (InitPlan {
            write_config: !config_exists,
            write_whitelist: !whitelist_exists,
            go_on: config_exists,
        }),
{
    InitPlan {
        write_config: !config_exists,
        write_whitelist: !whitelist_exists,
        go_on: config_exists,
    }
}

/// The directories that the program needs.
pub fn init_directories() -> (r: Vec<String>)
    ensures
        views(r@) == seq![
            "ArlianAI"@,
            "ArlianAI/Kayoli"@,
            "ArlianAI/training_data"@,
            "ArlianAI/logs"@,
            "ArlianAI/models"@,
            "logs"@,
            "logs/monitor"@,
            "logs/key_system"@,
        ],
{
    let mut out: Vec<String> = Vec::new();
    push_text(&mut out, "ArlianAI".to_owned());
    push_text(&mut out, "ArlianAI/Kayoli".to_owned());
    push_text(&mut out, "ArlianAI/training_data".to_owned());
    push_text(&mut out, "ArlianAI/logs".to_owned());
    push_text(&mut out, "ArlianAI/models".to_owned());
    push_text(&mut out, "logs".to_owned());
    push_text(&mut out, "logs/monitor".to_owned());
    push_text(&mut out, "logs/key_system".to_owned());
    assert(views(out@) =~= seq![
        "ArlianAI"@,
        "ArlianAI/Kayoli"@,
        "ArlianAI/training_data"@,
        "ArlianAI/logs"@,
        "ArlianAI/models"@,
        "logs"@,
        "logs/monitor"@,
        "logs/key_system"@,
    ]);
    out
}

/// The devices that belong to the network.
#[derive(Debug, Clone)]
pub struct Whitelist {
    pub ips: Vec<String>,
    pub macs: Vec<String>,
    pub ipv6_prefixes: Vec<String>,
}

impl Default for Whitelist {
    fn default() -> (r: Self)
        ensures
            views(r.ips@) == seq!["192.168.1.1"@, "192.168.1.2"@, "fd00::1"@],
            views(r.macs@) == seq!["aa:bb:cc:dd:ee:ff"@],
            views(r.ipv6_prefixes@) == seq!["fd00::/64"@],
    {
        let mut ips: Vec<String> = Vec::new();
        push_text(&mut ips, "192.168.1.1".to_owned());
        push_text(&mut ips, "192.168.1.2".to_owned());
        push_text(&mut ips, "fd00::1".to_owned());
        let mut macs: Vec<String> = Vec::new();
        push_text(&mut macs, "aa:bb:cc:dd:ee:ff".to_owned());
        let mut ipv6_prefixes: Vec<String> = Vec::new();
        push_text(&mut ipv6_prefixes, "fd00::/64".to_owned());
        assert(views(ips@) =~= seq!["192.168.1.1"@, "192.168.1.2"@, "fd00::1"@]);
        assert(views(macs@) =~= seq!["aa:bb:cc:dd:ee:ff"@]);
        assert(views(ipv6_prefixes@) =~= seq!["fd00::/64"@]);
        Whitelist { ips, macs, ipv6_prefixes }
    }
}

} // verus!
