//! Counters of a session.
use vstd::prelude::*;

use crate::antiflood::{bump, next_count};
use crate::text::{decimal, number_text, push_text, views, with_number};

verus! {

/// What happened in a session. Each counter starts over after its largest value.
#[derive(Debug, Clone, Copy, PartialEq, Eq, Structural)]
pub struct Metrics {
    pub total_scans: u64,
    pub total_rogue: u64,
    pub total_bans: u64,
    pub ipv4_scans: u64,
    pub ipv6_scans: u64,
}

/// What the report of a session says.
pub open spec fn session_report(m: Metrics) -> Seq<Seq<char>> {
    seq![
        "SESSION STATS / СТАТИСТИКА СЕССИИ:"@,
        "   Scans/Сканирований:  "@ + number_text(m.total_scans) + " (IPv4: "@ + number_text(
            m.ipv4_scans,
        ) + ", IPv6: "@ + number_text(m.ipv6_scans) + ")"@,
        "   Rogue found/Чужих найдено: "@ + number_text(m.total_rogue),
        "   Banned IP/Забанено IP:   "@ + number_text(m.total_bans),
    ]
}

impl Metrics {
    /// Nothing happened yet.
    pub fn new() -> (r: Self)
        ensures
            r == (Metrics {
                total_scans: 0,
                total_rogue: 0,
                total_bans: 0,
                ipv4_scans: 0,
                ipv6_scans: 0,
            }),
    {
        Metrics { total_scans: 0, total_rogue: 0, total_bans: 0, ipv4_scans: 0, ipv6_scans: 0 }
    }

    /// Counts a scan of the network.
    pub fn inc_scans(&mut self)
        ensures
            *final(self) == (Metrics { total_scans: bump(old(self).total_scans), ..*old(self) }),
    {
        self.total_scans = next_count(self.total_scans);
    }

    /// Counts a stranger's device.
    pub fn inc_rogue(&mut self)
        ensures
            *final(self) == (Metrics { total_rogue: bump(old(self).total_rogue), ..*old(self) }),
    {
        self.total_rogue = next_count(self.total_rogue);
    }

    /// Counts a ban.
    pub fn inc_bans(&mut self)
        ensures
            *final(self) == (Metrics { total_bans: bump(old(self).total_bans), ..*old(self) }),
    {
        self.total_bans = next_count(self.total_bans);
    }

    /// Counts a device that was found with IPv4.
    pub fn inc_ipv4(&mut self)
        ensures
            *final(self) == (Metrics { ipv4_scans: bump(old(self).ipv4_scans), ..*old(self) }),
    {
        self.ipv4_scans = next_count(self.ipv4_scans);
    }

    /// Counts a device that was found with IPv6.
    pub fn inc_ipv6(&mut self)
        ensures
            *final(self) == (Metrics { ipv6_scans: bump(old(self).ipv6_scans), ..*old(self) }),
    {
        self.ipv6_scans = next_count(self.ipv6_scans);
    }

    /// The lines of the report.
    pub fn print(&self) -> (r: Vec<String>)
        ensures
            views(r@) == session_report(*self),
    {
        let mut scans = with_number("   Scans/Сканирований:  ", self.total_scans);
        scans.append(" (IPv4: ");
        scans.append(decimal(self.ipv4_scans).as_str());
        scans.append(", IPv6: ");
        scans.append(decimal(self.ipv6_scans).as_str());
        scans.append(")");
        let mut out: Vec<String> = Vec::new();
        push_text(&mut out, "SESSION STATS / СТАТИСТИКА СЕССИИ:".to_owned());
        push_text(&mut out, scans);
        push_text(&mut out, with_number("   Rogue found/Чужих найдено: ", self.total_rogue));
        push_text(&mut out, with_number("   Banned IP/Забанено IP:   ", self.total_bans));
        assert(views(out@) =~= session_report(*self));
        out
    }
}

/// The report shows each count of the session.
pub proof fn law_session_report(m: Metrics)
    ensures
        ({
            let r = session_report(m);
            &&& r.len() == 4
            &&& r[1] == "   Scans/Сканирований:  "@ + number_text(m.total_scans) + " (IPv4: "@
                + number_text(m.ipv4_scans) + ", IPv6: "@ + number_text(m.ipv6_scans) + ")"@
            &&& r[2] == "   Rogue found/Чужих найдено: "@ + number_text(m.total_rogue)
            &&& r[3] == "   Banned IP/Забанено IP:   "@ + number_text(m.total_bans)
        }),
{
}

} // verus!
