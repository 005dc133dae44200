//! The rows that are written to the database.
use vstd::prelude::*;

use crate::antiflood::{ip_type, ip_type_of};
use crate::clock::{WallClock, SECONDS_PATTERN};
use crate::detector::{HackerProfile, ProfileModel};
use crate::text::{dec, views};
use crate::words::{joined, number_texts, widened};

verus! {

/// The JSON text of a list of strings.
pub uninterp spec fn json_texts(v: Seq<Seq<char>>) -> Seq<char>;

/// The JSON text of a list of ports: the numbers in square brackets, with commas between
/// them.
pub open spec fn json_ports(v: Seq<u16>) -> Seq<char> {
    "["@ + joined(number_texts(widened(v)), ","@) + "]"@
}

/// `serde_json::to_string` of a list of ports.
#[verifier::external_body]
fn ports_to_json(v: &Vec<u16>) -> (r: String)
    ensures
        r@ == json_ports(v@),
{
    serde_json::to_string(v).unwrap_or_default()
}

/// `serde_json::to_string` of a list of strings. How characters are escaped is left to
/// the crate.
#[verifier::external_body]
fn texts_to_json(v: &Vec<String>) -> (r: String)
    ensures
        r@ == json_texts(views(v@)),
{
    serde_json::to_string(v).unwrap_or_default()
}

/// A row of the table of profiles.
#[derive(Debug, Clone)]
pub struct ProfileRow {
    pub ip: String,
    pub ip_type: String,
    pub mac: String,
    pub first_seen: String,
    pub last_seen: String,
    pub attack_count: u32,
    pub scanned_ports: String,
    pub suspicious_activities: String,
    pub risk_score: u8,
    pub status: String,
    pub warning_count: u32,
}

/// A row of the table of bans.
#[derive(Debug, Clone)]
pub struct BanRow {
    pub ip: String,
    pub ip_type: String,
    pub mac: String,
    pub reason: String,
    pub banned_at: String,
}

/// What a row of the table of profiles says.
pub ghost struct ProfileRowModel {
    pub ip: Seq<char>,
    pub ip_type: Seq<char>,
    pub mac: Seq<char>,
    pub first_seen: Seq<char>,
    pub last_seen: Seq<char>,
    pub attack_count: u32,
    pub scanned_ports: Seq<char>,
    pub suspicious_activities: Seq<char>,
    pub risk_score: nat,
    pub status: Seq<char>,
    pub warning_count: u32,
}

/// What a row of the table of bans says.
pub ghost struct BanRowModel {
    pub ip: Seq<char>,
    pub ip_type: Seq<char>,
    pub mac: Seq<char>,
    pub reason: Seq<char>,
    pub banned_at: Seq<char>,
}

impl View for ProfileRow {
    type V = ProfileRowModel;

    open spec fn view(&self) -> ProfileRowModel {
        ProfileRowModel {
            ip: self.ip@,
            ip_type: self.ip_type@,
            mac: self.mac@,
            first_seen: self.first_seen@,
            last_seen: self.last_seen@,
            attack_count: self.attack_count,
            scanned_ports: self.scanned_ports@,
            suspicious_activities: self.suspicious_activities@,
            risk_score: self.risk_score as nat,
            status: self.status@,
            warning_count: self.warning_count,
        }
    }
}

impl View for BanRow {
    type V = BanRowModel;

    open spec fn view(&self) -> BanRowModel {
        BanRowModel {
            ip: self.ip@,
            ip_type: self.ip_type@,
            mac: self.mac@,
            reason: self.reason@,
            banned_at: self.banned_at@,
        }
    }
}

/// The row of a profile.
pub open spec fn profile_row(p: ProfileModel) -> ProfileRowModel {
    ProfileRowModel {
        ip: p.ip,
        ip_type: p.ip_type,
        mac: mac_or_unknown(p.mac),
        first_seen: p.first_seen,
        last_seen: p.last_seen,
        attack_count: p.attack_count,
        scanned_ports: json_ports(p.scanned_ports),
        suspicious_activities: json_texts(p.suspicious_activities),
        risk_score: p.risk_score,
        status: p.status,
        warning_count: p.warning_count,
    }
}

/// The row of a ban.
pub open spec fn ban_row(
    ip: Seq<char>,
    mac: Option<Seq<char>>,
    reason: Seq<char>,
    clock: WallClock,
) -> BanRowModel {
    BanRowModel {
        ip,
        ip_type: ip_type_of(ip),
        mac: mac_or_unknown(mac),
        reason,
        banned_at: clock.text(SECONDS_PATTERN@),
    }
}

/// The hardware address, or a word in its place.
pub open spec fn mac_or_unknown(mac: Option<Seq<char>>) -> Seq<char> {
    match mac {
        Some(t) => t,
        None => "unknown"@,
    }
}

fn mac_text(mac: &Option<String>) -> (r: String)
    ensures
        r@ == mac_or_unknown(
            match *mac {
                Some(t) => Some(t@),
                None => None,
            },
        ),
{
    match mac {
        Some(t) => t.as_str().to_owned(),
        None => "unknown".to_owned(),
    }
}

/// The row of a profile.
pub fn save_hacker_profile(profile: &HackerProfile) -> (r: ProfileRow)
    ensures
        r@ == profile_row(profile@),
{
    ProfileRow {
        ip: profile.ip.as_str().to_owned(),
        ip_type: profile.ip_type.as_str().to_owned(),
        mac: mac_text(&profile.mac),
        first_seen: profile.first_seen.as_str().to_owned(),
        last_seen: profile.last_seen.as_str().to_owned(),
        attack_count: profile.attack_count,
        scanned_ports: ports_to_json(&profile.scanned_ports),
        suspicious_activities: texts_to_json(&profile.suspicious_activities),
        risk_score: profile.risk_score,
        status: profile.status.as_str().to_owned(),
        warning_count: profile.warning_count,
    }
}

/// The row of a ban.
pub fn log_ban_to_db(ip: &str, mac: &Option<String>, reason: &str, clock: &WallClock) -> (r: BanRow)
    requires
        clock.wf(),
    ensures
        r@ == ban_row(
            ip@,
            match *mac {
                Some(t) => Some(t@),
                None => None,
            },
            reason@,
            *clock,
        ),
{
    BanRow {
        ip: ip.to_owned(),
        ip_type: ip_type(ip),
        mac: mac_text(mac),
        reason: reason.to_owned(),
        banned_at: clock.format(SECONDS_PATTERN),
    }
}

/// A row of a profile says what the profile says; without a MAC it is "unknown".
pub proof fn law_rows_say_what_is_known(
    p: ProfileModel,
    ip: Seq<char>,
    mac: Option<Seq<char>>,
    reason: Seq<char>,
    clock: WallClock,
)
    ensures
        ({
            let r = profile_row(p);
            &&& r.ip == p.ip && r.ip_type == p.ip_type && r.first_seen == p.first_seen
                && r.last_seen == p.last_seen && r.attack_count == p.attack_count && r.risk_score
                == p.risk_score && r.status == p.status && r.warning_count == p.warning_count
            &&& r.scanned_ports == json_ports(p.scanned_ports) && r.suspicious_activities
                == json_texts(p.suspicious_activities)
            &&& p.mac is Some ==> r.mac == p.mac->0
            &&& p.mac is None ==> r.mac == "unknown"@
        }),
        ({
            let r = ban_row(ip, mac, reason, clock);
            &&& r.ip == ip && r.reason == reason && r.banned_at == clock.text(
                "%Y-%m-%d %H:%M:%S"@,
            )
            &&& ip.contains(':') ==> r.ip_type == "IPv6"@
            &&& !ip.contains(':') ==> r.ip_type == "IPv4"@
            &&& mac is Some ==> r.mac == mac->0
            &&& mac is None ==> r.mac == "unknown"@
        }),
{
}

/// Ports in a row stand in square brackets with commas between them and no spaces.
pub proof fn law_ports_in_a_row(v: Seq<u16>, port: u16)
    ensures
        json_ports(Seq::empty()) == "[]"@,
        json_ports(seq![port]) == "["@ + dec(port as nat) + "]"@,
        v.len() > 0 ==> json_ports(v.push(port)) == json_ports(v).drop_last() + ","@ + dec(
            port as nat,
        ) + "]"@,
{
    reveal_strlit("[]");
    reveal_strlit("[");
    reveal_strlit("]");
    assert(number_texts(widened(Seq::<u16>::empty())) =~= Seq::<Seq<char>>::empty());
    assert(json_ports(Seq::empty()) =~= "[]"@);
    assert(number_texts(widened(seq![port])) =~= seq![dec(port as nat)]);
    let before = number_texts(widened(v));
    assert(number_texts(widened(v.push(port))) =~= before.push(dec(port as nat)));
    if v.len() > 0 {
        assert(before.push(dec(port as nat)).drop_last() =~= before);
        assert(json_ports(v).drop_last() =~= "["@ + joined(before, ","@));
        assert(json_ports(v.push(port)) =~= json_ports(v).drop_last() + ","@ + dec(port as nat)
            + "]"@);
    }
}

} // verus!
