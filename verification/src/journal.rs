//! The journals of the detector: their files, their lines, and the notices in them.
use vstd::prelude::*;

use crate::antiflood::{ip_type, ip_type_of};
use crate::clock::{WallClock, DATE_PATTERN, MILLIS_PATTERN};
use crate::text::{dec, decimal, log_line, number_text, stamped_line, with_number, with_text};
use crate::words::{list_text, list_to_text, widen, widened};

verus! {

/// The directory of the detector's journals.
pub const AI_LOGS_DIR: &'static str = "ArlianAI/logs";

/// The file of a journal on the day that the local clock shows.
pub open spec fn journal_path(name: Seq<char>, clock: WallClock) -> Seq<char> {
    "ArlianAI/logs/"@ + name + "_"@ + clock.text(DATE_PATTERN@) + ".log"@
}

/// The file of a journal on the day that the local clock shows.
pub fn journal_file(name: &str, clock: &WallClock) -> (r: String)
    requires
        clock.wf(),
    ensures
        r@ == journal_path(name@, *clock),
{
    let mut s = "ArlianAI/logs/".to_owned();
    s.append(name);
    s.append("_");
    s.append(clock.format(DATE_PATTERN).as_str());
    s.append(".log");
    s
}

/// The line of an event or a decision.
pub fn log_event(event: &str, clock: &WallClock) -> (r: String)
    requires
        clock.wf(),
    ensures
        r@ == log_line(clock.text(MILLIS_PATTERN@), event@),
{
    stamped_line(clock.format(MILLIS_PATTERN).as_str(), event)
}

/// What the journal of anomalies says of one.
pub open spec fn anomaly_entry(ip: Seq<char>, risk: u8, details: Seq<char>) -> Seq<char> {
    "ANOMALY IP="@ + ip + " risk="@ + number_text(risk as u64) + "% "@ + details
}

/// The line of an anomaly.
pub fn log_anomaly(ip: &str, risk: u8, details: &str, clock: &WallClock) -> (r: String)
    requires
        clock.wf(),
    ensures
        r@ == log_line(clock.text(MILLIS_PATTERN@), anomaly_entry(ip@, risk, details@)),
{
    let mut s = "ANOMALY IP=".to_owned();
    s.append(ip);
    s.append(" risk=");
    s.append(decimal(risk as u64).as_str());
    s.append("% ");
    s.append(details);
    stamped_line(clock.format(MILLIS_PATTERN).as_str(), s.as_str())
}

/// What is shown of an anomaly.
pub fn anomaly_notice(ip: &str, risk: u8, details: &str) -> (r: String)
    ensures
        r@ == "⚠️ ANOMALY / АНОМАЛИЯ "@ + ip@ + ": "@ + number_text(risk as u64) + "% - "@
            + details@,
{
    let mut s = "⚠️ ANOMALY / АНОМАЛИЯ ".to_owned();
    s.append(ip);
    s.append(": ");
    s.append(decimal(risk as u64).as_str());
    s.append("% - ");
    s.append(details);
    s
}

/// The event that a decision is.
pub fn decision_event(decision: &str) -> (r: String)
    ensures
        r@ == "DECISION: "@ + decision@,
{
    with_text("DECISION: ", decision)
}

/// The notice of a sample.
pub open spec fn sample_notice_of(ip: Seq<char>, ports: Seq<u16>, hour: u32) -> Seq<char> {
    "Образец "@ + ip + " ("@ + ip_type_of(ip) + ") : порты "@ + list_text(widened(ports)) + " в "@
        + dec(hour as nat) + "ч"@
}

/// The notice of a sample.
pub fn sample_notice(ip: &str, ports: &Vec<u16>, hour: u32) -> (r: String)
    ensures
        r@ == sample_notice_of(ip@, ports@, hour),
{
    let mut s = "Образец ".to_owned();
    s.append(ip);
    s.append(" (");
    s.append(ip_type(ip).as_str());
    s.append(") : порты ");
    s.append(list_to_text(&widen(ports)).as_str());
    s.append(" в ");
    s.append(decimal(hour as u64).as_str());
    s.append("ч");
    s
}

/// The notice of what the patterns found.
pub fn kayoli_notice(risk: u8, matches: usize) -> (r: String)
    ensures
        r@ == "KAYOLI: риск "@ + number_text(risk as u64) + "%, совпадений "@ + number_text(
            matches as u64,
        ),
{
    let mut s = with_number("KAYOLI: риск ", risk as u64);
    s.append("%, совпадений ");
    s.append(decimal(matches as u64).as_str());
    s
}

/// The notice of a judgement.
pub open spec fn analysis_notice_of(
    ip: Seq<char>,
    risk: u8,
    status: Seq<char>,
    activities: u64,
) -> Seq<char> {
    "Анализ "@ + ip + " ("@ + ip_type_of(ip) + ") : риск "@ + number_text(risk as u64)
        + "%, статус "@ + status + ", активностей: "@ + number_text(activities)
}

/// The notice of a judgement.
pub fn analysis_notice(ip: &str, risk: u8, status: &str, activities: usize) -> (r: String)
    ensures
        r@ == analysis_notice_of(ip@, risk, status@, activities as u64),
{
    let mut s = "Анализ ".to_owned();
    s.append(ip);
    s.append(" (");
    s.append(ip_type(ip).as_str());
    s.append(") : риск ");
    s.append(decimal(risk as u64).as_str());
    s.append("%, статус ");
    s.append(status);
    s.append(", активностей: ");
    s.append(decimal(activities as u64).as_str());
    s
}

/// The notice of a finding.
pub fn intel_notice(ip: &str, event_type: &str, details: &str, risk: u8) -> (r: String)
    ensures
        r@ == "INTEL: "@ + ip@ + " - "@ + event_type@ + " - "@ + details@ + " (риск "@ + number_text(
            risk as u64,
        ) + "%)"@,
{
    let mut s = "INTEL: ".to_owned();
    s.append(ip);
    s.append(" - ");
    s.append(event_type);
    s.append(" - ");
    s.append(details);
    s.append(" (риск ");
    s.append(decimal(risk as u64).as_str());
    s.append("%)");
    s
}

} // verus!
