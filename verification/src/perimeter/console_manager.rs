//! The console of the perimeter program: where messages go, and what they look like.
use vstd::prelude::*;

use crate::clock::{WallClock, DATE_PATTERN, SECONDS_PATTERN};
use crate::text::{push_text, views, with_text};

verus! {

/// How important a message is.
#[derive(Debug, Clone, Copy, PartialEq, Eq, Structural)]
pub enum LogLevel {
    Info,
    Warn,
    Error,
    Success,
}

/// Where a message goes.
#[derive(Debug, Clone, Copy, PartialEq, Eq, Structural)]
pub enum LogTarget {
    Main,
    Monitor,
    KeySystem,
}

/// The name of a level.
pub open spec fn level_name(level: LogLevel) -> Seq<char> {
    match level {
        LogLevel::Info => "INFO"@,
        LogLevel::Warn => "WARN"@,
        LogLevel::Error => "ERROR"@,
        LogLevel::Success => "SUCCESS"@,
    }
}

/// The line that a message is written as.
pub open spec fn message_line(time: Seq<char>, level: LogLevel, message: Seq<char>) -> Seq<char> {
    "["@ + time + "] ["@ + level_name(level) + "] "@ + message
}

/// The file of the monitor on the day that the local clock shows.
pub open spec fn monitor_path(clock: WallClock) -> Seq<char> {
    "logs/monitor/monitor_"@ + clock.text(DATE_PATTERN@) + ".log"@
}

/// The file that a message goes to.
pub open spec fn target_file(target: LogTarget, monitor: Seq<char>) -> Seq<char> {
    match target {
        LogTarget::Main => "logs/main.log"@,
        LogTarget::Monitor => monitor,
        LogTarget::KeySystem => "logs/key_system/keys.log"@,
    }
}

/// What the status report says.
pub open spec fn status_report(monitoring: bool, clock: WallClock) -> Seq<Seq<char>> {
    seq![
        "SYSTEM STATUS / СИСТЕМНЫЙ СТАТУС"@,
        "  Console/Консоль: Active/Активна"@,
        "  Monitoring/Мониторинг: "@ + (if monitoring {
            "Active/Активен"@
        } else {
            "Not running/Не запущен"@
        }),
        "  Logs/Логи: logs/"@,
        "  Time/Время: "@ + clock.text(SECONDS_PATTERN@),
    ]
}

/// A line to be added to a file, and shown.
#[derive(Debug, Clone)]
pub struct LogEntry {
    pub file: String,
    pub line: String,
}

/// The console of the perimeter program.
pub struct ConsoleManager {
    monitor_file: String,
}

impl View for ConsoleManager {
    type V = Seq<char>;

    /// The file of the monitor.
    closed spec fn view(&self) -> Seq<char> {
        self.monitor_file@
    }
}

/// The line that a message is written as.
pub fn compose_line(time: &str, level: LogLevel, message: &str) -> (r: String)
    ensures
        r@ == message_line(time@, level, message@),
{
    let mut line = "[".to_owned();
    line.append(time);
    line.append("] [");
    line.append(level_text(level));
    line.append("] ");
    line.append(message);
    line
}

fn level_text(level: LogLevel) -> (r: &'static str)
    ensures
        r@ == level_name(level),
{
    match level {
        LogLevel::Info => "INFO",
        LogLevel::Warn => "WARN",
        LogLevel::Error => "ERROR",
        LogLevel::Success => "SUCCESS",
    }
}

impl ConsoleManager {
    /// A console whose monitor file is that of the day.
    pub fn new(clock: &WallClock) -> (r: Self)
        requires
            clock.wf(),
        ensures
            r@ == monitor_path(*clock),
    {
        let mut s = "logs/monitor/monitor_".to_owned();
        s.append(clock.format(DATE_PATTERN).as_str());
        s.append(".log");
        ConsoleManager { monitor_file: s }
    }

    /// The file of the monitor.
    pub fn monitor_file(&self) -> (r: &str)
        ensures
            r@ == self@,
    {
        self.monitor_file.as_str()
    }

    /// What the monitor file starts with.
    pub fn launch_monitor_console(&self, clock: &WallClock) -> (r: String)
        requires
            clock.wf(),
        ensures
            r@ == "=== MONITOR STARTED at "@ + clock.text(SECONDS_PATTERN@) + " ===\n"@,
    {
        let mut s = "=== MONITOR STARTED at ".to_owned();
        s.append(clock.format(SECONDS_PATTERN).as_str());
        s.append(" ===\n");
        s
    }

    /// What is written of a message, and where.
    pub fn log(&self, target: LogTarget, level: LogLevel, message: &str, clock: &WallClock) -> (r:
        LogEntry)
        requires
            clock.wf(),
        ensures
            r.file@ == target_file(target, self@),
            r.line@ == message_line(clock.text(SECONDS_PATTERN@), level, message@),
    {
        let line = compose_line(clock.format(SECONDS_PATTERN).as_str(), level, message);
        let file = match target {
            LogTarget::Main => "logs/main.log".to_owned(),
            LogTarget::Monitor => self.monitor_file.as_str().to_owned(),
            LogTarget::KeySystem => "logs/key_system/keys.log".to_owned(),
        };
        LogEntry { file, line }
    }

    /// The lines of the status report, given whether the monitor file is there.
    pub fn show_status(&self, monitoring: bool, clock: &WallClock) -> (r: Vec<String>)
        requires
            clock.wf(),
        ensures
            views(r@) == status_report(monitoring, *clock),
    {
        let state = if monitoring {
            "Active/Активен"
        } else {
            "Not running/Не запущен"
        };
        let mut out: Vec<String> = Vec::new();
        push_text(&mut out, "SYSTEM STATUS / СИСТЕМНЫЙ СТАТУС".to_owned());
        push_text(&mut out, "  Console/Консоль: Active/Активна".to_owned());
        push_text(&mut out, with_text("  Monitoring/Мониторинг: ", state));
        push_text(&mut out, "  Logs/Логи: logs/".to_owned());
        push_text(
            &mut out,
            with_text("  Time/Время: ", clock.format(SECONDS_PATTERN).as_str()),
        );
        assert(views(out@) =~= status_report(monitoring, *clock));
        out
    }
}

} // verus!
