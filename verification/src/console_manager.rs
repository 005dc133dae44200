//! A console with windows of its own: where messages go, how the monitor window is
//! opened, and what the status shows.
use vstd::prelude::*;

use crate::clock::{WallClock, DATE_PATTERN, MILLIS_PATTERN};
use crate::text::{
    chars_of, decimal, number_text, parse_unsigned, push_text, unsigned_text, views, with_number,
    with_text,
};
use crate::words::{words, words_of};

verus! {

/// How important a message is.
#[derive(Debug, Clone, Copy, PartialEq, Eq, Structural)]
pub enum LogLevel {
    Error,
    Warn,
    Info,
    Success,
    Debug,
}

/// Where a message goes.
#[derive(Debug, Clone, Copy, PartialEq, Eq, Structural)]
pub enum LogTarget {
    /// The main console.
    Main,
    /// The monitor window.
    Monitor,
    /// The key system.
    KeySystem,
    /// Security.
    Security,
}

/// The systems that a monitor window can be opened on.
#[derive(Debug, Clone, Copy, PartialEq, Eq, Structural)]
pub enum Platform {
    Linux,
    MacOs,
    Windows,
}

/// The name of a level.
pub open spec fn level_name(level: LogLevel) -> Seq<char> {
    match level {
        LogLevel::Error => "error"@,
        LogLevel::Warn => "warn"@,
        LogLevel::Info => "info"@,
        LogLevel::Success => "success"@,
        LogLevel::Debug => "debug"@,
    }
}

/// The line that a message is written as.
pub open spec fn message_line(time: Seq<char>, level: LogLevel, message: Seq<char>) -> Seq<char> {
    "["@ + time + "] ["@ + level_name(level) + "] "@ + message
}

/// What the console knows: where its logs are, the file of the main log, and the process
/// of the monitor window.
pub ghost struct ConsoleModel {
    pub log_dir: Seq<char>,
    pub main_log: Seq<char>,
    pub monitor_pid: Option<u32>,
}

/// The file that a message goes to.
pub open spec fn target_file(m: ConsoleModel, target: LogTarget) -> Seq<char> {
    match target {
        LogTarget::Main => m.main_log,
        LogTarget::Monitor => m.log_dir + "/monitor/arlian_monitor.log"@,
        LogTarget::KeySystem => m.log_dir + "/keys/keys.log"@,
        LogTarget::Security => m.log_dir + "/security/security.log"@,
    }
}

/// Whether a message is also shown.
pub open spec fn is_shown(target: LogTarget) -> bool {
    target == LogTarget::Main || target == LogTarget::Monitor
}

/// A text with backslashes for slashes.
pub open spec fn backslashed(s: Seq<char>) -> Seq<char> {
    s.map_values(
        |c: char|
            if c == '/' {
                '\\'
            } else {
                c
            },
    )
}

/// The command that opens the monitor window.
pub open spec fn monitor_command_of(dir: Seq<char>, platform: Platform) -> Seq<Seq<char>> {
    match platform {
        Platform::Linux => seq![
            "gnome-terminal"@,
            "--"@,
            "bash"@,
            "-c"@,
            "echo '🖥️ ARLIAN MONITOR v1.0' && tail -f "@ + dir
                + "/monitor/arlian_monitor.log & exec bash"@,
        ],
        Platform::MacOs => seq![
            "osascript"@,
            "-e"@,
            "tell application \"Terminal\" to do script \"tail -f "@ + dir
                + "/monitor/arlian_monitor.log\""@,
        ],
        Platform::Windows => seq![
            "cmd"@,
            "/C"@,
            "start"@,
            "cmd"@,
            "/K"@,
            "type "@ + backslashed(dir) + "\\monitor\\arlian_monitor.log"@,
        ],
    }
}

/// The command that opens the monitor window where the first one cannot be run.
pub open spec fn fallback_command_of(dir: Seq<char>) -> Seq<Seq<char>> {
    seq![
        "xterm"@,
        "-e"@,
        "bash"@,
        "-c"@,
        "echo '🖥️ ARLIAN MONITOR' && tail -f "@ + dir + "/monitor/arlian_monitor.log"@,
    ]
}

/// The script that shows the monitor.
pub open spec fn monitor_script_of(dir: Seq<char>) -> Seq<char> {
    "#!/bin/bash\n# ARLIAN Monitor Script\n\n\
    echo \"==========================================\"\n\
    echo \"🖥️  ARLIAN PERIMETER - MONITOR CONSOLE\"\n\
    echo \"==========================================\"\necho \"📁 Логи: "@
        + dir + "/monitor/\"\necho \"🔑 Система ключей: "@ + dir
        + "/keys/\"\necho \"==========================================\"\n\
        echo \"\"\necho \"Нажмите CTRL+C для выхода\"\n\n\
        # Отображаем последние логи\ntail -f "@
        + dir + "/monitor/arlian_monitor.log\n"@
}

/// The memory in use in megabytes, from what the system says in pages of four kilobytes;
/// zero if the number cannot be read, and nothing if there is none or it is too large.
pub open spec fn memory_in(content: Seq<char>) -> Option<nat> {
    let w = words(content);
    if w.len() == 0 {
        None
    } else {
        match unsigned_text(w[0], u64::MAX as nat) {
            Some(pages) => if pages * 4096 <= u64::MAX {
                Some(pages * 4096 / 1_048_576)
            } else {
                None
            },
            None => Some(0),
        }
    }
}

/// The lines on the directories of logs: those that are there, with the number of files.
pub open spec fn directory_lines(dirs: Seq<(String, usize)>) -> Seq<Seq<char>> {
    dirs.map_values(
        |d: (String, usize)| "   "@ + d.0@ + "/: "@ + number_text(d.1 as u64) + " файлов"@,
    )
}

/// A rule between parts of the status.
pub open spec fn rule() -> Seq<char> {
    "=================================================="@
}

/// What the status says.
pub open spec fn status_report(
    dirs: Seq<(String, usize)>,
    key_count: usize,
    memory: Option<u64>,
) -> Seq<Seq<char>> {
    seq![rule(), "📊 СТАТУС СИСТЕМЫ"@, rule(), "📁 Логи:"@] + directory_lines(dirs) + seq![
        "🔑 Система ключей:"@,
        "   Активных ключей: "@ + number_text(key_count as u64),
        "💾 Память:"@,
    ] + (match memory {
        Some(mb) => seq!["   Использовано: "@ + number_text(mb) + " MB"@],
        None => seq![],
    }) + seq![rule()]
}

/// A line to be added to a file, and whether it is shown.
#[derive(Debug, Clone)]
pub struct LogEntry {
    pub file: String,
    pub line: String,
    pub shown: bool,
}

/// A console with windows of its own.
pub struct ConsoleManager {
    log_dir: String,
    main_log: String,
    monitor_pid: Option<u32>,
}

impl View for ConsoleManager {
    type V = ConsoleModel;

    closed spec fn view(&self) -> ConsoleModel {
        ConsoleModel {
            log_dir: self.log_dir@,
            main_log: self.main_log@,
            monitor_pid: self.monitor_pid,
        }
    }
}

/// The line that a message is written as.
pub fn compose_line(time: &str, level: LogLevel, message: &str) -> (r: String)
    ensures
        r@ == message_line(time@, level, message@),
{
    let mut line = "[".to_owned();
    line.append(time);
    line.append("] [");
    line.append(level_text(level));
    line.append("] ");
    line.append(message);
    line
}

fn level_text(level: LogLevel) -> (r: &'static str)
    ensures
        r@ == level_name(level),
{
    match level {
        LogLevel::Error => "error",
        LogLevel::Warn => "warn",
        LogLevel::Info => "info",
        LogLevel::Success => "success",
        LogLevel::Debug => "debug",
    }
}

fn with_backslashes(s: &str) -> (r: String)
    ensures
        r@ == backslashed(s@),
{
    let cs = chars_of(s);
    let mut out = String::new();
    let mut i: usize = 0;
    assert(out@ =~= backslashed(s@).take(0));
    while i < cs.len()
        invariant
            i <= cs.len(),
            cs@ == s@,
            out@ == backslashed(s@).take(i as int),
        decreases cs.len() - i,
    {
        if cs[i] == '/' {
            out.push('\\');
        } else {
            out.push(cs[i]);
        }
        i += 1;
        assert(out@ =~= backslashed(s@).take(i as int));
    }
    assert(out@ =~= backslashed(s@));
    out
}

/// The directories that the console needs.
pub fn log_directories() -> (r: Vec<String>)
    ensures
        views(r@) == seq!["logs/main"@, "logs/monitor"@, "logs/keys"@, "logs/security"@],
{
    let mut out: Vec<String> = Vec::new();
    push_text(&mut out, "logs/main".to_owned());
    push_text(&mut out, "logs/monitor".to_owned());
    push_text(&mut out, "logs/keys".to_owned());
    push_text(&mut out, "logs/security".to_owned());
    assert(views(out@) =~= seq!["logs/main"@, "logs/monitor"@, "logs/keys"@, "logs/security"@]);
    out
}

impl ConsoleManager {
    /// A console whose main log is that of the day.
    pub fn new(clock: &WallClock) -> (r: Self)
        requires
            clock.wf(),
        ensures
            r@ == (ConsoleModel {
                log_dir: "logs"@,
                main_log: "logs/main/arlian_"@ + clock.text(DATE_PATTERN@) + ".log"@,
                monitor_pid: None,
            }),
    {
        let mut main_log = "logs/main/arlian_".to_owned();
        main_log.append(clock.format(DATE_PATTERN).as_str());
        main_log.append(".log");
        ConsoleManager { log_dir: "logs".to_owned(), main_log, monitor_pid: None }
    }

    /// The command that opens the monitor window.
    pub fn launch_monitor_console(&self, platform: Platform) -> (r: Vec<String>)
        ensures
            views(r@) == monitor_command_of(self@.log_dir, platform),
    {
        let mut out: Vec<String> = Vec::new();
        match platform {
            Platform::Linux => {
                let mut s = with_text(
                    "echo '🖥️ ARLIAN MONITOR v1.0' && tail -f ",
                    self.log_dir.as_str(),
                );
                s.append("/monitor/arlian_monitor.log & exec bash");
                push_text(&mut out, "gnome-terminal".to_owned());
                push_text(&mut out, "--".to_owned());
                push_text(&mut out, "bash".to_owned());
                push_text(&mut out, "-c".to_owned());
                push_text(&mut out, s);
            },
            Platform::MacOs => {
                let mut s = with_text(
                    "tell application \"Terminal\" to do script \"tail -f ",
                    self.log_dir.as_str(),
                );
                s.append("/monitor/arlian_monitor.log\"");
                push_text(&mut out, "osascript".to_owned());
                push_text(&mut out, "-e".to_owned());
                push_text(&mut out, s);
            },
            Platform::Windows => {
                let mut s = with_text("type ", with_backslashes(self.log_dir.as_str()).as_str());
                s.append("\\monitor\\arlian_monitor.log");
                push_text(&mut out, "cmd".to_owned());
                push_text(&mut out, "/C".to_owned());
                push_text(&mut out, "start".to_owned());
                push_text(&mut out, "cmd".to_owned());
                push_text(&mut out, "/K".to_owned());
                push_text(&mut out, s);
            },
        }
        assert(views(out@) =~= monitor_command_of(self@.log_dir, platform));
        out
    }

    /// The command that opens the monitor window where the first one cannot be run.
    pub fn launch_xterm(&self) -> (r: Vec<String>)
        ensures
            views(r@) == fallback_command_of(self@.log_dir),
    {
        let mut s = with_text("echo '🖥️ ARLIAN MONITOR' && tail -f ", self.log_dir.as_str());
        s.append("/monitor/arlian_monitor.log");
        let mut out: Vec<String> = Vec::new();
        push_text(&mut out, "xterm".to_owned());
        push_text(&mut out, "-e".to_owned());
        push_text(&mut out, "bash".to_owned());
        push_text(&mut out, "-c".to_owned());
        push_text(&mut out, s);
        assert(views(out@) =~= fallback_command_of(self@.log_dir));
        out
    }

    /// Notes the process of the monitor window; the lines tell of it.
    pub fn monitor_launched(&mut self, pid: u32) -> (r: Vec<String>)
        ensures
            final(self)@ == (ConsoleModel { monitor_pid: Some(pid), ..old(self)@ }),
            views(r@) == seq![
                "✅ Мониторинг-консоль запущена (PID: "@ + number_text(pid as u64) + ")"@,
                "📁 Логи: "@ + old(self)@.log_dir + "/monitor/arlian_monitor.log"@,
            ],
    {
        self.monitor_pid = Some(pid);
        let mut first = with_number("✅ Мониторинг-консоль запущена (PID: ", pid as u64);
        first.append(")");
        let mut second = with_text("📁 Логи: ", self.log_dir.as_str());
        second.append("/monitor/arlian_monitor.log");
        let ghost a = first@;
        let ghost b = second@;
        let mut out: Vec<String> = Vec::new();
        push_text(&mut out, first);
        push_text(&mut out, second);
        assert(views(out@) =~= seq![a, b]);
        out
    }

    /// The script that shows the monitor.
    pub fn create_monitor_script(&self) -> (r: String)
        ensures
            r@ == monitor_script_of(self@.log_dir),
    {
        let dir = self.log_dir.as_str();
        let mut s =
            "#!/bin/bash\n# ARLIAN Monitor Script\n\n\
            echo \"==========================================\"\n\
            echo \"🖥️  ARLIAN PERIMETER - MONITOR CONSOLE\"\n\
            echo \"==========================================\"\n\
            echo \"📁 Логи: ".to_owned();
        s.append(dir);
        s.append("/monitor/\"\necho \"🔑 Система ключей: ");
        s.append(dir);
        s.append(
            "/keys/\"\necho \"==========================================\"\n\
            echo \"\"\necho \"Нажмите CTRL+C для выхода\"\n\n\
            # Отображаем последние логи\ntail -f ",
        );
        s.append(dir);
        s.append("/monitor/arlian_monitor.log\n");
        s
    }

    /// What is written of a message, where, and whether it is shown.
    pub fn log(&self, target: LogTarget, level: LogLevel, message: &str, clock: &WallClock) -> (r:
        LogEntry)
        requires
            clock.wf(),
        ensures
            r.file@ == target_file(self@, target),
            r.line@ == message_line(clock.text(MILLIS_PATTERN@), level, message@),
            r.shown == is_shown(target),
    {
        let line = compose_line(clock.format(MILLIS_PATTERN).as_str(), level, message);
        let dir = self.log_dir.as_str();
        match target {
            LogTarget::Main => LogEntry {
                file: self.main_log.as_str().to_owned(),
                line,
                shown: true,
            },
            LogTarget::Monitor => LogEntry {
                file: with_text(dir, "/monitor/arlian_monitor.log"),
                line,
                shown: true,
            },
            LogTarget::KeySystem => LogEntry {
                file: with_text(dir, "/keys/keys.log"),
                line,
                shown: false,
            },
            LogTarget::Security => LogEntry {
                file: with_text(dir, "/security/security.log"),
                line,
                shown: false,
            },
        }
    }

    /// The lines of the status, given the directories of logs that are there with the
    /// number of their files, the number of keys, and the memory in use if it is known.
    pub fn show_status(
        &self,
        dirs: &Vec<(String, usize)>,
        key_count: usize,
        memory: Option<u64>,
    ) -> (r: Vec<String>)
        ensures
            views(r@) == status_report(dirs@, key_count, memory),
    {
        let mut out: Vec<String> = Vec::new();
        push_text(&mut out, "==================================================".to_owned());
        push_text(&mut out, "📊 СТАТУС СИСТЕМЫ".to_owned());
        push_text(&mut out, "==================================================".to_owned());
        push_text(&mut out, "📁 Логи:".to_owned());
        let ghost head = views(out@);
        let ghost rows = directory_lines(dirs@);
        assert(head =~= seq![rule(), "📊 СТАТУС СИСТЕМЫ"@, rule(), "📁 Логи:"@]);
        let mut i: usize = 0;
        assert(head =~= head + rows.take(0));
        while i < dirs.len()
            invariant
                i <= dirs.len(),
                rows == directory_lines(dirs@),
                views(out@) == head + rows.take(i as int),
            decreases dirs.len() - i,
        {
            let mut s = with_text("   ", dirs[i].0.as_str());
            s.append("/: ");
            s.append(decimal(dirs[i].1 as u64).as_str());
            s.append(" файлов");
            push_text(&mut out, s);
            i += 1;
            assert(views(out@) =~= head + rows.take(i as int));
        }
        assert(rows.take(i as int) =~= rows);
        push_text(&mut out, "🔑 Система ключей:".to_owned());
        push_text(&mut out, with_number("   Активных ключей: ", key_count as u64));
        push_text(&mut out, "💾 Память:".to_owned());
        if let Some(mb) = memory {
            let mut s = with_number("   Использовано: ", mb);
            s.append(" MB");
            push_text(&mut out, s);
        }
        push_text(&mut out, "==================================================".to_owned());
        assert(views(out@) =~= status_report(dirs@, key_count, memory));
        out
    }
}

/// The memory in use in megabytes, from what the system says of it.
pub fn get_memory_stats(content: &str) -> (r: Option<u64>)
    ensures
        match r {
            Some(mb) => memory_in(content@) == Some(mb as nat),
            None => memory_in(content@) is None,
        },
{
    let parts = words_of(content);
    let ghost w = words(content@);
    assert(views(parts@).len() == w.len());
    if parts.len() == 0 {
        return None;
    }
    assert(views(parts@)[0] == parts@[0]@);
    match parse_unsigned(parts[0].as_str(), u64::MAX) {
        Some(pages) => {
            if pages <= u64::MAX / 4096 {
                Some(pages * 4096 / 1_048_576)
            } else {
                None
            }
        },
        None => Some(0),
    }
}

// ---------------------------------------------------------------------------
// Laws
// ---------------------------------------------------------------------------

/// A message is written to the file of its target; those of the main console and of the
/// monitor are also shown, those of the keys and of security are not.
pub proof fn law_targets(m: ConsoleModel)
    ensures
        target_file(m, LogTarget::Main) == m.main_log,
        target_file(m, LogTarget::Monitor) == m.log_dir + "/monitor/arlian_monitor.log"@,
        target_file(m, LogTarget::KeySystem) == m.log_dir + "/keys/keys.log"@,
        target_file(m, LogTarget::Security) == m.log_dir + "/security/security.log"@,
        is_shown(LogTarget::Main) && is_shown(LogTarget::Monitor),
        !is_shown(LogTarget::KeySystem) && !is_shown(LogTarget::Security),
{
}

/// The line of a message: its time and its level in square brackets, and the message.
pub proof fn law_message_lines(time: Seq<char>, message: Seq<char>)
    ensures
        message_line(time, LogLevel::Error, message) == "["@ + time + "] ["@ + "error"@ + "] "@
            + message,
        message_line(time, LogLevel::Warn, message) == "["@ + time + "] ["@ + "warn"@ + "] "@
            + message,
        message_line(time, LogLevel::Info, message) == "["@ + time + "] ["@ + "info"@ + "] "@
            + message,
        message_line(time, LogLevel::Success, message) == "["@ + time + "] ["@ + "success"@ + "] "@
            + message,
        message_line(time, LogLevel::Debug, message) == "["@ + time + "] ["@ + "debug"@ + "] "@
            + message,
{
}

/// The memory in use is the first number that the system says, in pages of four kilobytes:
/// 256 of them are a megabyte, and what is left over does not count. A word that is no
/// number counts as none, and an empty text says nothing.
pub proof fn law_memory(content: Seq<char>)
    ensures
        ({
            let w = words(content);
            let pages = unsigned_text(w[0], 18_446_744_073_709_551_615);
            &&& w.len() == 0 ==> memory_in(content) is None
            &&& w.len() > 0 && pages is None ==> memory_in(content) == Some(0nat)
            &&& w.len() > 0 && pages is Some && pages->0 <= 4_503_599_627_370_495 ==> memory_in(
                content,
            ) == Some(pages->0 / 256)
            &&& w.len() > 0 && pages is Some && pages->0 > 4_503_599_627_370_495 ==> memory_in(
                content,
            ) is None
        }),
{
}

/// The status lists each directory with the number of its files, then the keys, and then the
/// memory in use, where it is known.
pub proof fn law_status_lists_directories(
    dirs: Seq<(String, usize)>,
    key_count: usize,
    memory: Option<u64>,
    i: int,
)
    requires
        0 <= i < dirs.len(),
    ensures
        ({
            let r = status_report(dirs, key_count, memory);
            let n = dirs.len() as int;
            &&& r[4 + i] == "   "@ + dirs[i].0@ + "/: "@ + number_text(dirs[i].1 as u64)
                + " файлов"@
            &&& r[5 + n] == "   Активных ключей: "@ + number_text(key_count as u64)
            &&& memory is Some ==> r.len() == n + 9 && r[7 + n] == "   Использовано: "@
                + number_text(memory->0) + " MB"@
            &&& memory is None ==> r.len() == n + 8
        }),
{
}

/// A path for Windows has a backslash for each slash, and is else the same.
pub proof fn law_windows_paths(s: Seq<char>, i: int)
    requires
        0 <= i < s.len(),
    ensures
        backslashed(s).len() == s.len(),
        s[i] == '/' ==> backslashed(s)[i] == '\\',
        s[i] != '/' ==> backslashed(s)[i] == s[i],
{
}

} // verus!
