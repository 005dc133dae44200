//! The commands that an operator can give.
use vstd::prelude::*;

use crate::text::{is_empty_text, parse_unsigned, same_text, unsigned_text, views};
use crate::words::{
    law_trimming_is_final, starts_with, starts_with_text, trim_text, trimmed, words, words_of,
};

verus! {

/// How many days a key is valid if no number is given.
pub const DEFAULT_DAYS: u32 = 30;

/// What an operator wants.
#[derive(Debug, Clone)]
pub enum Command {
    /// Nothing to do.
    Nothing,
    Help,
    Status,
    Stats,
    Keys,
    /// A new key, valid for so many days.
    GenKey(u32),
    /// Use of a key.
    Activate(String),
    Flood,
    Ddos,
    Banned,
    /// The end of a ban.
    Unban(String),
    Quit,
    /// A line that is no command.
    Unknown(String),
}

/// What an operator wants, as plain values.
pub ghost enum CommandModel {
    Nothing,
    Help,
    Status,
    Stats,
    Keys,
    GenKey(u32),
    Activate(Seq<char>),
    Flood,
    Ddos,
    Banned,
    Unban(Seq<char>),
    Quit,
    Unknown(Seq<char>),
}

impl View for Command {
    type V = CommandModel;

    open spec fn view(&self) -> CommandModel {
        match self {
            Command::Nothing => CommandModel::Nothing,
            Command::Help => CommandModel::Help,
            Command::Status => CommandModel::Status,
            Command::Stats => CommandModel::Stats,
            Command::Keys => CommandModel::Keys,
            Command::GenKey(days) => CommandModel::GenKey(*days),
            Command::Activate(key) => CommandModel::Activate(key@),
            Command::Flood => CommandModel::Flood,
            Command::Ddos => CommandModel::Ddos,
            Command::Banned => CommandModel::Banned,
            Command::Unban(ip) => CommandModel::Unban(ip@),
            Command::Quit => CommandModel::Quit,
            Command::Unknown(line) => CommandModel::Unknown(line@),
        }
    }
}

/// The number of days that a word gives.
pub open spec fn days_in(w: Seq<char>) -> u32 {
    match unsigned_text(w, u32::MAX as nat) {
        Some(n) => n as u32,
        None => DEFAULT_DAYS,
    }
}

/// What a line says. A command that lacks its argument does nothing; what a command with
/// an argument starts with is enough to recognise it.
pub open spec fn command_in(input: Seq<char>) -> CommandModel {
    let line = trimmed(input);
    let w = words(line);
    if line.len() == 0 {
        CommandModel::Nothing
    } else if line == "help"@ {
        CommandModel::Help
    } else if line == "status"@ {
        CommandModel::Status
    } else if line == "stats"@ {
        CommandModel::Stats
    } else if line == "keys"@ {
        CommandModel::Keys
    } else if starts_with(line, "genkey"@) {
        if w.len() >= 2 {
            CommandModel::GenKey(days_in(w[1]))
        } else {
            CommandModel::Nothing
        }
    } else if starts_with(line, "activate"@) {
        if w.len() >= 2 {
            CommandModel::Activate(w[1])
        } else {
            CommandModel::Nothing
        }
    } else if line == "flood"@ {
        CommandModel::Flood
    } else if line == "ddos"@ {
        CommandModel::Ddos
    } else if line == "banned"@ {
        CommandModel::Banned
    } else if starts_with(line, "unban"@) {
        if w.len() >= 2 {
            CommandModel::Unban(w[1])
        } else {
            CommandModel::Nothing
        }
    } else if line == "quit"@ || line == "exit"@ {
        CommandModel::Quit
    } else {
        CommandModel::Unknown(line)
    }
}

/// What a line says.
pub fn parse_command(input: &str) -> (r: Command)
    ensures
        r@ == command_in(input@),
{
    let text = trim_text(input);
    let line = text.as_str();
    if is_empty_text(line) {
        return Command::Nothing;
    }
    let parts = words_of(line);
    let ghost w = words(line@);
    assert(views(parts@).len() == w.len());
    assert(w.len() >= 2 ==> w[1] == parts@[1]@);
    if same_text(line, "help") {
        Command::Help
    } else if same_text(line, "status") {
        Command::Status
    } else if same_text(line, "stats") {
        Command::Stats
    } else if same_text(line, "keys") {
        Command::Keys
    } else if starts_with_text(line, "genkey") {
        if parts.len() >= 2 {
            match parse_unsigned(parts[1].as_str(), u32::MAX as u64) {
                Some(n) => Command::GenKey(n as u32),
                None => Command::GenKey(DEFAULT_DAYS),
            }
        } else {
            Command::Nothing
        }
    } else if starts_with_text(line, "activate") {
        if parts.len() >= 2 {
            Command::Activate(parts[1].as_str().to_owned())
        } else {
            Command::Nothing
        }
    } else if same_text(line, "flood") {
        Command::Flood
    } else if same_text(line, "ddos") {
        Command::Ddos
    } else if same_text(line, "banned") {
        Command::Banned
    } else if starts_with_text(line, "unban") {
        if parts.len() >= 2 {
            Command::Unban(parts[1].as_str().to_owned())
        } else {
            Command::Nothing
        }
    } else if same_text(line, "quit") || same_text(line, "exit") {
        Command::Quit
    } else {
        Command::Unknown(line.to_owned())
    }
}

/// White space around a line changes nothing about what it says.
pub proof fn law_surrounding_space_is_ignored(input: Seq<char>)
    ensures
        command_in(trimmed(input)) == command_in(input),
{
    law_trimming_is_final(input);
}

/// The words that stand alone are commands as they are; any text around them but white space
/// makes another line of it.
pub proof fn law_plain_commands(input: Seq<char>)
    ensures
        trimmed(input) == "help"@ ==> command_in(input) is Help,
        trimmed(input) == "status"@ ==> command_in(input) is Status,
        trimmed(input) == "stats"@ ==> command_in(input) is Stats,
        trimmed(input) == "keys"@ ==> command_in(input) is Keys,
        trimmed(input) == "flood"@ ==> command_in(input) is Flood,
        trimmed(input) == "ddos"@ ==> command_in(input) is Ddos,
        trimmed(input) == "banned"@ ==> command_in(input) is Banned,
        trimmed(input) == "quit"@ || trimmed(input) == "exit"@ ==> command_in(input) is Quit,
        trimmed(input).len() == 0 ==> command_in(input) is Nothing,
        command_in(input) is Help ==> trimmed(input) == "help"@,
        command_in(input) is Status ==> trimmed(input) == "status"@,
        command_in(input) is Stats ==> trimmed(input) == "stats"@,
        command_in(input) is Keys ==> trimmed(input) == "keys"@,
        command_in(input) is Flood ==> trimmed(input) == "flood"@,
        command_in(input) is Ddos ==> trimmed(input) == "ddos"@,
        command_in(input) is Banned ==> trimmed(input) == "banned"@,
        command_in(input) is Quit ==> trimmed(input) == "quit"@ || trimmed(input) == "exit"@,
        command_in(input) matches CommandModel::Unknown(line) ==> line == trimmed(input),
{
    lemma_commands_differ(trimmed(input));
}

proof fn lemma_commands_differ(line: Seq<char>)
    ensures
        line.len() > 0 ==> line[0] != 'g' ==> !starts_with(line, "genkey"@),
        line.len() > 0 ==> line[0] != 'a' ==> !starts_with(line, "activate"@),
        line.len() > 0 ==> line[0] != 'u' ==> !starts_with(line, "unban"@),
        "help"@.len() == 4 && "help"@[0] == 'h',
        "status"@.len() == 6 && "status"@[0] == 's',
        "stats"@.len() == 5 && "stats"@[0] == 's',
        "keys"@.len() == 4 && "keys"@[0] == 'k',
        "flood"@.len() == 5 && "flood"@[0] == 'f',
        "ddos"@.len() == 4 && "ddos"@[0] == 'd',
        "banned"@.len() == 6 && "banned"@[0] == 'b',
        "quit"@.len() == 4 && "quit"@[0] == 'q',
        "exit"@.len() == 4 && "exit"@[0] == 'e',
{
    reveal_strlit("genkey");
    reveal_strlit("activate");
    reveal_strlit("unban");
    reveal_strlit("help");
    reveal_strlit("status");
    reveal_strlit("stats");
    reveal_strlit("keys");
    reveal_strlit("flood");
    reveal_strlit("ddos");
    reveal_strlit("banned");
    reveal_strlit("quit");
    reveal_strlit("exit");
    if starts_with(line, "genkey"@) {
        assert(line.subrange(0, 6)[0] == 'g');
    }
    if starts_with(line, "activate"@) {
        assert(line.subrange(0, 8)[0] == 'a');
    }
    if starts_with(line, "unban"@) {
        assert(line.subrange(0, 5)[0] == 'u');
    }
}

/// A line that starts with "genkey", "activate" or "unban" wants a second word, and does
/// nothing without one. The days of a key are a number, or thirty where the word is none.
pub proof fn law_commands_with_a_word(input: Seq<char>)
    ensures
        ({
            let line = trimmed(input);
            let w = words(line);
            let c = command_in(input);
            &&& starts_with(line, "genkey"@) && w.len() < 2 ==> c is Nothing
            &&& starts_with(line, "activate"@) && w.len() < 2 ==> c is Nothing
            &&& starts_with(line, "unban"@) && w.len() < 2 ==> c is Nothing
            &&& starts_with(line, "genkey"@) && w.len() >= 2 ==> (match unsigned_text(
                w[1],
                4_294_967_295,
            ) {
                Some(n) => c matches CommandModel::GenKey(days) && days == n,
                None => c == CommandModel::GenKey(30),
            })
            &&& starts_with(line, "activate"@) && w.len() >= 2 ==> c == CommandModel::Activate(w[1])
            &&& starts_with(line, "unban"@) && w.len() >= 2 ==> c == CommandModel::Unban(w[1])
        }),
{
    let line = trimmed(input);
    lemma_commands_differ(line);
    reveal_strlit("genkey");
    reveal_strlit("activate");
    reveal_strlit("unban");
    if starts_with(line, "genkey"@) {
        assert(line.subrange(0, 6)[0] == 'g');
    }
    if starts_with(line, "activate"@) {
        assert(line.subrange(0, 8)[0] == 'a');
    }
    if starts_with(line, "unban"@) {
        assert(line.subrange(0, 5)[0] == 'u');
    }
}

} // verus!
