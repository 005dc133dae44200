//! The firewall commands that a ban leads to. A command is a program and its arguments,
//! never a line for a shell.
use vstd::prelude::*;

use crate::text::{contains_char, push_text, views};

verus! {

/// What a list of commands says.
pub open spec fn command_views(v: Seq<Vec<String>>) -> Seq<Seq<Seq<char>>> {
    v.map_values(|c: Vec<String>| views(c@))
}

/// The firewall program for the protocol of an address.
pub open spec fn firewall_program(ip: Seq<char>) -> Seq<char> {
    if ip.contains(':') {
        "ip6tables"@
    } else {
        "iptables"@
    }
}

/// The command that adds a rule against an address to a chain.
pub open spec fn append_rule(ip: Seq<char>, chain: Seq<char>) -> Seq<Seq<char>> {
    seq![firewall_program(ip), "-A"@, chain, "-s"@, ip, "-j"@, "DROP"@]
}

/// The command that puts a rule against an address first.
pub open spec fn insert_rule(ip: Seq<char>) -> Seq<Seq<char>> {
    seq![firewall_program(ip), "-I"@, "INPUT"@, "1"@, "-s"@, ip, "-j"@, "DROP"@]
}

/// The commands that ban an address. A permanent ban comes before all other rules.
pub open spec fn ban_rules(ip: Seq<char>, permanent: bool) -> Seq<Seq<Seq<char>>> {
    let rules = seq![append_rule(ip, "INPUT"@), append_rule(ip, "FORWARD"@)];
    if permanent {
        rules.push(insert_rule(ip))
    } else {
        rules
    }
}

/// The rule of a packet filter against an address.
pub open spec fn filter_rule(ip: Seq<char>) -> Seq<char> {
    "block in quick from "@ + ip + " to any\n"@
}

fn program_of(ip: &str) -> (r: String)
    ensures
        r@ == firewall_program(ip@),
{
    if contains_char(ip, ':') {
        "ip6tables".to_owned()
    } else {
        "iptables".to_owned()
    }
}

fn append_command(ip: &str, chain: &str) -> (r: Vec<String>)
    ensures
        views(r@) == append_rule(ip@, chain@),
{
    let mut out: Vec<String> = Vec::new();
    push_text(&mut out, program_of(ip));
    push_text(&mut out, "-A".to_owned());
    push_text(&mut out, chain.to_owned());
    push_text(&mut out, "-s".to_owned());
    push_text(&mut out, ip.to_owned());
    push_text(&mut out, "-j".to_owned());
    push_text(&mut out, "DROP".to_owned());
    assert(views(out@) =~= append_rule(ip@, chain@));
    out
}

fn insert_command(ip: &str) -> (r: Vec<String>)
    ensures
        views(r@) == insert_rule(ip@),
{
    let mut out: Vec<String> = Vec::new();
    push_text(&mut out, program_of(ip));
    push_text(&mut out, "-I".to_owned());
    push_text(&mut out, "INPUT".to_owned());
    push_text(&mut out, "1".to_owned());
    push_text(&mut out, "-s".to_owned());
    push_text(&mut out, ip.to_owned());
    push_text(&mut out, "-j".to_owned());
    push_text(&mut out, "DROP".to_owned());
    assert(views(out@) =~= insert_rule(ip@));
    out
}

/// The commands that ban an address.
pub fn ban_commands(ip: &str, permanent: bool) -> (r: Vec<Vec<String>>)
    ensures
        command_views(r@) == ban_rules(ip@, permanent),
{
    let mut out: Vec<Vec<String>> = Vec::new();
    out.push(append_command(ip, "INPUT"));
    out.push(append_command(ip, "FORWARD"));
    if permanent {
        out.push(insert_command(ip));
    }
    assert(command_views(out@) =~= ban_rules(ip@, permanent));
    out
}

/// The rule of a packet filter against an address.
pub fn packet_filter_rule(ip: &str) -> (r: String)
    ensures
        r@ == filter_rule(ip@),
{
    let mut s = "block in quick from ".to_owned();
    s.append(ip);
    s.append(" to any\n");
    s
}

/// In every command the address is an argument of its own, as it was given.
pub proof fn law_address_is_one_argument(ip: Seq<char>, permanent: bool, i: int)
    requires
        0 <= i < ban_rules(ip, permanent).len(),
    ensures
        ban_rules(ip, permanent)[i].contains(ip),
{
    let c = ban_rules(ip, permanent)[i];
    if i < 2 {
        assert(c[4] == ip);
    } else {
        assert(c[5] == ip);
    }
}

/// A ban drops what comes from the address and what is passed on for it; a ban without end
/// also stands first among the rules. An address with a colon goes to the firewall of IPv6.
pub proof fn law_ban_rules(ip: Seq<char>, permanent: bool, i: int)
    requires
        0 <= i < ban_rules(ip, permanent).len(),
    ensures
        ({
            let rule = ban_rules(ip, permanent)[i];
            &&& ban_rules(ip, permanent).len() == (if permanent {
                3int
            } else {
                2
            })
            &&& ip.contains(':') ==> rule[0] == "ip6tables"@
            &&& !ip.contains(':') ==> rule[0] == "iptables"@
            &&& i == 0 ==> rule.skip(1) == seq!["-A"@, "INPUT"@, "-s"@, ip, "-j"@, "DROP"@]
            &&& i == 1 ==> rule.skip(1) == seq!["-A"@, "FORWARD"@, "-s"@, ip, "-j"@, "DROP"@]
            &&& i == 2 ==> rule.skip(1) == seq!["-I"@, "INPUT"@, "1"@, "-s"@, ip, "-j"@, "DROP"@]
        }),
{
    let rule = ban_rules(ip, permanent)[i];
    if i == 0 {
        assert(rule.skip(1) =~= seq!["-A"@, "INPUT"@, "-s"@, ip, "-j"@, "DROP"@]);
    } else if i == 1 {
        assert(rule.skip(1) =~= seq!["-A"@, "FORWARD"@, "-s"@, ip, "-j"@, "DROP"@]);
    } else {
        assert(rule.skip(1) =~= seq!["-I"@, "INPUT"@, "1"@, "-s"@, ip, "-j"@, "DROP"@]);
    }
}

} // verus!
