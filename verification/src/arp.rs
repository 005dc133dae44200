//! Hardware addresses: how the system's neighbour tables are read.
use vstd::prelude::*;

use crate::addr::{valid_ip, validate_ip};
use crate::text::{contains_char, push_text, same_text, views};
use crate::words::{
    byte_len, has_byte_len, has_text, lines, lines_of, lowercase, occurs_in, to_lower, words,
    words_of,
};

verus! {

/// Whether a word looks like a hardware address.
pub open spec fn mac_word(w: Seq<char>) -> bool {
    byte_len(w) == 17 && w.contains(':')
}

/// The hardware address that a line of the ARP table gives for an address, if its entry
/// is complete.
pub open spec fn arp_line(line: Seq<char>, ip: Seq<char>) -> Option<Seq<char>> {
    let cols = words(line);
    if cols.len() >= 4 && cols[0] == ip && cols[2] == "0x2"@ && mac_word(cols[3]) {
        Some(lowercase(cols[3]))
    } else {
        None
    }
}

/// The hardware address that a line of the IPv6 neighbour table gives for an address.
pub open spec fn neighbour_line(line: Seq<char>, ip: Seq<char>) -> Option<Seq<char>> {
    let cols = words(line);
    if cols.len() >= 5 && cols[0] == ip && mac_word(cols[4]) {
        Some(lowercase(cols[4]))
    } else {
        None
    }
}

/// The hardware address that a line of the table for the address's protocol gives.
pub open spec fn table_line(line: Seq<char>, ip: Seq<char>) -> Option<Seq<char>> {
    if ip.contains(':') {
        neighbour_line(line, ip)
    } else {
        arp_line(line, ip)
    }
}

/// The hardware address in the first line, from `from` on, that gives one.
pub open spec fn first_in_table(ls: Seq<Seq<char>>, from: int, ip: Seq<char>) -> Option<Seq<char>>
    decreases ls.len() - from,
{
    if from >= ls.len() {
        None
    } else if let Some(mac) = table_line(ls[from], ip) {
        Some(mac)
    } else {
        first_in_table(ls, from + 1, ip)
    }
}

/// The first word, from `from` on, that looks like a hardware address.
pub open spec fn first_mac_word(ws: Seq<Seq<char>>, from: int) -> Option<Seq<char>>
    decreases ws.len() - from,
{
    if from >= ws.len() {
        None
    } else if mac_word(ws[from]) {
        Some(lowercase(ws[from]))
    } else {
        first_mac_word(ws, from + 1)
    }
}

/// The hardware address in the first line, from `from` on, that mentions the address.
/// In a line about an IPv6 neighbour the first two words are passed over.
pub open spec fn first_in_reply(ls: Seq<Seq<char>>, from: int, ip: Seq<char>) -> Option<Seq<char>>
    decreases ls.len() - from,
{
    if from >= ls.len() {
        None
    } else if occurs_in(ls[from], ip) {
        first_mac_word(
            words(ls[from]),
            if ip.contains(':') {
                2
            } else {
                0
            },
        )
    } else {
        first_in_reply(ls, from + 1, ip)
    }
}

/// What to do next to find a hardware address.
#[derive(Debug, Clone)]
pub enum MacStep {
    /// The search is over.
    Known(Option<String>),
    /// The table does not tell: the system's command is to be asked.
    Ask,
}

/// The next step in the search for the hardware address of `ip`, given the system's
/// table if it could be read.
pub open spec fn mac_step(ip: Seq<char>, table: Option<Seq<char>>) -> Option<Option<Seq<char>>> {
    if !ip.contains(':') && !valid_ip(ip) {
        Some(None)
    } else {
        match table {
            None => None,
            Some(t) => match first_in_table(lines(t), 1, ip) {
                Some(mac) => Some(Some(mac)),
                None => None,
            },
        }
    }
}

/// What a step says, as plain values: nothing where the command is to be asked.
pub open spec fn step_view(s: MacStep) -> Option<Option<Seq<char>>> {
    match s {
        MacStep::Known(Some(mac)) => Some(Some(mac@)),
        MacStep::Known(None) => Some(None),
        MacStep::Ask => None,
    }
}

fn is_mac_word(w: &str) -> (r: bool)
    ensures
        r == mac_word(w@),
{
    has_byte_len(w, 17) && contains_char(w, ':')
}

fn read_line(line: &str, ip: &str) -> (r: Option<String>)
    ensures
        match r {
            Some(mac) => table_line(line@, ip@) == Some(mac@),
            None => table_line(line@, ip@) is None,
        },
{
    let cols = words_of(line);
    let ghost all = words(line@);
    assert(views(cols@).len() == all.len());
    assert(forall|i: int| 0 <= i < all.len() ==> #[trigger] all[i] == cols@[i]@);
    if contains_char(ip, ':') {
        if cols.len() >= 5 && same_text(cols[0].as_str(), ip) && is_mac_word(cols[4].as_str()) {
            return Some(to_lower(cols[4].as_str()));
        }
    } else if cols.len() >= 4 && same_text(cols[0].as_str(), ip) && same_text(
        cols[2].as_str(),
        "0x2",
    ) && is_mac_word(cols[3].as_str()) {
        return Some(to_lower(cols[3].as_str()));
    }
    None
}

/// The file that the system's table for the protocol of an address is read from.
pub fn neighbour_file(ip: &str) -> (r: &'static str)
    ensures
        r@ == (if ip@.contains(':') {
            "/proc/net/ipv6_neighbour"@
        } else {
            "/proc/net/arp"@
        }),
{
    if contains_char(ip, ':') {
        "/proc/net/ipv6_neighbour"
    } else {
        "/proc/net/arp"
    }
}

/// The command that is asked for the hardware address of an address.
pub fn neighbour_command(ip: &str) -> (r: Vec<String>)
    ensures
        views(r@) == (if ip@.contains(':') {
            seq!["ip"@, "-6"@, "neigh"@, "show"@]
        } else {
            seq!["arp"@, "-n"@, ip@]
        }),
{
    let mut out: Vec<String> = Vec::new();
    if contains_char(ip, ':') {
        push_text(&mut out, "ip".to_owned());
        push_text(&mut out, "-6".to_owned());
        push_text(&mut out, "neigh".to_owned());
        push_text(&mut out, "show".to_owned());
        assert(views(out@) =~= seq!["ip"@, "-6"@, "neigh"@, "show"@]);
    } else {
        push_text(&mut out, "arp".to_owned());
        push_text(&mut out, "-n".to_owned());
        push_text(&mut out, ip.to_owned());
        assert(views(out@) =~= seq!["arp"@, "-n"@, ip@]);
    }
    out
}

/// The next step in the search for a hardware address, given the system's table if it
/// could be read.
pub fn get_mac_from_ip(ip: &str, table: Option<String>) -> (r: MacStep)
    ensures
        step_view(r) == mac_step(
            ip@,
            match table {
                Some(t) => Some(t@),
                None => None,
            },
        ),
{
    if !contains_char(ip, ':') && !validate_ip(ip) {
        return MacStep::Known(None);
    }
    match table {
        None => MacStep::Ask,
        Some(t) => {
            let ls = lines_of(t.as_str());
            let ghost all = lines(t@);
            assert(views(ls@).len() == all.len());
            let mut i: usize = 1;
            while i < ls.len()
                invariant
                    1 <= i,
                    views(ls@) == all,
                    all == lines(t@),
                    table == Some(t),
                    ip@.contains(':') || valid_ip(ip@),
                    first_in_table(all, 1, ip@) == first_in_table(all, i as int, ip@),
                decreases ls.len() - i,
            {
                assert(views(ls@)[i as int] == ls@[i as int]@);
                if let Some(mac) = read_line(ls[i].as_str(), ip) {
                    return MacStep::Known(Some(mac));
                }
                i += 1;
            }
            MacStep::Ask
        },
    }
}

/// The hardware address that the command's output gives.
pub fn mac_in_reply(ip: &str, output: &str) -> (r: Option<String>)
    ensures
        match r {
            Some(mac) => first_in_reply(lines(output@), 0, ip@) == Some(mac@),
            None => first_in_reply(lines(output@), 0, ip@) is None,
        },
{
    let ls = lines_of(output);
    let ghost all = lines(output@);
    assert(views(ls@).len() == all.len());
    let mut i: usize = 0;
    while i < ls.len()
        invariant
            views(ls@) == all,
            all == lines(output@),
            first_in_reply(all, 0, ip@) == first_in_reply(all, i as int, ip@),
        decreases ls.len() - i,
    {
        assert(views(ls@)[i as int] == ls@[i as int]@);
        if has_text(ls[i].as_str(), ip) {
            let ws = words_of(ls[i].as_str());
            let ghost line_words = words(all[i as int]);
            assert(views(ws@).len() == line_words.len());
            let start: usize = if contains_char(ip, ':') {
                2
            } else {
                0
            };
            let mut j: usize = start;
            assert(first_in_reply(all, 0, ip@) == first_mac_word(line_words, start as int));
            while j < ws.len()
                invariant
                    views(ws@) == line_words,
                    all == lines(output@),
                    first_in_reply(all, 0, ip@) == first_mac_word(line_words, start as int),
                    first_mac_word(line_words, start as int) == first_mac_word(
                        line_words,
                        j as int,
                    ),
                decreases ws.len() - j,
            {
                assert(views(ws@)[j as int] == ws@[j as int]@);
                if is_mac_word(ws[j].as_str()) {
                    return Some(to_lower(ws[j].as_str()));
                }
                j += 1;
            }
            return None;
        }
        i += 1;
    }
    None
}

/// Which word is a MAC: one of seventeen bytes with a colon.
pub proof fn law_mac_words(w: Seq<char>)
    ensures
        mac_word(w) <==> byte_len(w) == 17 && exists|i: int|
            0 <= i < w.len() && #[trigger] w[i] == ':',
{
}

/// A line of the table of an IPv4 address tells its MAC if the first word is the address,
/// the third is "0x2", and the fourth is a MAC; one of an IPv6 address if the first word is
/// the address and the fifth is a MAC. The MAC is told in lower case.
pub proof fn law_table_lines(line: Seq<char>, ip: Seq<char>)
    ensures
        ({
            let w = words(line);
            let v4 = w.len() >= 4 && w[0] == ip && w[2] == "0x2"@ && mac_word(w[3]);
            let v6 = w.len() >= 5 && w[0] == ip && mac_word(w[4]);
            &&& !ip.contains(':') && v4 ==> table_line(line, ip) == Some(lowercase(w[3]))
            &&& !ip.contains(':') && !v4 ==> table_line(line, ip) is None
            &&& ip.contains(':') && v6 ==> table_line(line, ip) == Some(lowercase(w[4]))
            &&& ip.contains(':') && !v6 ==> table_line(line, ip) is None
        }),
{
}

/// The first line from `from` on that tells a MAC counts, and no other; without one there
/// is none.
pub proof fn law_first_line_counts(ls: Seq<Seq<char>>, from: int, ip: Seq<char>)
    requires
        0 <= from,
    ensures
        match first_in_table(ls, from, ip) {
            Some(mac) => exists|k: int|
                from <= k < ls.len() && table_line(#[trigger] ls[k], ip) == Some(mac) && forall|
                    j: int,
                |
                    from <= j < k ==> table_line(#[trigger] ls[j], ip) is None,
            None => forall|k: int|
                from <= k < ls.len() ==> table_line(#[trigger] ls[k], ip) is None,
        },
    decreases ls.len() - from,
{
    if from < ls.len() {
        law_first_line_counts(ls, from + 1, ip);
        if table_line(ls[from], ip) is None {
            if let Some(mac) = first_in_table(ls, from + 1, ip) {
                let k = choose|k: int|
                    from + 1 <= k < ls.len() && table_line(#[trigger] ls[k], ip) == Some(mac)
                        && forall|j: int|
                        from + 1 <= j < k ==> table_line(#[trigger] ls[j], ip) is None;
                assert(table_line(ls[k], ip) == Some(mac));
            }
        } else {
            assert(table_line(ls[from], ip) == first_in_table(ls, from, ip));
        }
    }
}

/// The first MAC among the words from `from` on counts; without one there is none.
pub proof fn law_first_mac_counts(ws: Seq<Seq<char>>, from: int)
    requires
        0 <= from,
    ensures
        match first_mac_word(ws, from) {
            Some(mac) => exists|k: int|
                from <= k < ws.len() && mac_word(#[trigger] ws[k]) && mac == lowercase(ws[k])
                    && forall|j: int| from <= j < k ==> !mac_word(#[trigger] ws[j]),
            None => forall|k: int| from <= k < ws.len() ==> !mac_word(#[trigger] ws[k]),
        },
    decreases ws.len() - from,
{
    if from < ws.len() {
        law_first_mac_counts(ws, from + 1);
        if mac_word(ws[from]) {
            assert(mac_word(ws[from]) && first_mac_word(ws, from) == Some(lowercase(ws[from])));
        } else if let Some(mac) = first_mac_word(ws, from + 1) {
            let k = choose|k: int|
                from + 1 <= k < ws.len() && mac_word(#[trigger] ws[k]) && mac == lowercase(ws[k])
                    && forall|j: int| from + 1 <= j < k ==> !mac_word(#[trigger] ws[j]);
            assert(mac_word(ws[k]));
        }
    }
}

/// Of a reply only the first line from `from` on that holds the address counts: its first
/// MAC, for an IPv6 address from the third word on.
pub proof fn law_reply_line_counts(ls: Seq<Seq<char>>, from: int, ip: Seq<char>, k: int)
    requires
        0 <= from <= k <= ls.len(),
        forall|j: int| from <= j < k ==> !occurs_in(#[trigger] ls[j], ip),
        k < ls.len() ==> occurs_in(ls[k], ip),
    ensures
        k == ls.len() ==> first_in_reply(ls, from, ip) is None,
        k < ls.len() && ip.contains(':') ==> first_in_reply(ls, from, ip) == first_mac_word(
            words(ls[k]),
            2,
        ),
        k < ls.len() && !ip.contains(':') ==> first_in_reply(ls, from, ip) == first_mac_word(
            words(ls[k]),
            0,
        ),
    decreases k - from,
{
    if from < k {
        assert(!occurs_in(ls[from], ip));
        law_reply_line_counts(ls, from + 1, ip, k);
    }
}

/// What is known of a MAC before asking: nothing is to be asked about a text that is no
/// address; the table is read from its second line on; and where that tells nothing, or
/// there is no table, the host is asked.
pub proof fn law_when_to_ask(ip: Seq<char>, table: Option<Seq<char>>)
    ensures
        !ip.contains(':') && !valid_ip(ip) ==> mac_step(ip, table) == Some(None::<Seq<char>>),
        (ip.contains(':') || valid_ip(ip)) && table is None ==> mac_step(ip, table) is None,
        (ip.contains(':') || valid_ip(ip)) && table is Some ==> (match first_in_table(
            lines(table->0),
            1,
            ip,
        ) {
            Some(mac) => mac_step(ip, table) == Some(Some(mac)),
            None => mac_step(ip, table) is None,
        }),
{
}

} // verus!
