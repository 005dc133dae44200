//! Kayoli: attack patterns in plain text, and how much risk they find.
use vstd::prelude::*;

use crate::text::{push_text, views, with_text};
use crate::training::lemma_filter_contains;
use crate::words::{
    blank, has_text, is_blank, is_space, lines, lines_of, occurs_in, starts_with, starts_with_text,
};

verus! {

/// More open ports than this look like a scan of many.
pub const MASS_SCAN_THRESHOLD: usize = 5;

/// What the file of normal behaviour holds at first.
pub const DEFAULT_NORMAL_BEHAVIOR: &'static str =
    "# ARLIAN KAYOLI - Нормальное поведение устройств\n\
    router:0-23:53,67,68,80,443\n\
    printer:9-18:515,631,9100\n\
    camera:0-23:554,8080,80\n\
    pc_work:9-20:80,443,22,3389\n\
    pc_home:17-23:80,443,22,445,3389\n\
    smart_tv:18-23:80,443,554,1900\n\
    iot_sensor:0-23:1883,8883\n\
    phone:0-23:80,443,5228\n";

/// What the file of attack patterns holds at first.
pub const DEFAULT_ATTACK_PATTERNS: &'static str =
    "# ARLIAN KAYOLI - Паттерны атак\n\
    port_scan:22,445,3389,5900,1433,3306\n\
    smb_attack:445\n\
    ssh_brute:22\n\
    rdp_attack:3389\n\
    mass_scan:>5_ports\n\
    night_activity:23-6\n";

/// What the file of custom rules holds at first.
pub const DEFAULT_CUSTOM_RULES: &'static str =
    "# ARLIAN KAYOLI - Пользовательские правила\n\
    rule:port_445_risk=+30\n\
    rule:night_hour_risk=+15\n\
    rule:mass_scan_threshold=10\n\
    rule:mass_scan_risk=+25\n";

/// Whether a line is a pattern: it holds something and is no comment.
pub open spec fn is_pattern(line: Seq<char>) -> bool {
    !blank(line) && !starts_with(line, "#"@)
}

/// The patterns in a file.
pub open spec fn patterns_in(content: Seq<char>) -> Seq<Seq<char>> {
    lines(content).filter(|l: Seq<char>| is_pattern(l))
}

/// The patterns in a file.
pub fn patterns_of(content: &str) -> (r: Vec<String>)
    ensures
        views(r@) == patterns_in(content@),
{
    let ls = lines_of(content);
    let ghost all = lines(content@);
    let ghost p = |l: Seq<char>| is_pattern(l);
    let mut out: Vec<String> = Vec::new();
    let mut i: usize = 0;
    assert(views(ls@).len() == all.len());
    assert(views(out@) =~= all.take(0).filter(p)) by {
        reveal(Seq::filter);
    }
    while i < ls.len()
        invariant
            i <= ls.len(),
            views(ls@) == all,
            p == |l: Seq<char>| is_pattern(l),
            views(out@) == all.take(i as int).filter(p),
        decreases ls.len() - i,
    {
        let line = ls[i].as_str();
        assert(views(ls@)[i as int] == line@);
        proof {
            reveal(Seq::filter);
            assert(all.take(i + 1).drop_last() =~= all.take(i as int));
        }
        if !is_blank(line) && !starts_with_text(line, "#") {
            push_text(&mut out, line.to_owned());
        }
        i += 1;
    }
    assert(all.take(i as int) =~= all);
    out
}

/// Whether one of the ports is one that attackers look for.
pub open spec fn has_target_port(ports: Seq<u16>) -> bool {
    ports.contains(22) || ports.contains(445) || ports.contains(3389) || ports.contains(5900)
}

/// Whether the hour lies in the night.
pub open spec fn at_night(hour: u32) -> bool {
    hour >= 23 || hour <= 6
}

/// Whether a pattern finds a scan for target ports.
pub open spec fn finds_scan(pattern: Seq<char>, ports: Seq<u16>) -> bool {
    occurs_in(pattern, "port_scan"@) && has_target_port(ports)
}

/// Whether a pattern finds activity at night.
pub open spec fn finds_night(pattern: Seq<char>, hour: u32) -> bool {
    occurs_in(pattern, "night_activity"@) && at_night(hour)
}

/// Whether a pattern finds a scan of many ports.
pub open spec fn finds_mass(pattern: Seq<char>, ports: Seq<u16>) -> bool {
    occurs_in(pattern, "mass_scan"@) && ports.len() > MASS_SCAN_THRESHOLD
}

/// The risk that one pattern adds.
pub open spec fn pattern_risk(pattern: Seq<char>, hour: u32, ports: Seq<u16>) -> nat {
    (if finds_scan(pattern, ports) {
        15nat
    } else {
        0nat
    }) + (if finds_night(pattern, hour) {
        15nat
    } else {
        0nat
    }) + (if finds_mass(pattern, ports) {
        20nat
    } else {
        0nat
    })
}

/// What one pattern reports.
pub open spec fn pattern_matches(pattern: Seq<char>, hour: u32, ports: Seq<u16>) -> Seq<Seq<char>> {
    (if finds_scan(pattern, ports) {
        seq!["Паттерн атаки: "@ + pattern]
    } else {
        seq![]
    }) + (if finds_night(pattern, hour) {
        seq!["Ночная активность: "@ + pattern]
    } else {
        seq![]
    }) + (if finds_mass(pattern, ports) {
        seq!["Массовое сканирование: "@ + pattern]
    } else {
        seq![]
    })
}

/// The risk that all patterns add up to.
pub open spec fn total_risk(patterns: Seq<Seq<char>>, hour: u32, ports: Seq<u16>) -> nat
    decreases patterns.len(),
{
    if patterns.len() == 0 {
        0
    } else {
        total_risk(patterns.drop_last(), hour, ports) + pattern_risk(patterns.last(), hour, ports)
    }
}

/// What all patterns report.
pub open spec fn all_matches(patterns: Seq<Seq<char>>, hour: u32, ports: Seq<u16>) -> Seq<Seq<char>>
    decreases patterns.len(),
{
    if patterns.len() == 0 {
        seq![]
    } else {
        all_matches(patterns.drop_last(), hour, ports) + pattern_matches(
            patterns.last(),
            hour,
            ports,
        )
    }
}

/// A number, or the limit where it passes it.
pub open spec fn at_most(n: nat, limit: nat) -> nat {
    if n < limit {
        n
    } else {
        limit
    }
}

/// Whether the port is in the list.
pub fn has_port(ports: &Vec<u16>, port: u16) -> (r: bool)
    ensures
        r == ports@.contains(port),
{
    let mut i: usize = 0;
    while i < ports.len()
        invariant
            i <= ports.len(),
            forall|j: int| 0 <= j < i ==> ports@[j] != port,
        decreases ports.len() - i,
    {
        if ports[i] == port {
            return true;
        }
        i += 1;
    }
    false
}

/// Finds attacks by patterns.
pub struct KayoliTrainer {
    attack_patterns: Vec<String>,
    normal_patterns: Vec<String>,
    custom_rules: Vec<String>,
}

/// What the trainer was given.
pub ghost struct KayoliModel {
    pub attack: Seq<Seq<char>>,
    pub normal: Seq<Seq<char>>,
    pub custom: Seq<Seq<char>>,
}

impl View for KayoliTrainer {
    type V = KayoliModel;

    closed spec fn view(&self) -> KayoliModel {
        KayoliModel {
            attack: views(self.attack_patterns@),
            normal: views(self.normal_patterns@),
            custom: views(self.custom_rules@),
        }
    }
}

impl KayoliTrainer {
    /// A trainer with the patterns in three files.
    pub fn new(normal: &str, attack: &str, custom: &str) -> (r: Self)
        ensures
            r@ == (KayoliModel {
                attack: patterns_in(attack@),
                normal: patterns_in(normal@),
                custom: patterns_in(custom@),
            }),
    {
        KayoliTrainer {
            attack_patterns: patterns_of(attack),
            normal_patterns: patterns_of(normal),
            custom_rules: patterns_of(custom),
        }
    }

    /// The patterns of normal behaviour.
    pub fn normal_patterns(&self) -> (r: &Vec<String>)
        ensures
            views(r@) == self@.normal,
    {
        &self.normal_patterns
    }

    /// How many attack patterns there are.
    pub fn pattern_count(&self) -> (r: usize)
        ensures
            r == self@.attack.len(),
    {
        self.attack_patterns.len()
    }

    /// The risk of a device with the given open ports at the given hour, at most 100, and
    /// what the patterns report.
    pub fn detect(&self, hour: u32, ports: &Vec<u16>) -> (r: (u8, Vec<String>))
        ensures
            r.0 == at_most(total_risk(self@.attack, hour, ports@), 100),
            views(r.1@) == all_matches(self@.attack, hour, ports@),
    {
        let target = has_port(ports, 22) || has_port(ports, 445) || has_port(ports, 3389)
            || has_port(ports, 5900);
        let night = hour >= 23 || hour <= 6;
        let mass = ports.len() > MASS_SCAN_THRESHOLD;
        let ghost all = self@.attack;
        let mut risk: u32 = 0;
        let mut out: Vec<String> = Vec::new();
        let mut i: usize = 0;
        assert(views(out@) =~= all_matches(all.take(0), hour, ports@));
        while i < self.attack_patterns.len()
            invariant
                i <= self.attack_patterns.len(),
                all == views(self.attack_patterns@),
                target == has_target_port(ports@),
                night == at_night(hour),
                mass == (ports@.len() > MASS_SCAN_THRESHOLD),
                risk == at_most(total_risk(all.take(i as int), hour, ports@), 100),
                views(out@) == all_matches(all.take(i as int), hour, ports@),
            decreases self.attack_patterns.len() - i,
        {
            let pattern = self.attack_patterns[i].as_str();
            let ghost before = views(out@);
            proof {
                assert(all[i as int] == pattern@);
                assert(all.take(i + 1).drop_last() =~= all.take(i as int));
            }
            if has_text(pattern, "port_scan") && target {
                risk += 15;
                push_text(&mut out, with_text("Паттерн атаки: ", pattern));
            }
            if has_text(pattern, "night_activity") && night {
                risk += 15;
                push_text(&mut out, with_text("Ночная активность: ", pattern));
            }
            if has_text(pattern, "mass_scan") && mass {
                risk += 20;
                push_text(&mut out, with_text("Массовое сканирование: ", pattern));
            }
            assert(views(out@) =~= before + pattern_matches(pattern@, hour, ports@));
            if risk > 100 {
                risk = 100;
            }
            i += 1;
        }
        assert(all.take(i as int) =~= all);
        (risk as u8, out)
    }
}

/// What one more pattern adds: 15 points if it speaks of "port_scan" and one of the ports
/// 22, 445, 3389 and 5900 is open, 15 points if it speaks of "night_activity" and the hour
/// is 23 or one of 0 to 6, and 20 points if it speaks of "mass_scan" and more than five
/// ports are open. Each comes with one remark.
pub proof fn law_pattern_points(
    patterns: Seq<Seq<char>>,
    pattern: Seq<char>,
    hour: u32,
    ports: Seq<u16>,
)
    ensures
        ({
            let target = exists|i: int|
                0 <= i < ports.len() && ((#[trigger] ports[i]) == 22 || ports[i] == 445 || ports[i]
                    == 3389 || ports[i] == 5900);
            let scan: int = if occurs_in(pattern, "port_scan"@) && target {
                1
            } else {
                0
            };
            let night: int = if occurs_in(pattern, "night_activity"@) && !(7 <= hour <= 22) {
                1
            } else {
                0
            };
            let mass: int = if occurs_in(pattern, "mass_scan"@) && ports.len() >= 6 {
                1
            } else {
                0
            };
            &&& total_risk(patterns.push(pattern), hour, ports) == total_risk(patterns, hour, ports)
                + 15 * scan + 15 * night + 20 * mass
            &&& all_matches(patterns.push(pattern), hour, ports).len() == all_matches(
                patterns,
                hour,
                ports,
            ).len() + scan + night + mass
        }),
        total_risk(Seq::empty(), hour, ports) == 0,
        all_matches(Seq::empty(), hour, ports).len() == 0,
{
    assert(patterns.push(pattern).drop_last() =~= patterns);
}

/// There are remarks exactly where there is a risk, and the risk is at least fifteen and at
/// most twenty points for each.
pub proof fn law_remarks_and_risk_agree(patterns: Seq<Seq<char>>, hour: u32, ports: Seq<u16>)
    ensures
        15 * all_matches(patterns, hour, ports).len() <= total_risk(patterns, hour, ports) <= 20
            * all_matches(patterns, hour, ports).len(),
    decreases patterns.len(),
{
    if patterns.len() > 0 {
        law_remarks_and_risk_agree(patterns.drop_last(), hour, ports);
    }
}

/// The patterns of a text are its lines that are not blank and do not start with "#": each
/// of them, and no other.
pub proof fn law_patterns_are_the_lines_that_count(content: Seq<char>, line: Seq<char>)
    ensures
        patterns_in(content).contains(line) <==> lines(content).contains(line) && (exists|i: int|
            0 <= i < line.len() && !is_space(#[trigger] line[i])) && line[0] != '#',
{
    reveal_strlit("#");
    lemma_filter_contains(lines(content), |l: Seq<char>| is_pattern(l), line);
    assert(starts_with(line, "#"@) <==> line.len() > 0 && line[0] == '#') by {
        if line.len() > 0 && line[0] == '#' {
            assert(line.subrange(0, 1) =~= "#"@);
        }
        if starts_with(line, "#"@) {
            assert(line.subrange(0, 1)[0] == '#');
        }
    }
}

} // verus!
