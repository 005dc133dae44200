//! The bans of strangers' devices: each address is banned once.
use dashmap::DashMap;
use vstd::prelude::*;

use crate::antiflood::bump;
use crate::dash::{has_name, names_in, new_names, set_name};
use crate::firewall::{ban_commands, ban_rules, command_views};
use crate::metrics::Metrics;
use crate::text::views;

verus! {

/// What the manager knows.
pub ghost struct BanManagerModel {
    pub banned: Set<Seq<char>>,
    pub real_ban: bool,
}

/// Bans each address once.
pub struct BanManager {
    banned_ips: DashMap<String, ()>,
    real_ban: bool,
}

impl View for BanManager {
    type V = BanManagerModel;

    closed spec fn view(&self) -> BanManagerModel {
        BanManagerModel { banned: names_in(self.banned_ips), real_ban: self.real_ban }
    }
}

/// The manager after an address was to be banned.
pub open spec fn ban_tried(m: BanManagerModel, ip: Seq<char>) -> BanManagerModel {
    BanManagerModel { banned: m.banned.insert(ip), ..m }
}

impl BanManager {
    /// A manager for which the given addresses are banned already.
    pub fn new(real_ban: bool, banned: &Vec<String>) -> (r: Self)
        ensures
            r@ == (BanManagerModel { banned: views(banned@).to_set(), real_ban }),
    {
        let mut banned_ips = new_names();
        let ghost all = views(banned@);
        let mut i: usize = 0;
        assert(names_in(banned_ips) =~= all.take(0).to_set());
        while i < banned.len()
            invariant
                i <= banned.len(),
                all == views(banned@),
                names_in(banned_ips) == all.take(i as int).to_set(),
            decreases banned.len() - i,
        {
            let ghost before = names_in(banned_ips);
            set_name(&mut banned_ips, banned[i].as_str().to_owned());
            i += 1;
            proof {
                let longer = all.take(i as int);
                assert(longer =~= all.take(i - 1).push(all[i - 1]));
                assert forall|x: Seq<char>| longer.to_set().contains(x) <==> before.insert(
                    all[i - 1],
                ).contains(x) by {
                    if all.take(i - 1).contains(x) {
                        let j = all.take(i - 1).index_of(x);
                        assert(longer[j] == x);
                    }
                    if x == all[i - 1] {
                        assert(longer[i - 1] == x);
                    }
                }
                assert(names_in(banned_ips) =~= longer.to_set());
            }
        }
        assert(all.take(i as int) =~= all);
        BanManager { banned_ips, real_ban }
    }

    /// Bans an address that is not banned yet, and counts the ban; says whether it did.
    /// The commands for the firewall come along where the ban is to take effect.
    pub fn try_ban(&mut self, ip: &str, metrics: &mut Metrics) -> (r: (bool, Vec<Vec<String>>))
        ensures
            r.0 == !old(self)@.banned.contains(ip@),
            final(self)@ == ban_tried(old(self)@, ip@),
            *final(metrics) == (if r.0 {
                Metrics {
                    total_bans: bump(old(metrics).total_bans),
                    ..*old(metrics)
                }
            } else {
                *old(metrics)
            }),
            command_views(r.1@) == (if r.0 && old(self)@.real_ban {
                ban_rules(ip@, false)
            } else {
                Seq::<Seq<Seq<char>>>::empty()
            }),
    {
        let ghost m = self@;
        let none: Vec<Vec<String>> = Vec::new();
        assert(command_views(none@) =~= Seq::<Seq<Seq<char>>>::empty());
        if has_name(&self.banned_ips, ip) {
            assert(m.banned.insert(ip@) =~= m.banned);
            return (false, none);
        }
        set_name(&mut self.banned_ips, ip.to_owned());
        metrics.inc_bans();
        if self.real_ban {
            (true, ban_commands(ip, false))
        } else {
            (true, none)
        }
    }
}

/// An address that was banned is not banned again, and no other address is touched.
pub proof fn law_banned_once(m: BanManagerModel, ip: Seq<char>, other: Seq<char>)
    ensures
        ban_tried(m, ip).banned.contains(ip),
        ban_tried(ban_tried(m, ip), ip) == ban_tried(m, ip),
        other != ip ==> (ban_tried(m, ip).banned.contains(other) <==> m.banned.contains(other)),
{
    assert(m.banned.insert(ip).insert(ip) =~= m.banned.insert(ip));
}

} // verus!
