//! Sliding windows of event times, and the sources that attack a port.
use vstd::prelude::*;

use crate::table::Table;

verus! {

/// The length of the window, in nanoseconds.
pub const WINDOW_NANOS: u64 = 10_000_000_000;

/// How long ago `t` was; nothing if it lies ahead.
pub open spec fn age(t: u64, now: u64) -> int {
    if now >= t {
        now - t
    } else {
        0
    }
}

/// Whether `t` lies in the window that ends at `now`.
pub open spec fn fresh(t: u64, now: u64) -> bool {
    age(t, now) < WINDOW_NANOS
}

/// The times that lie in the window, in their order.
pub open spec fn recent(times: Seq<u64>, now: u64) -> Seq<u64> {
    times.filter(|t: u64| fresh(t, now))
}

/// For each port, the times that lie in the window.
pub open spec fn recent_ports(m: Map<u16, Seq<u64>>, now: u64) -> Map<u16, Seq<u64>> {
    m.map_values(|times: Seq<u64>| recent(times, now))
}

/// The times of a port, none if it was never seen.
pub open spec fn port_times(m: Map<u16, Seq<u64>>, port: u16) -> Seq<u64> {
    if m.contains_key(port) {
        m[port]
    } else {
        Seq::<u64>::empty()
    }
}

/// The table after one more event on the port.
pub open spec fn port_event(m: Map<u16, Seq<u64>>, port: u16, now: u64) -> Map<u16, Seq<u64>> {
    m.insert(port, port_times(m, port).push(now))
}

/// Whether `t` lies in the window that ends at `now`.
pub fn is_fresh(t: u64, now: u64) -> (r: bool)
    ensures
        r == fresh(t, now),
{
    now.saturating_sub(t) < WINDOW_NANOS
}

/// Drops the times that have left the window.
pub fn prune(times: &mut Vec<u64>, now: u64)
    ensures
        final(times)@ == recent(old(times)@, now),
{
    let ghost all = times@;
    let ghost p = |t: u64| fresh(t, now);
    let mut kept: Vec<u64> = Vec::new();
    let mut i: usize = 0;
    assert(all.take(0).filter(p) =~= Seq::<u64>::empty());
    while i < times.len()
        invariant
            i <= times.len(),
            times@ == all,
            p == |t: u64| fresh(t, now),
            kept@ == all.take(i as int).filter(p),
        decreases times.len() - i,
    {
        let t = times[i];
        if is_fresh(t, now) {
            kept.push(t);
        }
        i += 1;
        proof {
            reveal(Seq::filter);
            assert(all.take(i as int).drop_last() =~= all.take(i - 1));
        }
    }
    assert(all.take(i as int) =~= all);
    *times = kept;
}

/// Drops, for every port, the times that have left the window.
pub fn prune_ports(ports: &mut Table<u16, Vec<u64>>, now: u64)
    requires
        old(ports).wf(),
    ensures
        final(ports).wf(),
        final(ports)@ == recent_ports(old(ports)@, now),
{
    let ghost before = *ports;
    let n = ports.len();
    let mut i: usize = 0;
    while i < n
        invariant
            i <= n,
            before.wf(),
            n == before.keys().len(),
            ports.keys() == before.keys(),
            ports.values().len() == n,
            forall|j: int|
                0 <= j < i ==> (#[trigger] ports.values()[j])@ == recent(before.values()[j]@, now),
            forall|j: int| i <= j < n ==> #[trigger] ports.values()[j] == before.values()[j],
        decreases n - i,
    {
        prune(ports.value_mut(i), now);
        i += 1;
    }
    proof {
        assert forall|k: u16| #[trigger] before@.contains_key(k) implies ports@[k] == recent(
            before@[k],
            now,
        ) by {
            let j = before.keys().index_of(k);
            before.lemma_at(j);
            ports.lemma_at(j);
        }
        assert(ports@ =~= recent_ports(before@, now));
    }
}

/// Adds an event to a port.
pub fn push_port(ports: &mut Table<u16, Vec<u64>>, port: u16, now: u64)
    requires
        old(ports).wf(),
    ensures
        final(ports).wf(),
        final(ports)@ == port_event(old(ports)@, port, now),
{
    let ghost before = *ports;
    match ports.position(&port) {
        Some(i) => {
            let times = ports.value_mut(i);
            times.push(now);
            proof {
                Table::lemma_set(before, *ports, i as int, ports.values()[i as int]);
            }
        },
        None => {
            let mut times: Vec<u64> = Vec::new();
            times.push(now);
            ports.add_new(port, times);
        },
    }
}

/// How many times a port is on record in a table.
pub fn port_len(ports: &Table<u16, Vec<u64>>, port: u16) -> (r: usize)
    requires
        ports.wf(),
    ensures
        r == port_times(ports@, port).len(),
{
    match ports.get(&port) {
        Some(times) => times.len(),
        None => 0,
    }
}

// ---------------------------------------------------------------------------
// Sources that attack a port
// ---------------------------------------------------------------------------

/// For each port, the sources seen on it and when each was seen last.
pub struct PortAttackers {
    ports: Table<u16, Table<String, u64>>,
}

/// The sources of a port that were seen within the window.
pub open spec fn recent_sources(m: Map<Seq<char>, u64>, now: u64) -> Map<Seq<char>, u64> {
    m.restrict(Set::new(|ip: Seq<char>| m.contains_key(ip) && fresh(m[ip], now)))
}

/// The sources of a port, none if it was never seen.
pub open spec fn port_sources(
    m: Map<u16, Map<Seq<char>, u64>>,
    port: u16,
) -> Map<Seq<char>, u64> {
    if m.contains_key(port) {
        m[port]
    } else {
        Map::empty()
    }
}

/// The table after a source was seen on a port: the port's older sources are dropped.
pub open spec fn with_source(
    m: Map<u16, Map<Seq<char>, u64>>,
    port: u16,
    ip: Seq<char>,
    now: u64,
) -> Map<u16, Map<Seq<char>, u64>> {
    m.insert(port, recent_sources(port_sources(m, port), now).insert(ip, now))
}

/// The table without old sources, and without ports that have no source left.
pub open spec fn purged(m: Map<u16, Map<Seq<char>, u64>>, now: u64) -> Map<
    u16,
    Map<Seq<char>, u64>,
> {
    let fresh_only = m.map_values(|s: Map<Seq<char>, u64>| recent_sources(s, now));
    fresh_only.restrict(
        Set::new(|port: u16| m.contains_key(port) && fresh_only[port].dom().len() > 0),
    )
}

impl View for PortAttackers {
    type V = Map<u16, Map<Seq<char>, u64>>;

    closed spec fn view(&self) -> Map<u16, Map<Seq<char>, u64>> {
        self.ports@
    }
}

fn keep_recent_sources(sources: &mut Table<String, u64>, now: u64)
    requires
        old(sources).wf(),
    ensures
        final(sources).wf(),
        final(sources)@ == recent_sources(old(sources)@, now),
{
    let ghost p = |t: u64| fresh(t, now);
    let ghost before = sources@;
    let keep = |t: &u64| -> (b: bool)
        ensures
            b == fresh(*t, now),
    {
        is_fresh(*t, now)
    };
    sources.retain(keep, Ghost(p));
    assert(sources@ =~= recent_sources(before, now));
}

impl PortAttackers {
    /// The tables within the table are well-formed.
    pub closed spec fn wf(&self) -> bool {
        self.ports.wf() && forall|i: int|
            0 <= i < self.ports.values().len() ==> (#[trigger] self.ports.values()[i]).wf()
    }

    /// No port was seen yet.
    pub fn new() -> (r: Self)
        ensures
            r.wf(),
            r@ == Map::<u16, Map<Seq<char>, u64>>::empty(),
    {
        PortAttackers { ports: Table::new() }
    }

    /// Notes that a source was seen on a port.
    pub fn track(&mut self, port: u16, ip: &str, now: u64)
        requires
            old(self).wf(),
        ensures
            final(self).wf(),
            final(self)@ == with_source(old(self)@, port, ip@, now),
    {
        let ghost before = self.ports;
        match self.ports.position(&port) {
            Some(i) => {
                let sources = self.ports.value_mut(i);
                keep_recent_sources(sources, now);
                sources.insert(ip.to_owned(), now);
                proof {
                    let v = self.ports.values()[i as int];
                    Table::lemma_set(before, self.ports, i as int, v);
                }
            },
            None => {
                let mut sources: Table<String, u64> = Table::new();
                sources.insert(ip.to_owned(), now);
                assert(recent_sources(Map::empty(), now) =~= Map::<Seq<char>, u64>::empty());
                self.ports.add_new(port, sources);
            },
        }
    }

    /// How many sources a port has; nothing if it was never seen.
    pub fn sources(&self, port: u16) -> (r: Option<usize>)
        requires
            self.wf(),
        ensures
            match r {
                Some(n) => self@.contains_key(port) && n == self@[port].dom().len(),
                None => !self@.contains_key(port),
            },
    {
        match self.ports.get(&port) {
            Some(s) => Some(s.len()),
            None => None,
        }
    }

    /// Drops old sources, and ports that have no source left.
    pub fn purge(&mut self, now: u64)
        requires
            old(self).wf(),
        ensures
            final(self).wf(),
            final(self)@ == purged(old(self)@, now),
    {
        let ghost before = self.ports;
        let n = self.ports.len();
        let mut i: usize = 0;
        while i < n
            invariant
                i <= n,
                before.wf(),
                n == before.keys().len(),
                self.ports.keys() == before.keys(),
                self.ports.values().len() == n,
                forall|j: int| 0 <= j < n ==> (#[trigger] before.values()[j]).wf(),
                forall|j: int| 0 <= j < n ==> (#[trigger] self.ports.values()[j]).wf(),
                forall|j: int|
                    0 <= j < i ==> (#[trigger] self.ports.values()[j])@ == recent_sources(
                        before.values()[j]@,
                        now,
                    ),
                forall|j: int|
                    i <= j < n ==> #[trigger] self.ports.values()[j] == before.values()[j],
            decreases n - i,
        {
            keep_recent_sources(self.ports.value_mut(i), now);
            i += 1;
        }
        let ghost mid = self.ports;
        let ghost fresh_only = before@.map_values(|s: Map<Seq<char>, u64>| recent_sources(s, now));
        proof {
            assert forall|k: u16| #[trigger] before@.contains_key(k) implies mid@[k]
                == fresh_only[k] by {
                let j = before.keys().index_of(k);
                before.lemma_at(j);
                mid.lemma_at(j);
            }
            assert(mid@ =~= fresh_only);
        }
        let ghost p = |s: Map<Seq<char>, u64>| s.dom().len() > 0;
        let keep = |s: &Table<String, u64>| -> (b: bool)
            requires
                s.wf(),
            ensures
                b == (s@.dom().len() > 0),
        {
            s.len() > 0
        };
        self.ports.retain(keep, Ghost(p));
        assert(self@ =~= purged(before@, now));
    }
}

// ---------------------------------------------------------------------------
// Laws
// ---------------------------------------------------------------------------

/// The times that are less than ten seconds old, in their order.
pub open spec fn ten_seconds(times: Seq<u64>, now: u64) -> Seq<u64> {
    times.filter(|t: u64| t + 10_000_000_000 > now)
}

/// What stays in the window are the times that are less than ten seconds old.
pub proof fn law_window_is_ten_seconds(times: Seq<u64>, now: u64)
    ensures
        recent(times, now) == ten_seconds(times, now),
{
    assert((|t: u64| fresh(t, now)) =~= (|t: u64| t + 10_000_000_000 > now));
}

/// An event more on a port ends the times of that port, and leaves the other ports alone.
pub proof fn law_port_event_is_added(m: Map<u16, Seq<u64>>, port: u16, now: u64, other: u16)
    ensures
        ({
            let after = port_times(port_event(m, port, now), other);
            &&& other == port ==> after.len() == port_times(m, port).len() + 1 && after.last()
                == now && after.drop_last() == port_times(m, port)
            &&& other != port ==> after == port_times(m, other)
        }),
{
    let before = port_times(m, port);
    assert(before.push(now).drop_last() =~= before);
}

/// The times of each port that are less than ten seconds old stay.
pub proof fn law_ports_keep_ten_seconds(m: Map<u16, Seq<u64>>, now: u64, port: u16)
    ensures
        port_times(recent_ports(m, now), port) == ten_seconds(port_times(m, port), now),
{
    law_window_is_ten_seconds(port_times(m, port), now);
    reveal(Seq::filter);
}

/// A source that was seen on a port is on record there as of now, beside those that were
/// seen there in the last ten seconds; no other port changes.
pub proof fn law_source_is_added(
    m: Map<u16, Map<Seq<char>, u64>>,
    port: u16,
    ip: Seq<char>,
    now: u64,
    other: Seq<char>,
    other_port: u16,
)
    ensures
        ({
            let after = with_source(m, port, ip, now);
            &&& after.contains_key(port) && after[port].contains_key(ip) && after[port][ip] == now
            &&& other != ip ==> (after[port].contains_key(other) <==> m.contains_key(port)
                && m[port].contains_key(other) && m[port][other] + 10_000_000_000 > now)
            &&& other != ip && after[port].contains_key(other) ==> after[port][other]
                == m[port][other]
            &&& other_port != port ==> (after.contains_key(other_port) <==> m.contains_key(
                other_port,
            )) && after[other_port] == m[other_port]
        }),
{
}

/// A cleanup keeps of each port the sources that were seen in the last ten seconds, and
/// the ports that have one.
pub proof fn law_purge_keeps_ten_seconds(
    m: Map<u16, Map<Seq<char>, u64>>,
    now: u64,
    port: u16,
    ip: Seq<char>,
)
    requires
        m.contains_key(port),
        m[port].dom().finite(),
    ensures
        ({
            let after = purged(m, now);
            let stays = m[port].contains_key(ip) && m[port][ip] + 10_000_000_000 > now;
            &&& stays ==> after.contains_key(port) && after[port].contains_key(ip)
                && after[port][ip] == m[port][ip]
            &&& !stays ==> !(after.contains_key(port) && after[port].contains_key(ip))
            &&& after.contains_key(port) ==> exists|other: Seq<char>| #[trigger]
                m[port].contains_key(other) && m[port][other] + 10_000_000_000 > now
        }),
{
    let kept = recent_sources(m[port], now);
    assert(kept.dom().subset_of(m[port].dom()));
    vstd::set_lib::lemma_set_subset_finite(m[port].dom(), kept.dom());
    if kept.dom().len() > 0 {
        let other = kept.dom().choose();
        assert(kept.dom().contains(other));
        assert(m[port].contains_key(other));
    }
    if m[port].contains_key(ip) && m[port][ip] + 10_000_000_000 > now {
        assert(kept.dom().contains(ip));
        assert(kept.dom().len() > 0) by {
            if kept.dom().len() == 0 {
                assert(kept.dom() =~= Set::empty());
            }
        }
    }
}

} // verus!
