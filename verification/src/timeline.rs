//! What the lists of events of one address have in common: together they hold the events
//! of the list of all, and each is in order of time.
use vstd::prelude::*;

use crate::tally::{lemma_same_sum, lemma_sum_insert, map_sum};
use crate::window::{fresh, port_event, port_times, recent, recent_ports};

verus! {

/// How many of the times are such.
pub open spec fn count_if(s: Seq<u64>, p: spec_fn(u64) -> bool) -> nat {
    s.filter(p).len()
}

/// How many of the times of all ports are such.
pub open spec fn ports_count_if(m: Map<u16, Seq<u64>>, p: spec_fn(u64) -> bool) -> nat {
    map_sum(m, |s: Seq<u64>| count_if(s, p))
}

/// How many times all ports have.
pub open spec fn ports_count(m: Map<u16, Seq<u64>>) -> nat {
    map_sum(m, |s: Seq<u64>| s.len())
}

/// Whether the times are in order, and none lies after `now`.
pub open spec fn in_order(s: Seq<u64>, now: u64) -> bool {
    &&& forall|i: int, j: int| 0 <= i < j < s.len() ==> #[trigger] s[i] <= #[trigger] s[j]
    &&& forall|i: int| 0 <= i < s.len() ==> #[trigger] s[i] <= now
}

/// Whether the times of every port are in order, and none lies after `now`.
pub open spec fn ports_in_order(m: Map<u16, Seq<u64>>, now: u64) -> bool {
    forall|port: u16| #[trigger] m.contains_key(port) ==> in_order(m[port], now)
}

/// The lists of events of one address: two by port, two without ports, and one of all.
pub ghost struct EventLists {
    pub first: Map<u16, Seq<u64>>,
    pub second: Map<u16, Seq<u64>>,
    pub third: Seq<u64>,
    pub fourth: Seq<u64>,
    pub total: Seq<u64>,
}

/// Whether the list of all has as many events as the others together, and all lists are
/// in order of time up to `now`.
pub open spec fn lists_agree(l: EventLists, now: u64) -> bool {
    &&& l.total.len() == ports_count(l.first) + ports_count(l.second) + l.third.len()
        + l.fourth.len()
    &&& ports_in_order(l.first, now)
    &&& ports_in_order(l.second, now)
    &&& in_order(l.third, now)
    &&& in_order(l.fourth, now)
    &&& in_order(l.total, now)
}

/// Whether the list of all has as many events of every sort as the others together.
pub open spec fn accounted(l: EventLists) -> bool {
    &&& l.first.dom().finite()
    &&& l.second.dom().finite()
    &&& forall|p: spec_fn(u64) -> bool|
        #[trigger] count_if(l.total, p) == ports_count_if(l.first, p) + ports_count_if(l.second, p)
            + count_if(l.third, p) + count_if(l.fourth, p)
}

/// What holds of the lists at every moment from `now` on.
pub open spec fn sound(l: EventLists, now: u64) -> bool {
    &&& accounted(l)
    &&& ports_in_order(l.first, now)
    &&& ports_in_order(l.second, now)
    &&& in_order(l.third, now)
    &&& in_order(l.fourth, now)
    &&& in_order(l.total, now)
}

/// No events.
pub open spec fn no_events() -> EventLists {
    EventLists {
        first: Map::empty(),
        second: Map::empty(),
        third: Seq::empty(),
        fourth: Seq::empty(),
        total: Seq::empty(),
    }
}

/// The lists without the events that have left the window.
pub open spec fn lists_cleaned(l: EventLists, now: u64) -> EventLists {
    EventLists {
        first: recent_ports(l.first, now),
        second: recent_ports(l.second, now),
        third: recent(l.third, now),
        fourth: recent(l.fourth, now),
        total: recent(l.total, now),
    }
}

/// Which list an event goes to, beside the list of all.
pub ghost enum Place {
    First(u16),
    Second(u16),
    Third,
    Fourth,
}

/// The lists with one more event.
pub open spec fn lists_with(l: EventLists, place: Place, now: u64) -> EventLists {
    let total = l.total.push(now);
    match place {
        Place::First(port) => EventLists { first: port_event(l.first, port, now), total, ..l },
        Place::Second(port) => EventLists { second: port_event(l.second, port, now), total, ..l },
        Place::Third => EventLists { third: l.third.push(now), total, ..l },
        Place::Fourth => EventLists { fourth: l.fourth.push(now), total, ..l },
    }
}

proof fn lemma_count_push(s: Seq<u64>, t: u64, p: spec_fn(u64) -> bool)
    ensures
        count_if(s.push(t), p) == count_if(s, p) + (if p(t) {
            1nat
        } else {
            0nat
        }),
{
    reveal(Seq::filter);
    assert(s.push(t).drop_last() =~= s);
}

proof fn lemma_count_recent(s: Seq<u64>, now: u64, p: spec_fn(u64) -> bool)
    ensures
        count_if(recent(s, now), p) == count_if(s, |t: u64| fresh(t, now) && p(t)),
    decreases s.len(),
{
    reveal(Seq::filter);
    if s.len() > 0 {
        let front = s.drop_last();
        let last = s.last();
        lemma_count_recent(front, now, p);
        if fresh(last, now) {
            assert(recent(s, now) == recent(front, now).push(last));
            lemma_count_push(recent(front, now), last, p);
        }
    }
}

proof fn lemma_count_all(s: Seq<u64>)
    ensures
        count_if(s, |t: u64| true) == s.len(),
    decreases s.len(),
{
    reveal(Seq::filter);
    if s.len() > 0 {
        lemma_count_all(s.drop_last());
    }
}

proof fn lemma_ports_recent(m: Map<u16, Seq<u64>>, now: u64, p: spec_fn(u64) -> bool)
    requires
        m.dom().finite(),
    ensures
        ports_count_if(recent_ports(m, now), p) == ports_count_if(
            m,
            |t: u64| fresh(t, now) && p(t),
        ),
        recent_ports(m, now).dom().finite(),
{
    let q = |t: u64| fresh(t, now) && p(t);
    let f = |s: Seq<u64>| count_if(s, p);
    let g = |s: Seq<u64>| count_if(s, q);
    let r = recent_ports(m, now);
    assert(r.dom() =~= m.dom());
    assert forall|k: u16| #[trigger] m.dom().contains(k) implies f(r[k]) == g(m[k]) by {
        lemma_count_recent(m[k], now, p);
    }
    lemma_same_sum(m.dom(), r, m, f, g);
}

proof fn lemma_ports_event(m: Map<u16, Seq<u64>>, port: u16, now: u64, p: spec_fn(u64) -> bool)
    requires
        m.dom().finite(),
    ensures
        ports_count_if(port_event(m, port, now), p) == ports_count_if(m, p) + (if p(now) {
            1nat
        } else {
            0nat
        }),
        port_event(m, port, now).dom().finite(),
{
    let f = |s: Seq<u64>| count_if(s, p);
    let times = port_times(m, port);
    lemma_sum_insert(m, port, times.push(now), f);
    lemma_count_push(times, now, p);
    if !m.contains_key(port) {
        reveal(Seq::filter);
        assert(count_if(Seq::<u64>::empty(), p) == 0);
    }
}

proof fn lemma_ports_all(m: Map<u16, Seq<u64>>)
    requires
        m.dom().finite(),
    ensures
        ports_count_if(m, |t: u64| true) == ports_count(m),
{
    let all = |t: u64| true;
    let f = |s: Seq<u64>| count_if(s, all);
    let g = |s: Seq<u64>| s.len();
    assert forall|k: u16| #[trigger] m.dom().contains(k) implies f(m[k]) == g(m[k]) by {
        lemma_count_all(m[k]);
    }
    lemma_same_sum(m.dom(), m, m, f, g);
}

proof fn lemma_recent_in_order(s: Seq<u64>, then: u64, now: u64)
    requires
        in_order(s, then),
        then <= now,
    ensures
        in_order(recent(s, now), now),
        forall|i: int|
            0 <= i < recent(s, now).len() ==> s.len() > 0 && #[trigger] recent(s, now)[i]
                <= s.last(),
    decreases s.len(),
{
    reveal(Seq::filter);
    if s.len() > 0 {
        let front = s.drop_last();
        let last = s.last();
        assert(in_order(front, then)) by {
            assert forall|i: int, j: int| 0 <= i < j < front.len() implies #[trigger] front[i]
                <= #[trigger] front[j] by {
                assert(s[i] <= s[j]);
            }
            assert forall|i: int| 0 <= i < front.len() implies #[trigger] front[i] <= then by {
                assert(s[i] <= then);
            }
        }
        lemma_recent_in_order(front, then, now);
        if front.len() > 0 {
            assert(s[front.len() - 1] <= s[s.len() - 1]);
        }
        assert(s[s.len() - 1] <= then);
    }
}

/// Nothing is out of account where there is nothing.
pub proof fn lemma_no_events(now: u64)
    ensures
        sound(no_events(), now),
{
    let l = no_events();
    assert forall|p: spec_fn(u64) -> bool| #[trigger] count_if(l.total, p) == ports_count_if(
        l.first,
        p,
    ) + ports_count_if(l.second, p) + count_if(l.third, p) + count_if(l.fourth, p) by {
        reveal(Seq::filter);
        vstd::set::fold::lemma_fold_empty(
            0nat,
            |n: nat, k: u16| n + (|s: Seq<u64>| count_if(s, p))(l.first[k]),
        );
        assert(l.first.dom() =~= Set::empty());
    }
}

/// Cleaning keeps the lists sound.
pub proof fn lemma_cleaned_sound(l: EventLists, then: u64, now: u64)
    requires
        sound(l, then),
        then <= now,
    ensures
        sound(lists_cleaned(l, now), now),
{
    let r = lists_cleaned(l, now);
    assert forall|p: spec_fn(u64) -> bool| #[trigger] count_if(r.total, p) == ports_count_if(
        r.first,
        p,
    ) + ports_count_if(r.second, p) + count_if(r.third, p) + count_if(r.fourth, p) by {
        let q = |t: u64| fresh(t, now) && p(t);
        lemma_count_recent(l.total, now, p);
        lemma_count_recent(l.third, now, p);
        lemma_count_recent(l.fourth, now, p);
        lemma_ports_recent(l.first, now, p);
        lemma_ports_recent(l.second, now, p);
        assert(count_if(l.total, q) == ports_count_if(l.first, q) + ports_count_if(l.second, q)
            + count_if(l.third, q) + count_if(l.fourth, q));
    }
    lemma_ports_recent(l.first, now, |t: u64| true);
    lemma_ports_recent(l.second, now, |t: u64| true);
    lemma_recent_in_order(l.total, then, now);
    lemma_recent_in_order(l.third, then, now);
    lemma_recent_in_order(l.fourth, then, now);
    assert forall|port: u16| #[trigger] r.first.contains_key(port) implies in_order(
        r.first[port],
        now,
    ) by {
        assert(l.first.contains_key(port));
        lemma_recent_in_order(l.first[port], then, now);
    }
    assert forall|port: u16| #[trigger] r.second.contains_key(port) implies in_order(
        r.second[port],
        now,
    ) by {
        assert(l.second.contains_key(port));
        lemma_recent_in_order(l.second[port], then, now);
    }
}

/// One more event keeps the lists sound.
pub proof fn lemma_event_sound(l: EventLists, place: Place, now: u64)
    requires
        sound(l, now),
    ensures
        sound(lists_with(l, place, now), now),
{
    let r = lists_with(l, place, now);
    assert forall|p: spec_fn(u64) -> bool| #[trigger] count_if(r.total, p) == ports_count_if(
        r.first,
        p,
    ) + ports_count_if(r.second, p) + count_if(r.third, p) + count_if(r.fourth, p) by {
        lemma_count_push(l.total, now, p);
        assert(count_if(l.total, p) == ports_count_if(l.first, p) + ports_count_if(l.second, p)
            + count_if(l.third, p) + count_if(l.fourth, p));
        match place {
            Place::First(port) => lemma_ports_event(l.first, port, now, p),
            Place::Second(port) => lemma_ports_event(l.second, port, now, p),
            Place::Third => lemma_count_push(l.third, now, p),
            Place::Fourth => lemma_count_push(l.fourth, now, p),
        }
    }
}

/// Time that goes by keeps the lists sound.
pub proof fn lemma_later_sound(l: EventLists, then: u64, now: u64)
    requires
        sound(l, then),
        then <= now,
    ensures
        sound(l, now),
{
    assert forall|port: u16| #[trigger] l.first.contains_key(port) implies in_order(
        l.first[port],
        now,
    ) by {}
    assert forall|port: u16| #[trigger] l.second.contains_key(port) implies in_order(
        l.second[port],
        now,
    ) by {}
}

/// Sound lists agree.
pub proof fn lemma_sound_agrees(l: EventLists, now: u64)
    requires
        sound(l, now),
    ensures
        lists_agree(l, now),
{
    let all = |t: u64| true;
    lemma_count_all(l.total);
    lemma_count_all(l.third);
    lemma_count_all(l.fourth);
    lemma_ports_all(l.first);
    lemma_ports_all(l.second);
    assert(count_if(l.total, all) == ports_count_if(l.first, all) + ports_count_if(l.second, all)
        + count_if(l.third, all) + count_if(l.fourth, all));
}

} // verus!
