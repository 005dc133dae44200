//! Keeps scans of one address apart in time.
use dashmap::DashMap;
use vstd::prelude::*;

use crate::addr::{addr_text, IpAddrUniversal};
use crate::dash::{
    address_time, address_times, drop_name_time, in_span, keep_address_times, keep_name_times,
    name_count, name_entries, name_time, name_times, set_address_time, set_name_time,
    times_by_address, times_by_name, within,
};
use crate::order::{are_smallest, smallest};
use crate::text::{dec, decimal, push_text, views, with_number};
use crate::window::age;

verus! {

/// A scan is forgotten after this time, in nanoseconds: seven days.
pub const MAX_AGE_NANOS: u64 = 604_800_000_000_000;

/// How many names are kept by a cleanup.
pub const MAX_ENTRIES: usize = 10000;

/// How often scans were asked for, and with what result.
#[derive(Debug, Clone, Copy, PartialEq, Eq, Structural)]
pub struct RateLimiterStats {
    pub total_requests: u64,
    pub allowed_requests: u64,
    pub denied_requests: u64,
    pub ipv4_hits: u64,
    pub ipv6_hits: u64,
    pub cache_size: usize,
}

/// What the limiter knows.
pub ghost struct LimiterModel {
    pub v4: Map<u128, u64>,
    pub v6: Map<u128, u64>,
    pub generic: Map<Seq<char>, u64>,
    pub interval_ms: u64,
    pub total_requests: nat,
    pub allowed_requests: nat,
    pub denied_requests: nat,
    pub ipv4_hits: nat,
    pub ipv6_hits: nat,
    pub cache_size: nat,
}

/// A limiter that no scan was asked of.
pub open spec fn fresh_limiter(interval_ms: u64) -> LimiterModel {
    LimiterModel {
        v4: Map::empty(),
        v6: Map::empty(),
        generic: Map::empty(),
        interval_ms,
        total_requests: 0,
        allowed_requests: 0,
        denied_requests: 0,
        ipv4_hits: 0,
        ipv6_hits: 0,
        cache_size: 0,
    }
}

/// Whether the last scan under a key is less than the interval ago.
pub open spec fn too_soon<K>(m: Map<K, u64>, k: K, now: u64, interval_ms: u64) -> bool {
    m.contains_key(k) && age(m[k], now) < interval_ms * 1_000_000
}

/// The limiter after a request was counted.
pub open spec fn request_counted(m: LimiterModel, allowed: bool) -> LimiterModel {
    LimiterModel {
        total_requests: m.total_requests + 1,
        allowed_requests: m.allowed_requests + (if allowed {
            1nat
        } else {
            0nat
        }),
        denied_requests: m.denied_requests + (if allowed {
            0nat
        } else {
            1nat
        }),
        cache_size: m.generic.dom().len(),
        ..m
    }
}

/// The first half of a request: the address, if the text is one, must not have been
/// scanned too soon before. A scan that passes is noted, and counted once here already.
pub open spec fn address_checked(m: LimiterModel, ip: Seq<char>, now: u64) -> (LimiterModel, bool) {
    match addr_text(ip) {
        Some(IpAddrUniversal::V4(a)) => if too_soon(m.v4, a as u128, now, m.interval_ms) {
            (request_counted(m, false), false)
        } else {
            (
                LimiterModel {
                    v4: m.v4.insert(a as u128, now),
                    ipv4_hits: m.ipv4_hits + 1,
                    allowed_requests: m.allowed_requests + 1,
                    ..m
                },
                true,
            )
        },
        Some(IpAddrUniversal::V6(a)) => if too_soon(m.v6, a, now, m.interval_ms) {
            (request_counted(m, false), false)
        } else {
            (
                LimiterModel {
                    v6: m.v6.insert(a, now),
                    ipv6_hits: m.ipv6_hits + 1,
                    allowed_requests: m.allowed_requests + 1,
                    ..m
                },
                true,
            )
        },
        None => (m, true),
    }
}

/// The limiter after a scan was asked for, and whether it is allowed.
pub open spec fn scan_requested(m: LimiterModel, ip: Seq<char>, now: u64) -> (LimiterModel, bool) {
    let (m1, passed) = address_checked(m, ip, now);
    if !passed {
        (m1, false)
    } else if too_soon(m1.generic, ip, now, m.interval_ms) {
        (request_counted(m1, false), false)
    } else {
        (
            request_counted(
                LimiterModel { generic: m1.generic.insert(ip, now), ..m1 },
                true,
            ),
            true,
        )
    }
}

/// Whether another request can be counted.
pub open spec fn has_room(m: LimiterModel) -> bool {
    m.total_requests < u64::MAX && m.allowed_requests + 1 < u64::MAX && m.denied_requests < u64::MAX
        && m.ipv4_hits < u64::MAX && m.ipv6_hits < u64::MAX
}

/// Whether so many requests can still be counted.
pub open spec fn has_room_for(m: LimiterModel, n: nat) -> bool {
    m.total_requests + n <= u64::MAX && m.allowed_requests + 2 * n <= u64::MAX && m.denied_requests
        + n <= u64::MAX && m.ipv4_hits + n <= u64::MAX && m.ipv6_hits + n <= u64::MAX
}

/// Whether `kept` is what is left of `all` when the oldest entries go until `n` are left.
pub open spec fn newest_kept(
    all: Map<Seq<char>, u64>,
    kept: Map<Seq<char>, u64>,
    n: nat,
) -> bool {
    &&& kept.dom().len() == n
    &&& forall|k: Seq<char>| #[trigger]
        kept.contains_key(k) ==> all.contains_key(k) && kept[k] == all[k]
    &&& forall|a: Seq<char>, b: Seq<char>| #[trigger]
        kept.contains_key(a) && #[trigger] all.contains_key(b) && !kept.contains_key(b) ==> all[b]
            <= all[a]
}

/// What a cleanup does: scans of more than seven days ago are forgotten, and of the names
/// only the most recent are kept.
pub open spec fn cleaned_up(before: LimiterModel, after: LimiterModel, now: u64) -> bool {
    let generic = within(before.generic, now, MAX_AGE_NANOS);
    &&& after == (LimiterModel {
        v4: within(before.v4, now, MAX_AGE_NANOS),
        v6: within(before.v6, now, MAX_AGE_NANOS),
        generic: after.generic,
        ..before
    })
    &&& if generic.dom().len() <= MAX_ENTRIES {
        after.generic == generic
    } else {
        newest_kept(generic, after.generic, MAX_ENTRIES as nat)
    }
}

/// What the statistics say.
pub open spec fn limiter_report(m: LimiterModel) -> Seq<Seq<char>> {
    seq![
        "   Rate Limiter:"@,
        "     Total/Всего: "@ + dec(m.total_requests) + ", Allowed/Разрешено: "@ + dec(
            m.allowed_requests,
        ) + ", Blocked/Блокировано: "@ + dec(m.denied_requests),
        "     IPv4: "@ + dec(m.ipv4_hits) + ", IPv6: "@ + dec(m.ipv6_hits),
        "     Cache/Кэш: "@ + dec(m.cache_size),
    ]
}

/// Keeps scans of one address apart in time.
pub struct RateLimiter {
    last_scan_v4: DashMap<u128, u64>,
    last_scan_v6: DashMap<u128, u64>,
    last_scan_generic: DashMap<String, u64>,
    min_interval_ms: u64,
    stats: RateLimiterStats,
}

impl View for RateLimiter {
    type V = LimiterModel;

    closed spec fn view(&self) -> LimiterModel {
        LimiterModel {
            v4: times_by_address(self.last_scan_v4),
            v6: times_by_address(self.last_scan_v6),
            generic: times_by_name(self.last_scan_generic),
            interval_ms: self.min_interval_ms,
            total_requests: self.stats.total_requests as nat,
            allowed_requests: self.stats.allowed_requests as nat,
            denied_requests: self.stats.denied_requests as nat,
            ipv4_hits: self.stats.ipv4_hits as nat,
            ipv6_hits: self.stats.ipv6_hits as nat,
            cache_size: self.stats.cache_size as nat,
        }
    }
}

fn is_too_soon(last: Option<u64>, now: u64, interval_ms: u64) -> (r: bool)
    ensures
        r == (last matches Some(t) && age(t, now) < interval_ms * 1_000_000),
{
    match last {
        Some(t) => {
            assert(interval_ms * 1_000_000 <= 0xffff_ffff_ffff_ffff * 1_000_000);
            (now.saturating_sub(t) as u128) < interval_ms as u128 * 1_000_000
        },
        None => false,
    }
}

impl RateLimiter {
    /// A limiter that allows a scan of an address every so many milliseconds.
    pub fn new(min_interval_ms: u64) -> (r: Self)
        ensures
            r@ == fresh_limiter(min_interval_ms),
    {
        let r = RateLimiter {
            last_scan_v4: address_times(),
            last_scan_v6: address_times(),
            last_scan_generic: name_times(),
            min_interval_ms,
            stats: RateLimiterStats {
                total_requests: 0,
                allowed_requests: 0,
                denied_requests: 0,
                ipv4_hits: 0,
                ipv6_hits: 0,
                cache_size: 0,
            },
        };
        assert(r@.v4 =~= Map::empty());
        assert(r@.v6 =~= Map::empty());
        assert(r@.generic =~= Map::empty());
        r
    }

    /// Whether another request can be counted.
    pub fn can_count(&self) -> (r: bool)
        ensures
            r == has_room(self@),
    {
        self.stats.total_requests < u64::MAX && self.stats.allowed_requests < u64::MAX - 1
            && self.stats.denied_requests < u64::MAX && self.stats.ipv4_hits < u64::MAX
            && self.stats.ipv6_hits < u64::MAX
    }

    /// Whether so many requests can still be counted.
    pub fn can_count_many(&self, n: usize) -> (r: bool)
        ensures
            r == has_room_for(self@, n as nat),
    {
        let n: u128 = n as u128;
        let limit: u128 = u64::MAX as u128;
        self.stats.total_requests as u128 + n <= limit && self.stats.allowed_requests as u128 + 2
            * n <= limit && self.stats.denied_requests as u128 + n <= limit
            && self.stats.ipv4_hits as u128 + n <= limit && self.stats.ipv6_hits as u128 + n
            <= limit
    }

    /// Counts a request.
    fn update_stats(&mut self, allowed: bool)
        requires
            old(self)@.total_requests < u64::MAX,
            old(self)@.allowed_requests < u64::MAX,
            old(self)@.denied_requests < u64::MAX,
        ensures
            final(self)@ == request_counted(old(self)@, allowed),
    {
        self.stats.total_requests += 1;
        if allowed {
            self.stats.allowed_requests += 1;
        } else {
            self.stats.denied_requests += 1;
        }
        self.stats.cache_size = name_count(&self.last_scan_generic);
    }

    /// Whether the address may be scanned now; if so, the scan is noted.
    pub fn allow_scan(&mut self, ip: &str, now: u64) -> (r: bool)
        requires
            has_room(old(self)@),
        ensures
            final(self)@ == scan_requested(old(self)@, ip@, now).0,
            r == scan_requested(old(self)@, ip@, now).1,
    {
        match IpAddrUniversal::from_str(ip) {
            Some(IpAddrUniversal::V4(a)) => {
                let last = address_time(&self.last_scan_v4, a as u128);
                if is_too_soon(last, now, self.min_interval_ms) {
                    self.update_stats(false);
                    return false;
                }
                set_address_time(&mut self.last_scan_v4, a as u128, now);
                self.stats.ipv4_hits += 1;
                self.stats.allowed_requests += 1;
            },
            Some(IpAddrUniversal::V6(a)) => {
                let last = address_time(&self.last_scan_v6, a);
                if is_too_soon(last, now, self.min_interval_ms) {
                    self.update_stats(false);
                    return false;
                }
                set_address_time(&mut self.last_scan_v6, a, now);
                self.stats.ipv6_hits += 1;
                self.stats.allowed_requests += 1;
            },
            None => {},
        }
        let last = name_time(&self.last_scan_generic, ip);
        if is_too_soon(last, now, self.min_interval_ms) {
            self.update_stats(false);
            return false;
        }
        set_name_time(&mut self.last_scan_generic, ip.to_owned(), now);
        self.update_stats(true);
        true
    }

    /// Forgets old scans, and the oldest of the rest where they are too many.
    pub fn cleanup(&mut self, now: u64)
        ensures
            cleaned_up(old(self)@, final(self)@, now),
    {
        keep_address_times(&mut self.last_scan_v4, now, MAX_AGE_NANOS);
        keep_address_times(&mut self.last_scan_v6, now, MAX_AGE_NANOS);
        keep_name_times(&mut self.last_scan_generic, now, MAX_AGE_NANOS);
        if name_count(&self.last_scan_generic) > MAX_ENTRIES {
            keep_newest(&mut self.last_scan_generic);
        }
    }

    /// The lines of the statistics.
    pub fn print_stats(&self) -> (r: Vec<String>)
        ensures
            views(r@) == limiter_report(self@),
    {
        let mut line = with_number("     Total/Всего: ", self.stats.total_requests);
        line.append(", Allowed/Разрешено: ");
        line.append(decimal(self.stats.allowed_requests).as_str());
        line.append(", Blocked/Блокировано: ");
        line.append(decimal(self.stats.denied_requests).as_str());
        let mut hits = with_number("     IPv4: ", self.stats.ipv4_hits);
        hits.append(", IPv6: ");
        hits.append(decimal(self.stats.ipv6_hits).as_str());
        let mut out: Vec<String> = Vec::new();
        push_text(&mut out, "   Rate Limiter:".to_owned());
        push_text(&mut out, line);
        push_text(&mut out, hits);
        push_text(&mut out, with_number("     Cache/Кэш: ", self.stats.cache_size as u64));
        assert(views(out@) =~= limiter_report(self@));
        out
    }
}

/// Drops the oldest names until no more than the limit are left.
fn keep_newest(m: &mut DashMap<String, u64>)
    requires
        times_by_name(*old(m)).dom().len() > MAX_ENTRIES,
    ensures
        newest_kept(times_by_name(*old(m)), times_by_name(*final(m)), MAX_ENTRIES as nat),
{
    let ghost all = times_by_name(*m);
    let entries = name_entries(m);
    let ghost names = entries@.map_values(|e: (String, u64)| e.0@);
    let mut times: Vec<u64> = Vec::new();
    let mut i: usize = 0;
    while i < entries.len()
        invariant
            i <= entries.len(),
            times.len() == i,
            forall|k: int| 0 <= k < i ==> #[trigger] times@[k] == entries@[k].1,
        decreases entries.len() - i,
    {
        times.push(entries[i].1);
        i += 1;
    }
    proof {
        assert(names.no_duplicates());
        names.unique_seq_to_set();
        assert forall|k: Seq<char>| names.to_set().contains(k) <==> all.dom().contains(k) by {
            if all.contains_key(k) {
                let j = choose|j: int| 0 <= j < entries@.len() && (#[trigger] entries@[j]).0@ == k;
                assert(names[j] == k);
            }
            if names.contains(k) {
                let j = names.index_of(k);
                assert(all.contains_key(entries@[j].0@));
            }
        }
        assert(names.to_set() =~= all.dom());
    }
    let count: usize = entries.len() - MAX_ENTRIES;
    let oldest = smallest(&times, count);
    let mut k: usize = 0;
    let ghost mut gone: Set<Seq<char>> = Set::empty();
    assert(all.remove_keys(gone) =~= all);
    while k < count
        invariant
            k <= count,
            count == entries.len() - MAX_ENTRIES,
            are_smallest(times@, count as nat, oldest@),
            times.len() == entries.len(),
            names == entries@.map_values(|e: (String, u64)| e.0@),
            names.no_duplicates(),
            gone.finite(),
            gone.len() == k,
            gone.subset_of(names.to_set()),
            forall|q: Seq<char>| #[trigger]
                gone.contains(q) <==> exists|j: int|
                    0 <= j < k && names[(#[trigger] oldest@[j]) as int] == q,
            times_by_name(*m) == all.remove_keys(gone),
        decreases count - k,
    {
        let at: usize = oldest[k];
        let ghost name = entries@[at as int].0@;
        let ghost before = gone;
        proof {
            assert(names[at as int] == name);
            assert(names.contains(name));
            if gone.contains(name) {
                let j = choose|j: int|
                    0 <= j < k && names[(#[trigger] oldest@[j]) as int] == name;
                assert(oldest@[j] != oldest@[k as int]);
            }
        }
        drop_name_time(m, entries[at].0.as_str());
        k += 1;
        proof {
            gone = gone.insert(name);
            assert(times_by_name(*m) =~= all.remove_keys(gone));
            assert forall|q: Seq<char>| #[trigger]
                gone.contains(q) <==> exists|j: int|
                    0 <= j < k && names[(#[trigger] oldest@[j]) as int] == q by {
                if gone.contains(q) {
                    if before.contains(q) {
                        let j = choose|j: int|
                            0 <= j < k - 1 && names[(#[trigger] oldest@[j]) as int] == q;
                        assert(names[oldest@[j] as int] == q);
                    } else {
                        assert(names[oldest@[k - 1] as int] == q);
                    }
                }
                if exists|j: int| 0 <= j < k && names[(#[trigger] oldest@[j]) as int] == q {
                    let j = choose|j: int|
                        0 <= j < k && names[(#[trigger] oldest@[j]) as int] == q;
                    if j < k - 1 {
                        assert(before.contains(q));
                    }
                }
            }
        }
    }
    proof {
        let kept = times_by_name(*m);
        assert(kept.dom() =~= all.dom().difference(gone));
        vstd::set_lib::lemma_set_difference_len(all.dom(), gone);
        assert(all.dom().intersect(gone) =~= gone);
        assert forall|a: Seq<char>, b: Seq<char>| #[trigger]
            kept.contains_key(a) && #[trigger] all.contains_key(b) && !kept.contains_key(
                b,
            ) implies all[b] <= all[a] by {
            assert(gone.contains(b));
            let j = choose|j: int| 0 <= j < count && names[(#[trigger] oldest@[j]) as int] == b;
            let ia = choose|i: int| 0 <= i < entries@.len() && (#[trigger] entries@[i]).0@ == a;
            assert(names[ia] == a);
            if oldest@.contains(ia as usize) {
                let q = oldest@.index_of(ia as usize);
                assert(names[oldest@[q] as int] == a);
                assert(gone.contains(a));
            }
            assert(times@[oldest@[j] as int] <= times@[ia]);
            assert(entries@[oldest@[j] as int].0@ == b);
        }
    }
}

// ---------------------------------------------------------------------------
// Laws
// ---------------------------------------------------------------------------

/// An address that was allowed to be scanned is refused until the interval has passed,
/// and the refusal changes nothing but the statistics.
pub proof fn law_scans_are_apart(m: LimiterModel, ip: Seq<char>, now: u64, later: u64)
    requires
        scan_requested(m, ip, now).1,
        now <= later < now + m.interval_ms * 1_000_000,
    ensures
        !scan_requested(scan_requested(m, ip, now).0, ip, later).1,
        ({
            let first = scan_requested(m, ip, now).0;
            let second = scan_requested(first, ip, later).0;
            second.v4 == first.v4 && second.v6 == first.v6 && second.generic == first.generic
        }),
{
}

/// An address that was never asked for is allowed.
pub proof fn law_first_scan_is_allowed(m: LimiterModel, ip: Seq<char>, now: u64)
    requires
        !m.generic.contains_key(ip),
        match addr_text(ip) {
            Some(IpAddrUniversal::V4(a)) => !m.v4.contains_key(a as u128),
            Some(IpAddrUniversal::V6(a)) => !m.v6.contains_key(a),
            None => true,
        },
    ensures
        scan_requested(m, ip, now).1,
{
}

/// After the interval an address that was scanned is allowed again.
pub proof fn law_scan_is_allowed_again(m: LimiterModel, ip: Seq<char>, now: u64, later: u64)
    requires
        scan_requested(m, ip, now).1,
        later >= now + m.interval_ms * 1_000_000,
    ensures
        scan_requested(scan_requested(m, ip, now).0, ip, later).1,
{
}

/// Each request is counted once in total.
pub proof fn law_requests_are_counted(m: LimiterModel, ip: Seq<char>, now: u64)
    ensures
        scan_requested(m, ip, now).0.total_requests == m.total_requests + 1,
        scan_requested(m, ip, now).0.denied_requests == m.denied_requests + (if scan_requested(
            m,
            ip,
            now,
        ).1 {
            0int
        } else {
            1int
        }),
{
}

/// After a cleanup no scan on record is seven days old, and no more names are on record
/// than the limit allows.
pub proof fn law_cleanup_bounds(before: LimiterModel, after: LimiterModel, now: u64)
    requires
        cleaned_up(before, after, now),
    ensures
        after.generic.dom().len() <= MAX_ENTRIES,
        forall|a: u128| #[trigger]
            after.v4.contains_key(a) ==> in_span(after.v4[a], now, MAX_AGE_NANOS),
        forall|a: u128| #[trigger]
            after.v6.contains_key(a) ==> in_span(after.v6[a], now, MAX_AGE_NANOS),
        forall|k: Seq<char>| #[trigger]
            after.generic.contains_key(k) ==> in_span(after.generic[k], now, MAX_AGE_NANOS),
{
}

/// Two texts of the same address share their interval: a scan under one text refuses a
/// scan under the other.
pub proof fn law_address_has_one_interval(
    m: LimiterModel,
    ip: Seq<char>,
    other: Seq<char>,
    now: u64,
    later: u64,
)
    requires
        scan_requested(m, ip, now).1,
        addr_text(ip) is Some,
        addr_text(other) == addr_text(ip),
        now <= later < now + m.interval_ms * 1_000_000,
    ensures
        !scan_requested(scan_requested(m, ip, now).0, other, later).1,
{
}

// ---------------------------------------------------------------------------
// Histories
// ---------------------------------------------------------------------------

/// A new limiter after a history of requests, each with its address and its moment.
pub open spec fn limiter_history(interval_ms: u64, calls: Seq<(Seq<char>, u64)>) -> LimiterModel
    decreases calls.len(),
{
    if calls.len() == 0 {
        fresh_limiter(interval_ms)
    } else {
        scan_requested(
            limiter_history(interval_ms, calls.drop_last()),
            calls.last().0,
            calls.last().1,
        ).0
    }
}

/// Whether a request of a history was allowed.
pub open spec fn was_allowed(interval_ms: u64, calls: Seq<(Seq<char>, u64)>, j: int) -> bool {
    scan_requested(limiter_history(interval_ms, calls.take(j)), calls[j].0, calls[j].1).1
}

/// Whether two texts are the same, or texts of the same address.
pub open spec fn same_address(a: Seq<char>, b: Seq<char>) -> bool {
    a == b || (addr_text(a) is Some && addr_text(a) == addr_text(b))
}

/// Whether the moments of a history do not go back, nor pass `now`.
pub open spec fn time_goes_on(calls: Seq<(Seq<char>, u64)>, now: u64) -> bool {
    &&& forall|i: int, j: int|
        0 <= i < j < calls.len() ==> (#[trigger] calls[i]).1 <= (#[trigger] calls[j]).1
    &&& forall|i: int| 0 <= i < calls.len() ==> (#[trigger] calls[i]).1 <= now
}

/// What a scan can be noted under.
ghost enum NoteKey {
    Address(IpAddrUniversal),
    Text(Seq<char>),
}

/// Whether a request under the text is noted under the key.
spec fn hits(key: NoteKey, ip: Seq<char>) -> bool {
    match key {
        NoteKey::Address(a) => addr_text(ip) == Some(a),
        NoteKey::Text(t) => t == ip,
    }
}

/// When a scan was last noted under the key.
spec fn noted_at(m: LimiterModel, key: NoteKey) -> Option<u64> {
    match key {
        NoteKey::Address(IpAddrUniversal::V4(a)) => m.v4.get(a as u128),
        NoteKey::Address(IpAddrUniversal::V6(a)) => m.v6.get(a),
        NoteKey::Text(t) => m.generic.get(t),
    }
}

/// Which requests of a history were allowed.
spec fn allowed_in(interval_ms: u64, calls: Seq<(Seq<char>, u64)>) -> Seq<bool> {
    Seq::new(calls.len(), |j: int| was_allowed(interval_ms, calls, j))
}

/// Whether a moment is that of the last allowed request that is noted under a key.
spec fn true_note(
    note: Option<u64>,
    calls: Seq<(Seq<char>, u64)>,
    allowed: Seq<bool>,
    key: NoteKey,
) -> bool {
    match note {
        None => forall|j: int|
            0 <= j < calls.len() && #[trigger] allowed[j] ==> !hits(key, calls[j].0),
        Some(t) => {
            &&& exists|j: int|
                0 <= j < calls.len() && #[trigger] allowed[j] && hits(key, calls[j].0)
                    && calls[j].1 == t
            &&& forall|j: int|
                0 <= j < calls.len() && #[trigger] allowed[j] && hits(key, calls[j].0)
                    ==> calls[j].1 <= t
        },
    }
}

/// Whether a scan noted under the key is less than the interval ago.
spec fn key_too_soon(m: LimiterModel, key: NoteKey, now: u64) -> bool {
    noted_at(m, key) matches Some(t) && age(t, now) < m.interval_ms * 1_000_000
}

/// What a request does: it is refused exactly where a key that it is noted under is too
/// soon, and noted under all of them where it is not.
proof fn lemma_request(
    m: LimiterModel,
    calls: Seq<(Seq<char>, u64)>,
    flags: Seq<bool>,
    ip: Seq<char>,
    now: u64,
)
    requires
        time_goes_on(calls, now),
        forall|key: NoteKey| true_note(#[trigger] noted_at(m, key), calls, flags, key),
    ensures
        ({
            let (after, allowed) = scan_requested(m, ip, now);
            &&& after.interval_ms == m.interval_ms
            &&& after.total_requests == m.total_requests + 1
            &&& allowed <==> forall|key: NoteKey| hits(key, ip) ==> !#[trigger] key_too_soon(
                m,
                key,
                now,
            )
            &&& forall|key: NoteKey| #[trigger]
                noted_at(after, key) == (if allowed && hits(key, ip) {
                    Some(now)
                } else {
                    noted_at(m, key)
                })
        }),
{
    let (after, allowed) = scan_requested(m, ip, now);
    let text = NoteKey::Text(ip);
    assert(hits(text, ip));
    assert(true_note(noted_at(m, text), calls, flags, text));
    if let Some(a) = addr_text(ip) {
        let address = NoteKey::Address(a);
        assert(hits(address, ip));
        assert(true_note(noted_at(m, address), calls, flags, address));
        if key_too_soon(m, text, now) {
            let t = noted_at(m, text)->0;
            let j = choose|j: int|
                0 <= j < calls.len() && #[trigger] flags[j] && hits(text, calls[j].0)
                    && calls[j].1 == t;
            assert(hits(address, calls[j].0));
            let u = noted_at(m, address)->0;
            let i = choose|i: int|
                0 <= i < calls.len() && #[trigger] flags[i] && hits(address, calls[i].0)
                    && calls[i].1 == u;
            assert(calls[i].1 <= now);
            assert(t <= u <= now);
            assert(key_too_soon(m, address, now));
        }
        assert(allowed <==> !key_too_soon(m, address, now));
    } else {
        assert(allowed <==> !key_too_soon(m, text, now));
    }
    assert forall|key: NoteKey| #[trigger] noted_at(after, key) == (if allowed && hits(key, ip) {
        Some(now)
    } else {
        noted_at(m, key)
    }) by {
        match key {
            NoteKey::Address(IpAddrUniversal::V4(a)) => {},
            NoteKey::Address(IpAddrUniversal::V6(a)) => {},
            NoteKey::Text(t) => {},
        }
    }
}

/// A note stays true with one more request.
proof fn lemma_note_step(
    note: Option<u64>,
    front: Seq<(Seq<char>, u64)>,
    flags: Seq<bool>,
    key: NoteKey,
    ip: Seq<char>,
    t: u64,
    allowed: bool,
)
    requires
        flags.len() == front.len(),
        time_goes_on(front, t),
        true_note(note, front, flags, key),
    ensures
        true_note(
            if allowed && hits(key, ip) {
                Some(t)
            } else {
                note
            },
            front.push((ip, t)),
            flags.push(allowed),
            key,
        ),
{
    let calls = front.push((ip, t));
    let longer = flags.push(allowed);
    let n = front.len() as int;
    assert(forall|j: int| 0 <= j < n ==> calls[j] == front[j] && longer[j] == flags[j]);
    assert(calls[n] == (ip, t) && longer[n] == allowed);
    if allowed && hits(key, ip) {
        assert(longer[n] && hits(key, calls[n].0) && calls[n].1 == t);
        assert forall|j: int|
            0 <= j < calls.len() && #[trigger] longer[j] && hits(key, calls[j].0) implies calls[j].1
            <= t by {
            if j < n {
                assert(front[j].1 <= t);
            }
        }
    } else if let Some(u) = note {
        let j = choose|j: int|
            0 <= j < front.len() && #[trigger] flags[j] && hits(key, front[j].0) && front[j].1 == u;
        assert(longer[j] && hits(key, calls[j].0) && calls[j].1 == u);
        assert forall|i: int|
            0 <= i < calls.len() && #[trigger] longer[i] && hits(key, calls[i].0) implies calls[i].1
            <= u by {
            assert(flags[i]);
        }
    } else {
        assert forall|i: int| 0 <= i < calls.len() && #[trigger] longer[i] implies !hits(
            key,
            calls[i].0,
        ) by {
            if i < n {
                assert(flags[i]);
            }
        }
    }
}

/// What was allowed in a history with one more request.
proof fn lemma_allowed_step(interval_ms: u64, calls: Seq<(Seq<char>, u64)>)
    requires
        calls.len() > 0,
    ensures
        allowed_in(interval_ms, calls) == allowed_in(interval_ms, calls.drop_last()).push(
            scan_requested(
                limiter_history(interval_ms, calls.drop_last()),
                calls.last().0,
                calls.last().1,
            ).1,
        ),
{
    let front = calls.drop_last();
    let n = front.len() as int;
    assert(calls.take(n) =~= front);
    assert forall|j: int| 0 <= j < n implies #[trigger] allowed_in(interval_ms, calls)[j]
        == allowed_in(interval_ms, front)[j] by {
        assert(calls.take(j) =~= front.take(j));
    }
    assert(allowed_in(interval_ms, calls) =~= allowed_in(interval_ms, front).push(
        scan_requested(limiter_history(interval_ms, front), calls.last().0, calls.last().1).1,
    ));
}

proof fn lemma_notes_are_true(interval_ms: u64, calls: Seq<(Seq<char>, u64)>, now: u64)
    requires
        time_goes_on(calls, now),
    ensures
        limiter_history(interval_ms, calls).interval_ms == interval_ms,
        limiter_history(interval_ms, calls).total_requests == calls.len(),
        forall|key: NoteKey|
            true_note(
                #[trigger] noted_at(limiter_history(interval_ms, calls), key),
                calls,
                allowed_in(interval_ms, calls),
                key,
            ),
    decreases calls.len(),
{
    if calls.len() > 0 {
        let front = calls.drop_last();
        let n = front.len() as int;
        let (ip, t) = calls.last();
        assert(calls[n] == (ip, t));
        assert(time_goes_on(front, t)) by {
            assert forall|i: int| 0 <= i < front.len() implies (#[trigger] front[i]).1 <= t by {
                assert(calls[i].1 <= calls[n].1);
            }
            assert forall|i: int, j: int| 0 <= i < j < front.len() implies (
            #[trigger] front[i]).1 <= (#[trigger] front[j]).1 by {
                assert(calls[i].1 <= calls[j].1);
            }
        }
        lemma_notes_are_true(interval_ms, front, t);
        let m = limiter_history(interval_ms, front);
        let flags = allowed_in(interval_ms, front);
        let after = limiter_history(interval_ms, calls);
        let allowed = scan_requested(m, ip, t).1;
        lemma_request(m, front, flags, ip, t);
        lemma_allowed_step(interval_ms, calls);
        assert(calls =~= front.push((ip, t)));
        assert forall|key: NoteKey|
            true_note(
                #[trigger] noted_at(after, key),
                calls,
                allowed_in(interval_ms, calls),
                key,
            ) by {
            assert(true_note(noted_at(m, key), front, flags, key));
            lemma_note_step(noted_at(m, key), front, flags, key, ip, t, allowed);
        }
    }
}

/// Over any history of requests in which time does not go back, a request is refused
/// exactly where an earlier one for the same address was allowed less than the interval
/// ago, so that a refusal prolongs nothing; and every request was counted once.
pub proof fn law_refused_exactly_when_recent(
    interval_ms: u64,
    calls: Seq<(Seq<char>, u64)>,
    ip: Seq<char>,
    now: u64,
)
    requires
        time_goes_on(calls, now),
    ensures
        !scan_requested(limiter_history(interval_ms, calls), ip, now).1 <==> exists|j: int|
            0 <= j < calls.len() && #[trigger] was_allowed(interval_ms, calls, j) && same_address(
                calls[j].0,
                ip,
            ) && now - calls[j].1 < interval_ms * 1_000_000,
        limiter_history(interval_ms, calls).total_requests == calls.len(),
{
    let m = limiter_history(interval_ms, calls);
    let flags = allowed_in(interval_ms, calls);
    lemma_notes_are_true(interval_ms, calls, now);
    lemma_request(m, calls, flags, ip, now);
    let allowed = scan_requested(m, ip, now).1;
    assert forall|j: int| 0 <= j < calls.len() implies was_allowed(interval_ms, calls, j)
        == #[trigger] flags[j] by {}
    if !allowed {
        let key = choose|key: NoteKey| hits(key, ip) && #[trigger] key_too_soon(m, key, now);
        assert(true_note(noted_at(m, key), calls, flags, key));
        let t = noted_at(m, key)->0;
        let j = choose|j: int|
            0 <= j < calls.len() && #[trigger] flags[j] && hits(key, calls[j].0) && calls[j].1 == t;
        assert(calls[j].1 <= now);
        assert(was_allowed(interval_ms, calls, j) && same_address(calls[j].0, ip));
    }
    if exists|j: int|
        0 <= j < calls.len() && #[trigger] was_allowed(interval_ms, calls, j) && same_address(
            calls[j].0,
            ip,
        ) && now - calls[j].1 < interval_ms * 1_000_000 {
        let j = choose|j: int|
            0 <= j < calls.len() && #[trigger] was_allowed(interval_ms, calls, j) && same_address(
                calls[j].0,
                ip,
            ) && now - calls[j].1 < interval_ms * 1_000_000;
        let key = match addr_text(ip) {
            Some(a) => NoteKey::Address(a),
            None => NoteKey::Text(ip),
        };
        assert(flags[j]);
        assert(hits(key, ip) && hits(key, calls[j].0));
        assert(true_note(noted_at(m, key), calls, flags, key));
        let t = noted_at(m, key)->0;
        let i = choose|i: int|
            0 <= i < calls.len() && #[trigger] flags[i] && hits(key, calls[i].0) && calls[i].1 == t;
        assert(calls[i].1 <= now);
        assert(key_too_soon(m, key, now));
    }
}

/// What a cleanup keeps: of the addresses every scan less than seven days old, and no other;
/// of the names the same, but no more than 10000, and of more the latest.
pub proof fn law_cleanup_keeps_the_recent(
    before: LimiterModel,
    after: LimiterModel,
    now: u64,
    a: u128,
    k: Seq<char>,
    j: Seq<char>,
)
    requires
        cleaned_up(before, after, now),
    ensures
        after.v4.contains_key(a) <==> before.v4.contains_key(a) && before.v4[a]
            + 604_800_000_000_000 > now,
        after.v6.contains_key(a) <==> before.v6.contains_key(a) && before.v6[a]
            + 604_800_000_000_000 > now,
        after.v4.contains_key(a) ==> after.v4[a] == before.v4[a],
        after.v6.contains_key(a) ==> after.v6[a] == before.v6[a],
        after.generic.contains_key(k) ==> before.generic.contains_key(k) && before.generic[k]
            + 604_800_000_000_000 > now && after.generic[k] == before.generic[k],
        after.generic.dom().len() <= 10000,
        after.generic.dom().len() < 10000 ==> (after.generic.contains_key(k)
            <==> before.generic.contains_key(k) && before.generic[k] + 604_800_000_000_000 > now),
        after.generic.contains_key(k) && before.generic.contains_key(j)
            && !after.generic.contains_key(j) ==> before.generic[j] <= after.generic[k],
        after.total_requests == before.total_requests && after.allowed_requests
            == before.allowed_requests && after.denied_requests == before.denied_requests
            && after.interval_ms == before.interval_ms,
{
    let generic = within(before.generic, now, MAX_AGE_NANOS);
    if generic.contains_key(k) {
        assert(before.generic.contains_key(k));
    }
    if before.generic.contains_key(j) && before.generic[j] + 604_800_000_000_000 > now {
        assert(generic.contains_key(j));
    }
}

/// How a request is counted: once among all, once among the refused if it is refused, and
/// among the allowed once if the text is no address and twice if it is; one that passes as
/// an address but not under its name is counted among both. The address, if it passes, is
/// counted under its protocol.
pub proof fn law_how_requests_are_counted(m: LimiterModel, ip: Seq<char>, now: u64)
    ensures
        ({
            let (after, allowed) = scan_requested(m, ip, now);
            let address = addr_text(ip) is Some;
            let hits = after.ipv4_hits + after.ipv6_hits - m.ipv4_hits - m.ipv6_hits;
            &&& after.total_requests == m.total_requests + 1
            &&& allowed ==> after.denied_requests == m.denied_requests
            &&& !allowed ==> after.denied_requests == m.denied_requests + 1
            &&& allowed && address ==> after.allowed_requests == m.allowed_requests + 2 && hits == 1
            &&& allowed && !address ==> after.allowed_requests == m.allowed_requests + 1 && hits
                == 0
            &&& !allowed ==> after.allowed_requests == m.allowed_requests + hits
            &&& !(addr_text(ip) matches Some(IpAddrUniversal::V4(_))) ==> after.ipv4_hits
                == m.ipv4_hits && after.v4 == m.v4
            &&& !(addr_text(ip) matches Some(IpAddrUniversal::V6(_))) ==> after.ipv6_hits
                == m.ipv6_hits && after.v6 == m.v6
            &&& after.cache_size == after.generic.dom().len()
            &&& after.interval_ms == m.interval_ms
        }),
{
}

/// A request is refused exactly if a scan under the address, or under its name, is on record
/// that is less than the interval of milliseconds old. One that is allowed puts both on
/// record as of now, and no other.
pub proof fn law_when_scans_are_refused(
    m: LimiterModel,
    ip: Seq<char>,
    now: u64,
    other: Seq<char>,
)
    ensures
        ({
            let (after, allowed) = scan_requested(m, ip, now);
            let named = m.generic.contains_key(ip) && m.generic[ip] + m.interval_ms * 1_000_000
                > now && m.interval_ms > 0;
            let met = match addr_text(ip) {
                Some(IpAddrUniversal::V4(a)) => m.v4.contains_key(a as u128) && m.v4[a as u128]
                    + m.interval_ms * 1_000_000 > now && m.interval_ms > 0,
                Some(IpAddrUniversal::V6(a)) => m.v6.contains_key(a) && m.v6[a] + m.interval_ms
                    * 1_000_000 > now && m.interval_ms > 0,
                None => false,
            };
            &&& allowed <==> !named && !met
            &&& allowed ==> after.generic == m.generic.insert(ip, now)
            &&& !allowed ==> after.generic == m.generic
            &&& allowed ==> (match addr_text(ip) {
                Some(IpAddrUniversal::V4(a)) => after.v4 == m.v4.insert(a as u128, now),
                Some(IpAddrUniversal::V6(a)) => after.v6 == m.v6.insert(a, now),
                None => true,
            })
        }),
{
}

/// A limiter has room for as many requests as its counters can still take: one whose
/// counters are all in their lower half has room for a quarter of their range, and one that
/// has room for a request more has room for it now.
pub proof fn law_room_for_requests(m: LimiterModel, n: nat)
    ensures
        m.total_requests <= 0x7fff_ffff_ffff_ffff && m.allowed_requests <= 0x7fff_ffff_ffff_ffff
            && m.denied_requests <= 0x7fff_ffff_ffff_ffff && m.ipv4_hits <= 0x7fff_ffff_ffff_ffff
            && m.ipv6_hits <= 0x7fff_ffff_ffff_ffff && n <= 0x3fff_ffff_ffff_ffff
            ==> has_room_for(m, n),
        has_room_for(m, n) <==> m.total_requests + n < 0x1_0000_0000_0000_0000 && m.allowed_requests
            + n + n < 0x1_0000_0000_0000_0000 && m.denied_requests + n < 0x1_0000_0000_0000_0000
            && m.ipv4_hits + n < 0x1_0000_0000_0000_0000 && m.ipv6_hits + n
            < 0x1_0000_0000_0000_0000,
        has_room_for(m, n) && n >= 2 ==> has_room(m),
        has_room_for(m, n + 1) ==> has_room_for(m, n),
{
}

} // verus!
