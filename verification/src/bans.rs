//! The list of bans that is kept between runs.
use vstd::prelude::*;

use crate::addr::{in_same_subnet, same_subnet, subnet64};
use crate::antiflood::{flood_label, EventModel, FloodEvent, BAN_DURATION_SECS};
use crate::clock::{
    chrono_parse_civil, civil_time, earlier, four_digit_year, is_earlier, WallClock,
    SECONDS_PATTERN,
};
use crate::table::Table;
use crate::text::same_text;

verus! {

/// A saved ban.
#[derive(Debug, Clone)]
pub struct BanRecord {
    pub ip: String,
    pub ip_type: String,
    pub reason: String,
    pub banned_at: String,
    pub expires_at: String,
    pub permanent: bool,
    pub ban_events: u32,
}

/// What a saved ban says.
pub ghost struct RecordModel {
    pub ip: Seq<char>,
    pub ip_type: Seq<char>,
    pub reason: Seq<char>,
    pub banned_at: Seq<char>,
    pub expires_at: Seq<char>,
    pub permanent: bool,
    pub ban_events: u32,
}

impl View for BanRecord {
    type V = RecordModel;

    open spec fn view(&self) -> RecordModel {
        RecordModel {
            ip: self.ip@,
            ip_type: self.ip_type@,
            reason: self.reason@,
            banned_at: self.banned_at@,
            expires_at: self.expires_at@,
            permanent: self.permanent,
            ban_events: self.ban_events,
        }
    }
}

/// What a list of saved bans says.
pub open spec fn record_views(records: Seq<BanRecord>) -> Seq<RecordModel> {
    records.map_values(|r: BanRecord| r@)
}

/// The ban of each address: the last one on the list.
pub open spec fn latest(records: Seq<RecordModel>) -> Map<Seq<char>, RecordModel>
    decreases records.len(),
{
    if records.len() == 0 {
        Map::empty()
    } else {
        latest(records.drop_last()).insert(records.last().ip, records.last())
    }
}

/// No address is on the list twice.
pub open spec fn one_each(records: Seq<RecordModel>) -> bool {
    forall|i: int, j: int|
        0 <= i < j < records.len() ==> (#[trigger] records[i]).ip != (#[trigger] records[j]).ip
}

/// Whether a ban that ends when `expires_at` says, read as `end`, has run out when the
/// local clock shows `now`. One whose end cannot be read has.
pub open spec fn run_out(
    permanent: bool,
    expires_at: Seq<char>,
    end: Option<(i64, u32)>,
    now: (i64, u32),
) -> bool {
    !permanent && expires_at != "never"@ && match end {
        Some(t) => earlier(t, now),
        None => true,
    }
}

/// Whether a saved ban has run out when the local clock shows `clock`.
pub open spec fn expired(r: RecordModel, clock: WallClock) -> bool {
    run_out(
        r.permanent,
        r.expires_at,
        civil_time(r.expires_at, SECONDS_PATTERN@),
        (clock.local(), clock.nanos),
    )
}

/// Whether another ban can be counted on top of a saved one that ends.
pub open spec fn countable(r: RecordModel) -> bool {
    !r.permanent ==> r.ban_events < u32::MAX
}

/// What is saved of a ban issued when the local clock shows `clock`, and at whose end
/// the local offset from UTC is `end_offset`.
pub open spec fn record_of(
    event: EventModel,
    reason: Option<Seq<char>>,
    count: usize,
    clock: WallClock,
    end_offset: i32,
) -> RecordModel {
    RecordModel {
        ip: event.ip,
        ip_type: event.ip_type,
        reason: match reason {
            Some(t) => t,
            None => flood_label(event.flood_type),
        },
        banned_at: clock.text(SECONDS_PATTERN@),
        expires_at: if event.permanent {
            "never"@
        } else {
            clock.later(BAN_DURATION_SECS as int, end_offset).text(SECONDS_PATTERN@)
        },
        permanent: event.permanent,
        ban_events: (count as int % 0x1_0000_0000) as u32,
    }
}

/// Whether a saved ban is over exactly when the local clock has passed the second `end`.
pub open spec fn ends_at(r: RecordModel, end: i64) -> bool {
    forall|c: WallClock|
        expired(r, c) <==> !r.permanent && earlier((end, 0u32), (#[trigger] c.local(), c.nanos))
}

/// Of a list without repetition, each ban is the last one of its address.
pub proof fn lemma_latest_one_each(records: Seq<RecordModel>, m: Map<Seq<char>, RecordModel>)
    requires
        one_each(records),
        forall|i: int|
            0 <= i < records.len() ==> m.contains_key((#[trigger] records[i]).ip)
                && m[records[i].ip] == records[i],
        forall|ip: Seq<char>| #[trigger]
            m.contains_key(ip) ==> exists|i: int|
                0 <= i < records.len() && (#[trigger] records[i]).ip == ip,
    ensures
        latest(records) == m,
    decreases records.len(),
{
    if records.len() == 0 {
        assert(latest(records) =~= m);
    } else {
        let front = records.drop_last();
        let last = records.last();
        let rest = m.remove(last.ip);
        assert forall|i: int| 0 <= i < front.len() implies rest.contains_key(
            (#[trigger] front[i]).ip,
        ) && rest[front[i].ip] == front[i] by {
            assert(records[i] == front[i]);
        }
        assert forall|ip: Seq<char>| #[trigger] rest.contains_key(ip) implies exists|i: int|
            0 <= i < front.len() && (#[trigger] front[i]).ip == ip by {
            let i = choose|i: int| 0 <= i < records.len() && (#[trigger] records[i]).ip == ip;
            assert(front[i].ip == ip);
        }
        lemma_latest_one_each(front, rest);
        assert(latest(records) =~= m);
    }
}

/// Whether each key of a table is the address of the ban under it.
spec fn keyed(t: Table<String, BanRecord>) -> bool {
    forall|i: int| 0 <= i < t.values().len() ==> t.keys()[i] == (#[trigger] t.values()[i]).ip@
}

/// The ban of each address: the last one on the list.
pub fn read_bans(records: Vec<BanRecord>) -> (r: Table<String, BanRecord>)
    ensures
        r.wf(),
        r@ == latest(record_views(records@)),
        forall|i: int| 0 <= i < r.values().len() ==> records@.contains(#[trigger] r.values()[i]),
{
    read_table(records)
}

fn read_table(records: Vec<BanRecord>) -> (r: Table<String, BanRecord>)
    ensures
        r.wf(),
        r@ == latest(record_views(records@)),
        keyed(r),
        forall|i: int| 0 <= i < r.values().len() ==> records@.contains(#[trigger] r.values()[i]),
{
    let ghost all = record_views(records@);
    let ghost source = records@;
    let mut rest = records;
    let mut backwards: Vec<BanRecord> = Vec::new();
    while rest.len() > 0
        invariant
            rest.len() + backwards.len() == source.len(),
            forall|j: int| 0 <= j < rest.len() ==> #[trigger] rest@[j] == source[j],
            forall|j: int|
                0 <= j < backwards.len() ==> #[trigger] backwards@[j] == source[source.len() - 1
                    - j],
        decreases rest.len(),
    {
        if let Some(v) = rest.pop() {
            backwards.push(v);
        }
    }
    let mut out: Table<String, BanRecord> = Table::new();
    let ghost mut n: int = 0;
    assert(all.take(0) =~= Seq::<RecordModel>::empty());
    while backwards.len() > 0
        invariant
            all == record_views(source),
            n + backwards.len() == source.len(),
            0 <= n,
            forall|j: int|
                0 <= j < backwards.len() ==> #[trigger] backwards@[j] == source[source.len() - 1
                    - j],
            out.wf(),
            out@ == latest(all.take(n)),
            keyed(out),
            forall|i: int|
                0 <= i < out.values().len() ==> source.contains(#[trigger] out.values()[i]),
        decreases backwards.len(),
    {
        if let Some(v) = backwards.pop() {
            assert(v == source[n]);
            assert(source.contains(v));
            put(&mut out, v);
            proof {
                assert(all.take(n + 1).drop_last() =~= all.take(n));
                n = n + 1;
            }
        }
    }
    assert(all.take(n) =~= all);
    out
}

/// Makes a ban the one of its address.
fn put(t: &mut Table<String, BanRecord>, r: BanRecord)
    requires
        old(t).wf(),
        keyed(*old(t)),
    ensures
        final(t).wf(),
        keyed(*final(t)),
        final(t)@ == old(t)@.insert(r.ip@, r@),
        forall|j: int|
            0 <= j < final(t).values().len() ==> {
                let v = #[trigger] final(t).values()[j];
                v == r || old(t).values().contains(v)
            },
{
    let ghost before = *t;
    let key = r.ip.as_str().to_owned();
    match t.position(&key) {
        Some(i) => {
            *t.value_mut(i) = r;
            proof {
                Table::lemma_set(before, *t, i as int, r);
                assert forall|j: int| 0 <= j < t.values().len() implies ({
                    let v = #[trigger] t.values()[j];
                    v == r || before.values().contains(v)
                }) by {
                    if j != i {
                        assert(before.values()[j] == t.values()[j]);
                    }
                }
                assert forall|j: int| 0 <= j < t.values().len() implies t.keys()[j] == (
                #[trigger] t.values()[j]).ip@ by {
                    assert(before.keys()[j] == before.values()[j].ip@);
                }
            }
        },
        None => {
            t.add_new(key, r);
            proof {
                assert forall|j: int| 0 <= j < t.values().len() implies ({
                    let v = #[trigger] t.values()[j];
                    v == r || before.values().contains(v)
                }) by {
                    if j < before.values().len() {
                        assert(before.values()[j] == t.values()[j]);
                    }
                }
                assert forall|j: int| 0 <= j < t.values().len() implies t.keys()[j] == (
                #[trigger] t.values()[j]).ip@ by {
                    if j < before.values().len() {
                        assert(before.keys()[j] == before.values()[j].ip@);
                    }
                }
            }
        },
    }
}

/// The bans of a table as a list.
fn list_of(t: Table<String, BanRecord>) -> (r: Vec<BanRecord>)
    requires
        t.wf(),
        keyed(t),
    ensures
        one_each(record_views(r@)),
        latest(record_views(r@)) == t@,
{
    let r = t.into_values();
    proof {
        let views = record_views(r@);
        assert forall|i: int, j: int| 0 <= i < j < views.len() implies (#[trigger] views[i]).ip
            != (#[trigger] views[j]).ip by {
            assert(t.keys()[i] == t.values()[i].ip@);
            assert(t.keys()[j] == t.values()[j].ip@);
        }
        assert forall|i: int| 0 <= i < views.len() implies t@.contains_key((#[trigger] views[i]).ip)
            && t@[views[i].ip] == views[i] by {
            t.lemma_at(i);
            assert(t.keys()[i] == t.values()[i].ip@);
        }
        assert forall|ip: Seq<char>| #[trigger] t@.contains_key(ip) implies exists|i: int|
            0 <= i < views.len() && (#[trigger] views[i]).ip == ip by {
            let i = t.keys().index_of(ip);
            assert(t.keys()[i] == t.values()[i].ip@);
            assert(views[i].ip == ip);
        }
        lemma_latest_one_each(views, t@);
    }
    r
}

/// Whether a saved ban has run out.
pub fn is_expired(r: &BanRecord, clock: &WallClock) -> (b: bool)
    requires
        clock.wf(),
    ensures
        b == expired(r@, *clock),
{
    let end = chrono_parse_civil(r.expires_at.as_str(), SECONDS_PATTERN);
    has_run_out(r.permanent, r.expires_at.as_str(), end, (clock.local_secs(), clock.nanos))
}

/// Whether a ban whose end was read as `end` has run out.
pub fn has_run_out(
    permanent: bool,
    expires_at: &str,
    end: Option<(i64, u32)>,
    now: (i64, u32),
) -> (r: bool)
    ensures
        r == run_out(permanent, expires_at@, end, now),
{
    if permanent || same_text(expires_at, "never") {
        return false;
    }
    match end {
        Some(t) => is_earlier(t, now),
        None => true,
    }
}

/// What is saved of a ban.
pub fn ban_record(
    event: &FloodEvent,
    reason: Option<String>,
    count: usize,
    clock: &WallClock,
    end_offset: i32,
) -> (r: BanRecord)
    requires
        clock.wf(),
        clock.later(BAN_DURATION_SECS as int, end_offset).wf(),
    ensures
        r@ == record_of(
            event@,
            match reason {
                Some(t) => Some(t@),
                None => None,
            },
            count,
            *clock,
            end_offset,
        ),
        four_digit_year(clock.later(BAN_DURATION_SECS as int, end_offset).local() as int)
            ==> ends_at(r@, clock.later(BAN_DURATION_SECS as int, end_offset).local()),
{
    let reason = match reason {
        Some(t) => t,
        None => event.flood_type.label().to_owned(),
    };
    let end = WallClock {
        secs: clock.secs + BAN_DURATION_SECS as i64,
        nanos: clock.nanos,
        offset: end_offset,
    };
    let expires_at = if event.permanent {
        "never".to_owned()
    } else {
        end.format(SECONDS_PATTERN)
    };
    proof {
        reveal_strlit("never");
    }
    BanRecord {
        ip: event.ip.as_str().to_owned(),
        ip_type: event.ip_type.as_str().to_owned(),
        reason,
        banned_at: clock.format(SECONDS_PATTERN),
        expires_at,
        permanent: event.permanent,
        ban_events: ((count as u64) % 0x1_0000_0000u64) as u32,
    }
}

/// The list of bans after one more was issued: it takes the place of the older ban of
/// its address. Read back later, it still holds until ten minutes have passed.
pub fn persist_ban(
    records: Vec<BanRecord>,
    event: &FloodEvent,
    reason: Option<String>,
    count: usize,
    clock: &WallClock,
    end_offset: i32,
) -> (r: Vec<BanRecord>)
    requires
        clock.wf(),
        clock.later(BAN_DURATION_SECS as int, end_offset).wf(),
    ensures
        one_each(record_views(r@)),
        latest(record_views(r@)) == latest(record_views(records@)).insert(
            event@.ip,
            record_of(
                event@,
                match reason {
                    Some(t) => Some(t@),
                    None => None,
                },
                count,
                *clock,
                end_offset,
            ),
        ),
        four_digit_year(clock.later(BAN_DURATION_SECS as int, end_offset).local() as int)
            ==> ends_at(
            latest(record_views(r@))[event@.ip],
            clock.later(BAN_DURATION_SECS as int, end_offset).local(),
        ),
{
    let mut t = read_table(records);
    put(&mut t, ban_record(event, reason, count, clock, end_offset));
    list_of(t)
}

/// The bans of other addresses: not of the address, nor of its subnet.
pub open spec fn bans_elsewhere(
    bans: Map<Seq<char>, RecordModel>,
    ip: Seq<char>,
) -> Map<Seq<char>, RecordModel> {
    bans.remove_keys(Set::new(|other: Seq<char>| same_subnet(other, ip)))
}

/// The list of bans without the one of an address, and for IPv6 without those of its
/// subnet.
pub fn forget_ban(records: Vec<BanRecord>, ip: &str) -> (r: Vec<BanRecord>)
    ensures
        one_each(record_views(r@)),
        latest(record_views(r@)) == bans_elsewhere(latest(record_views(records@)), ip@),
{
    let mut t = read_table(records);
    let ghost before = t;
    let ghost p = |r: RecordModel| !same_subnet(r.ip, ip@);
    let keep = |r: &BanRecord| -> (b: bool)
        ensures
            b == !same_subnet(r@.ip, ip@),
    {
        !in_same_subnet(r.ip.as_str(), ip)
    };
    t.retain(keep, Ghost(p));
    proof {
        assert forall|j: int| 0 <= j < t.values().len() implies t.keys()[j] == (
        #[trigger] t.values()[j]).ip@ by {
            let i = choose|i: int|
                0 <= i < before.keys().len() && #[trigger] before.keys()[i] == t.keys()[j]
                    && before.values()[i] == t.values()[j];
            assert(before.keys()[i] == before.values()[i].ip@);
        }
        assert forall|k: Seq<char>| #[trigger] before@.contains_key(k) implies before@[k].ip
            == k by {
            let i = before.keys().index_of(k);
            before.lemma_at(i);
            assert(before.keys()[i] == before.values()[i].ip@);
        }
        assert(t@ =~= bans_elsewhere(before@, ip@));
    }
    list_of(t)
}

/// A saved ban has run out exactly if it has an end, its end is not "never", and the end
/// lies before this moment or cannot be read.
pub proof fn law_bans_run_out(r: RecordModel, clock: WallClock)
    ensures
        ({
            let end = civil_time(r.expires_at, "%Y-%m-%d %H:%M:%S"@);
            let passed = match end {
                Some(t) => t.0 < clock.local() || (t.0 == clock.local()
                && t.1 < clock.nanos),
                None => false,
            };
            &&& r.permanent || r.expires_at == "never"@ ==> !expired(r, clock)
            &&& !r.permanent && r.expires_at != "never"@ && end is None ==> expired(r, clock)
            &&& !r.permanent && r.expires_at != "never"@ && end is Some ==> (expired(r, clock)
                <==> passed)
        }),
{
}

/// The record of a ban says who was banned, when, and for what: the reason that is given,
/// or else the name of the attack. It ends 600 seconds later by the local clock, or never.
pub proof fn law_record_says(
    event: EventModel,
    reason: Option<Seq<char>>,
    count: usize,
    clock: WallClock,
    end_offset: i32,
)
    requires
        count < 0x1_0000_0000,
    ensures
        ({
            let r = record_of(event, reason, count, clock, end_offset);
            &&& r.ip == event.ip && r.ip_type == event.ip_type && r.permanent == event.permanent
                && r.ban_events == count
            &&& reason is Some ==> r.reason == reason->0
            &&& reason is None ==> r.reason == flood_label(event.flood_type)
            &&& r.banned_at == clock.text("%Y-%m-%d %H:%M:%S"@)
            &&& event.permanent ==> r.expires_at == "never"@
            &&& !event.permanent ==> r.expires_at == clock.later(600, end_offset).text(
                "%Y-%m-%d %H:%M:%S"@,
            )
        }),
{
}

/// Of several records of an address the last one counts, and other addresses stay.
pub proof fn law_last_record_counts(records: Seq<RecordModel>, r: RecordModel, ip: Seq<char>)
    ensures
        latest(records.push(r)).contains_key(r.ip) && latest(records.push(r))[r.ip] == r,
        ip != r.ip ==> (latest(records.push(r)).contains_key(ip) <==> latest(records).contains_key(
            ip,
        )) && latest(records.push(r))[ip] == latest(records)[ip],
        !latest(Seq::empty()).contains_key(ip),
{
    assert(records.push(r).drop_last() =~= records);
}

/// An unban takes the saved bans of the address and of its subnet out, and no other.
pub proof fn law_other_bans_stay(
    bans: Map<Seq<char>, RecordModel>,
    ip: Seq<char>,
    other: Seq<char>,
)
    ensures
        bans_elsewhere(bans, ip).contains_key(other) <==> bans.contains_key(other) && other != ip
            && !(subnet64(other) is Some && subnet64(other) == subnet64(ip)),
        bans_elsewhere(bans, ip).contains_key(other) ==> bans_elsewhere(bans, ip)[other]
            == bans[other],
{
}

} // verus!
