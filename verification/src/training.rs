//! What is learnt of the devices in a network.
use vstd::prelude::*;

use crate::antiflood::{ip_type, ip_type_of};
use crate::clock::{
    chrono_parse_civil, chrono_seconds_between, civil, civil_time, seconds_between, WallClock,
    MILLIS_PATTERN,
};

verus! {

/// The most samples that are kept of one address.
pub const MAX_SAMPLES_PER_IP: usize = 500;

/// How many samples are left when there were too many.
pub const TRIM_TO_SAMPLES: usize = 400;

/// From this number of samples on a device has a behaviour.
pub const MIN_SAMPLES_FOR_BEHAVIOR: usize = 5;

/// Samples are forgotten after this time, in seconds: seven days.
pub const MAX_IP_AGE_SECS: u64 = 604_800;

// ---------------------------------------------------------------------------
// Records
// ---------------------------------------------------------------------------

/// What one scan found on a device.
#[derive(Debug, Clone)]
pub struct TrainingSample {
    pub timestamp: String,
    pub ip: String,
    pub ip_type: String,
    pub hour: u32,
    pub day_of_week: u32,
    pub open_ports: Vec<u16>,
}

/// What a sample says.
pub ghost struct SampleModel {
    pub timestamp: Seq<char>,
    pub ip: Seq<char>,
    pub ip_type: Seq<char>,
    pub hour: u32,
    pub day_of_week: u32,
    pub open_ports: Seq<u16>,
}

impl View for TrainingSample {
    type V = SampleModel;

    open spec fn view(&self) -> SampleModel {
        SampleModel {
            timestamp: self.timestamp@,
            ip: self.ip@,
            ip_type: self.ip_type@,
            hour: self.hour,
            day_of_week: self.day_of_week,
            open_ports: self.open_ports@,
        }
    }
}

/// How a device usually behaves.
#[derive(Debug, Clone)]
pub struct DeviceBehavior {
    pub ip: String,
    pub ip_type: String,
    pub typical_hours: Vec<u32>,
    pub typical_ports: Vec<u16>,
    pub appearance_count: u32,
    pub first_seen: String,
    pub last_seen: String,
    pub unique_days: u32,
    /// The average time between samples in minutes, carried as the bits of the number.
    pub avg_interval_minutes: u64,
}

/// What a behaviour says.
pub ghost struct BehaviorModel {
    pub ip: Seq<char>,
    pub ip_type: Seq<char>,
    pub typical_hours: Seq<u32>,
    pub typical_ports: Seq<u16>,
    pub appearance_count: u32,
    pub first_seen: Seq<char>,
    pub last_seen: Seq<char>,
    pub unique_days: u32,
    pub avg_interval_minutes: u64,
}

impl View for DeviceBehavior {
    type V = BehaviorModel;

    open spec fn view(&self) -> BehaviorModel {
        BehaviorModel {
            ip: self.ip@,
            ip_type: self.ip_type@,
            typical_hours: self.typical_hours@,
            typical_ports: self.typical_ports@,
            appearance_count: self.appearance_count,
            first_seen: self.first_seen@,
            last_seen: self.last_seen@,
            unique_days: self.unique_days,
            avg_interval_minutes: self.avg_interval_minutes,
        }
    }
}

/// A finding that was put on record.
#[derive(Debug, Clone)]
pub struct IntelligenceLog {
    pub timestamp: String,
    pub ip: String,
    pub ip_type: String,
    pub event_type: String,
    pub details: String,
    pub risk_level: u8,
    pub source: String,
}

/// What a finding says.
pub ghost struct IntelModel {
    pub timestamp: Seq<char>,
    pub ip: Seq<char>,
    pub ip_type: Seq<char>,
    pub event_type: Seq<char>,
    pub details: Seq<char>,
    pub risk_level: u8,
    pub source: Seq<char>,
}

impl View for IntelligenceLog {
    type V = IntelModel;

    open spec fn view(&self) -> IntelModel {
        IntelModel {
            timestamp: self.timestamp@,
            ip: self.ip@,
            ip_type: self.ip_type@,
            event_type: self.event_type@,
            details: self.details@,
            risk_level: self.risk_level,
            source: self.source@,
        }
    }
}

/// What a list of samples says.
pub open spec fn sample_views(s: Seq<TrainingSample>) -> Seq<SampleModel> {
    s.map_values(|x: TrainingSample| x@)
}

/// A copy of a sample.
pub fn copy_sample(s: &TrainingSample) -> (r: TrainingSample)
    ensures
        r@ == s@,
{
    let r = TrainingSample {
        timestamp: s.timestamp.as_str().to_owned(),
        ip: s.ip.as_str().to_owned(),
        ip_type: s.ip_type.as_str().to_owned(),
        hour: s.hour,
        day_of_week: s.day_of_week,
        open_ports: s.open_ports.clone(),
    };
    assert(r.open_ports@ =~= s.open_ports@);
    r
}

/// A copy of a list of samples.
pub fn copy_samples(v: &Vec<TrainingSample>) -> (r: Vec<TrainingSample>)
    ensures
        sample_views(r@) == sample_views(v@),
{
    let mut out: Vec<TrainingSample> = Vec::new();
    let mut i: usize = 0;
    assert(sample_views(out@) =~= sample_views(v@).take(0));
    while i < v.len()
        invariant
            i <= v.len(),
            sample_views(out@) == sample_views(v@).take(i as int),
        decreases v.len() - i,
    {
        let ghost before = out@;
        let s = copy_sample(&v[i]);
        out.push(s);
        i += 1;
        assert(sample_views(out@) =~= sample_views(before).push(s@));
        assert(sample_views(out@) =~= sample_views(v@).take(i as int));
    }
    assert(sample_views(v@).take(i as int) =~= sample_views(v@));
    out
}

/// A copy of a behaviour.
pub fn copy_behavior(b: &DeviceBehavior) -> (r: DeviceBehavior)
    ensures
        r@ == b@,
{
    let r = DeviceBehavior {
        ip: b.ip.as_str().to_owned(),
        ip_type: b.ip_type.as_str().to_owned(),
        typical_hours: b.typical_hours.clone(),
        typical_ports: b.typical_ports.clone(),
        appearance_count: b.appearance_count,
        first_seen: b.first_seen.as_str().to_owned(),
        last_seen: b.last_seen.as_str().to_owned(),
        unique_days: b.unique_days,
        avg_interval_minutes: b.avg_interval_minutes,
    };
    assert(r.typical_hours@ =~= b.typical_hours@);
    assert(r.typical_ports@ =~= b.typical_ports@);
    r
}

/// A copy of a finding.
pub fn copy_intel(l: &IntelligenceLog) -> (r: IntelligenceLog)
    ensures
        r@ == l@,
{
    IntelligenceLog {
        timestamp: l.timestamp.as_str().to_owned(),
        ip: l.ip.as_str().to_owned(),
        ip_type: l.ip_type.as_str().to_owned(),
        event_type: l.event_type.as_str().to_owned(),
        details: l.details.as_str().to_owned(),
        risk_level: l.risk_level,
        source: l.source.as_str().to_owned(),
    }
}

// ---------------------------------------------------------------------------
// Keeping samples in bounds
// ---------------------------------------------------------------------------

/// The samples that are left of a list: the latest, where there were too many.
pub open spec fn trimmed_samples(s: Seq<SampleModel>) -> Seq<SampleModel> {
    if s.len() > MAX_SAMPLES_PER_IP {
        s.skip(s.len() - TRIM_TO_SAMPLES)
    } else {
        s
    }
}

/// Drops the oldest samples where there are too many.
pub fn trim_samples(v: &mut Vec<TrainingSample>)
    ensures
        sample_views(final(v)@) == trimmed_samples(sample_views(old(v)@)),
        final(v)@.len() <= MAX_SAMPLES_PER_IP,
{
    if v.len() > MAX_SAMPLES_PER_IP {
        let ghost before = v@;
        let count: usize = v.len() - TRIM_TO_SAMPLES;
        let tail = v.split_off(count);
        *v = tail;
        assert(sample_views(v@) =~= sample_views(before).skip(count as int));
    }
}

/// Whether a time that was read as `t` is at most seven days before `now`. One that
/// cannot be read counts as such.
pub open spec fn within_week(t: Option<(i64, u32)>, now: (i64, u32)) -> bool {
    match t {
        Some(t) => seconds_between(t, now) <= MAX_IP_AGE_SECS,
        None => true,
    }
}

/// Whether the samples of an address are kept: there are some, and the time of the latest
/// is at most seven days ago.
pub open spec fn samples_stay(s: Seq<SampleModel>, clock: WallClock) -> bool {
    s.len() > 0 && within_week(
        civil_time(s.last().timestamp, MILLIS_PATTERN@),
        (clock.local(), clock.nanos),
    )
}

/// The samples after a cleanup.
pub open spec fn samples_retained(
    m: Map<Seq<char>, Seq<SampleModel>>,
    clock: WallClock,
) -> Map<Seq<char>, Seq<SampleModel>> {
    m.restrict(
        Set::new(|ip: Seq<char>| m.contains_key(ip) && samples_stay(m[ip], clock)),
    ).map_values(|s: Seq<SampleModel>| trimmed_samples(s))
}

/// Whether the samples of an address are kept; if so, the oldest go where there are too
/// many.
pub fn keep_samples(v: &mut Vec<TrainingSample>, clock: &WallClock) -> (r: bool)
    requires
        clock.wf(),
    ensures
        r == samples_stay(sample_views(old(v)@), *clock),
        r ==> sample_views(final(v)@) == trimmed_samples(sample_views(old(v)@)),
{
    let n: usize = v.len();
    if n == 0 {
        return false;
    }
    let ghost all = sample_views(v@);
    assert(all.last() == v@[n - 1]@);
    let last = chrono_parse_civil(v[n - 1].timestamp.as_str(), MILLIS_PATTERN);
    if !is_within_week(last, (clock.local_secs(), clock.nanos)) {
        return false;
    }
    trim_samples(v);
    true
}

/// Whether a time that was read as `t` is at most seven days before `now`. One that
/// cannot be read counts as such.
pub fn is_within_week(t: Option<(i64, u32)>, now: (i64, u32)) -> (r: bool)
    requires
        t matches Some(t) ==> civil(t),
        civil(now),
    ensures
        r == within_week(t, now),
{
    match t {
        Some(t) => chrono_seconds_between(t, now) <= MAX_IP_AGE_SECS as i64,
        None => true,
    }
}

// ---------------------------------------------------------------------------
// Behaviour
// ---------------------------------------------------------------------------

/// The values of a list, each once, in the order of their first occurrence.
pub open spec fn distinct<T>(s: Seq<T>) -> Seq<T>
    decreases s.len(),
{
    if s.len() == 0 {
        seq![]
    } else {
        let before = distinct(s.drop_last());
        if s.drop_last().contains(s.last()) {
            before
        } else {
            before.push(s.last())
        }
    }
}

/// How often a value occurs in a list.
pub open spec fn occurrences<T>(s: Seq<T>, x: T) -> nat {
    s.to_multiset().count(x)
}

/// The values that occur at least `threshold` times.
pub open spec fn typical<T>(s: Seq<T>, threshold: u32) -> Seq<T> {
    distinct(s).filter(|x: T| occurrences(s, x) >= threshold)
}

/// The hours of the samples.
pub open spec fn sample_hours(s: Seq<SampleModel>) -> Seq<u32> {
    s.map_values(|x: SampleModel| x.hour)
}

/// The days of the samples.
pub open spec fn sample_days(s: Seq<SampleModel>) -> Seq<u32> {
    s.map_values(|x: SampleModel| x.day_of_week)
}

/// The open ports of all samples.
pub open spec fn sample_ports(s: Seq<SampleModel>) -> Seq<u16>
    decreases s.len(),
{
    if s.len() == 0 {
        seq![]
    } else {
        sample_ports(s.drop_last()) + s.last().open_ports
    }
}

/// The times of the samples, as far as they can be read.
pub open spec fn sample_times(s: Seq<SampleModel>) -> Seq<(i64, u32)>
    decreases s.len(),
{
    if s.len() == 0 {
        seq![]
    } else {
        match civil_time(s.last().timestamp, MILLIS_PATTERN@) {
            Some(t) => sample_times(s.drop_last()).push(t),
            None => sample_times(s.drop_last()),
        }
    }
}

/// The time from each moment to the next in whole seconds, where that is at least one:
/// how many of those there are, and their sum.
pub open spec fn intervals(times: Seq<(i64, u32)>) -> (nat, nat)
    decreases times.len(),
{
    if times.len() < 2 {
        (0, 0)
    } else {
        let (count, sum) = intervals(times.drop_last());
        let d = seconds_between(times[times.len() - 2], times.last());
        if d > 0 {
            (count + 1, (sum + d) as nat)
        } else {
            (count, sum)
        }
    }
}

/// Numbers that can be told apart.
pub trait Number: Copy {
    /// Whether two numbers are the same.
    fn equals(&self, other: &Self) -> (r: bool)
        ensures
            r == (*self == *other),
    ;
}

impl Number for u16 {
    fn equals(&self, other: &Self) -> (r: bool) {
        *self == *other
    }
}

impl Number for u32 {
    fn equals(&self, other: &Self) -> (r: bool) {
        *self == *other
    }
}

/// A list and its distinct values hold the same values.
pub proof fn lemma_distinct<T>(s: Seq<T>)
    ensures
        forall|x: T| #[trigger] distinct(s).contains(x) <==> s.contains(x),
        distinct(s).no_duplicates(),
    decreases s.len(),
{
    if s.len() > 0 {
        let front = s.drop_last();
        lemma_distinct(front);
        let last = s.last();
        assert(distinct(front).contains(last) <==> front.contains(last));
        assert(distinct(s).no_duplicates());
        assert forall|x: T| distinct(s).contains(x) <==> s.contains(x) by {
            if s.contains(x) {
                let i = s.index_of(x);
                if i < front.len() {
                    assert(front[i] == x);
                    assert(front.contains(x));
                    assert(distinct(front).contains(x));
                    let j = distinct(front).index_of(x);
                    assert(distinct(s)[j] == x);
                } else if !front.contains(s.last()) {
                    assert(distinct(s)[distinct(front).len() as int] == x);
                } else {
                    assert(distinct(front).contains(x));
                    let j = distinct(front).index_of(x);
                    assert(distinct(s)[j] == x);
                }
            }
            if distinct(s).contains(x) {
                let j = distinct(s).index_of(x);
                if j < distinct(front).len() {
                    assert(distinct(front)[j] == x);
                    assert(distinct(front).contains(x));
                    assert(front.contains(x));
                    let i = front.index_of(x);
                    assert(s[i] == x);
                } else {
                    assert(s[s.len() - 1] == x);
                }
            }
        }
    }
}

fn contains_number<T: Number>(v: &Vec<T>, x: T) -> (r: bool)
    ensures
        r == v@.contains(x),
{
    let mut i: usize = 0;
    while i < v.len()
        invariant
            i <= v.len(),
            forall|j: int| 0 <= j < i ==> v@[j] != x,
        decreases v.len() - i,
    {
        if v[i].equals(&x) {
            return true;
        }
        i += 1;
    }
    false
}

/// The values of a list, each once.
pub fn distinct_of<T: Number>(v: &Vec<T>) -> (r: Vec<T>)
    ensures
        r@ == distinct(v@),
{
    let mut out: Vec<T> = Vec::new();
    let mut i: usize = 0;
    assert(v@.take(0) =~= Seq::<T>::empty());
    while i < v.len()
        invariant
            i <= v.len(),
            out@ == distinct(v@.take(i as int)),
        decreases v.len() - i,
    {
        proof {
            lemma_distinct(v@.take(i as int));
            assert(v@.take(i + 1).drop_last() =~= v@.take(i as int));
        }
        if !contains_number(&out, v[i]) {
            out.push(v[i]);
        }
        i += 1;
    }
    assert(v@.take(i as int) =~= v@);
    out
}

/// How often a value occurs in a list.
fn count_of<T: Number>(v: &Vec<T>, x: T) -> (r: usize)
    ensures
        r == occurrences(v@, x),
{
    let mut n: usize = 0;
    let mut i: usize = 0;
    proof {
        assert(v@.take(0) =~= Seq::<T>::empty());
        v@.take(0).to_multiset_ensures();
    }
    while i < v.len()
        invariant
            n <= i <= v.len(),
            n == occurrences(v@.take(i as int), x),
        decreases v.len() - i,
    {
        proof {
            v@.take(i as int).to_multiset_ensures();
            assert(v@.take(i + 1) =~= v@.take(i as int).push(v@[i as int]));
        }
        if v[i].equals(&x) {
            n += 1;
        }
        i += 1;
    }
    assert(v@.take(i as int) =~= v@);
    n
}

/// The values that occur at least `threshold` times.
pub fn typical_of<T: Number>(v: &Vec<T>, threshold: u32) -> (r: Vec<T>)
    ensures
        r@ == typical(v@, threshold),
{
    let once = distinct_of(v);
    let ghost p = |x: T| occurrences(v@, x) >= threshold;
    let mut out: Vec<T> = Vec::new();
    let mut i: usize = 0;
    proof {
        reveal(Seq::filter);
        assert(out@ =~= once@.take(0).filter(p));
    }
    while i < once.len()
        invariant
            i <= once.len(),
            p == |x: T| occurrences(v@, x) >= threshold,
            out@ == once@.take(i as int).filter(p),
        decreases once.len() - i,
    {
        proof {
            reveal(Seq::filter);
            assert(once@.take(i + 1).drop_last() =~= once@.take(i as int));
        }
        if count_of(v, once[i]) as u64 >= threshold as u64 {
            out.push(once[i]);
        }
        i += 1;
    }
    assert(once@.take(i as int) =~= once@);
    out
}

/// The hours of the samples.
fn hours_of(v: &Vec<TrainingSample>) -> (r: Vec<u32>)
    ensures
        r@ == sample_hours(sample_views(v@)),
{
    let ghost all = sample_hours(sample_views(v@));
    let mut out: Vec<u32> = Vec::new();
    let mut i: usize = 0;
    while i < v.len()
        invariant
            i <= v.len(),
            all == sample_hours(sample_views(v@)),
            out@ == all.take(i as int),
        decreases v.len() - i,
    {
        out.push(v[i].hour);
        i += 1;
        assert(out@ =~= all.take(i as int));
    }
    assert(out@ =~= all);
    out
}

/// The days of the samples.
fn days_of(v: &Vec<TrainingSample>) -> (r: Vec<u32>)
    ensures
        r@ == sample_days(sample_views(v@)),
{
    let ghost all = sample_days(sample_views(v@));
    let mut out: Vec<u32> = Vec::new();
    let mut i: usize = 0;
    while i < v.len()
        invariant
            i <= v.len(),
            all == sample_days(sample_views(v@)),
            out@ == all.take(i as int),
        decreases v.len() - i,
    {
        out.push(v[i].day_of_week);
        i += 1;
        assert(out@ =~= all.take(i as int));
    }
    assert(out@ =~= all);
    out
}

/// The open ports of all samples.
fn ports_of(v: &Vec<TrainingSample>) -> (r: Vec<u16>)
    ensures
        r@ == sample_ports(sample_views(v@)),
{
    let ghost all = sample_views(v@);
    let mut out: Vec<u16> = Vec::new();
    let mut i: usize = 0;
    assert(all.take(0) =~= Seq::<SampleModel>::empty());
    while i < v.len()
        invariant
            i <= v.len(),
            all == sample_views(v@),
            out@ == sample_ports(all.take(i as int)),
        decreases v.len() - i,
    {
        proof {
            assert(all.take(i + 1).drop_last() =~= all.take(i as int));
            assert(all[i as int] == v@[i as int]@);
        }
        let ports = &v[i].open_ports;
        let ghost before = out@;
        let mut j: usize = 0;
        while j < ports.len()
            invariant
                j <= ports.len(),
                out@ == before + ports@.take(j as int),
            decreases ports.len() - j,
        {
            out.push(ports[j]);
            j += 1;
            assert(out@ =~= before + ports@.take(j as int));
        }
        assert(ports@.take(j as int) =~= ports@);
        i += 1;
    }
    assert(all.take(i as int) =~= all);
    out
}

/// What the average time between the samples of a device is made from, and how many
/// samples there are.
#[derive(Debug, Clone, Copy, PartialEq, Eq, Structural)]
pub struct BehaviorInput {
    pub samples: usize,
    pub interval_count: u64,
    pub interval_sum: u128,
}

/// Whether the input is the one that the samples give.
pub open spec fn input_of(i: BehaviorInput, s: Seq<SampleModel>) -> bool {
    i.samples == s.len() && (i.interval_count as nat, i.interval_sum as nat) == intervals(
        sample_times(s),
    )
}

/// The times of the samples, as far as they can be read.
fn read_times(v: &Vec<TrainingSample>) -> (r: Vec<(i64, u32)>)
    ensures
        r@ == sample_times(sample_views(v@)),
        forall|i: int| 0 <= i < r@.len() ==> civil(#[trigger] r@[i]),
{
    let ghost all = sample_views(v@);
    let mut out: Vec<(i64, u32)> = Vec::new();
    let mut i: usize = 0;
    assert(all.take(0) =~= Seq::<SampleModel>::empty());
    while i < v.len()
        invariant
            i <= v.len(),
            all == sample_views(v@),
            out@ == sample_times(all.take(i as int)),
            forall|k: int| 0 <= k < out@.len() ==> civil(#[trigger] out@[k]),
        decreases v.len() - i,
    {
        proof {
            assert(all.take(i + 1).drop_last() =~= all.take(i as int));
            assert(all[i as int] == v@[i as int]@);
        }
        if let Some(t) = chrono_parse_civil(v[i].timestamp.as_str(), MILLIS_PATTERN) {
            out.push(t);
        }
        i += 1;
    }
    assert(all.take(i as int) =~= all);
    out
}

/// The time from each moment to the next in whole seconds, where that is at least one:
/// how many of those there are, and their sum.
pub fn measure_times(times: &Vec<(i64, u32)>) -> (r: (u64, u128))
    requires
        forall|i: int| 0 <= i < times@.len() ==> civil(#[trigger] times@[i]),
    ensures
        (r.0 as nat, r.1 as nat) == intervals(times@),
{
    let mut count: u64 = 0;
    let mut sum: u128 = 0;
    let mut i: usize = 1;
    if times.len() < 2 {
        return (0, 0);
    }
    while i < times.len()
        invariant
            1 <= i <= times.len(),
            forall|k: int| 0 <= k < times@.len() ==> civil(#[trigger] times@[k]),
            count < i,
            sum <= i * 0x1_0000_0000_0000,
            (count as nat, sum as nat) == intervals(times@.take(i as int)),
        decreases times.len() - i,
    {
        let ghost longer = times@.take(i + 1);
        proof {
            assert(longer.drop_last() =~= times@.take(i as int));
            assert(longer[longer.len() - 2] == times@[i - 1]);
        }
        let d: i64 = chrono_seconds_between(times[i - 1], times[i]);
        if d > 0 {
            assert(sum + d < 0xffff_ffff_ffff_ffff_ffff_ffff_ffff_ffff) by (nonlinear_arith)
                requires
                    sum <= i * 0x1_0000_0000_0000,
                    i <= 0xffff_ffff_ffff_ffff,
                    d < 0x1_0000_0000_0000,
            ;
            count += 1;
            sum += d as u128;
        }
        i += 1;
        assert(sum <= i * 0x1_0000_0000_0000) by (nonlinear_arith)
            requires
                sum <= (i - 1) * 0x1_0000_0000_0000 + 0x1_0000_0000_0000,
        ;
    }
    assert(times@.take(i as int) =~= times@);
    (count, sum)
}

/// What the average time between the samples is made from.
pub fn measure(v: &Vec<TrainingSample>) -> (r: BehaviorInput)
    ensures
        input_of(r, sample_views(v@)),
{
    let (interval_count, interval_sum) = measure_times(&read_times(v));
    BehaviorInput { samples: v.len(), interval_count, interval_sum }
}

/// The behaviour that samples show.
pub open spec fn behavior_of(
    ip: Seq<char>,
    s: Seq<SampleModel>,
    threshold: u32,
    avg_interval: u64,
) -> BehaviorModel {
    BehaviorModel {
        ip,
        ip_type: ip_type_of(ip),
        typical_hours: typical(sample_hours(s), threshold),
        typical_ports: typical(sample_ports(s), threshold),
        appearance_count: (s.len() % 0x1_0000_0000) as u32,
        first_seen: s[0].timestamp,
        last_seen: s.last().timestamp,
        unique_days: (distinct(sample_days(s)).len() % 0x1_0000_0000) as u32,
        avg_interval_minutes: avg_interval,
    }
}

/// The behaviour that samples show. What occurs in at least `threshold` of them is
/// typical.
pub fn learn_behavior(ip: &str, v: &Vec<TrainingSample>, threshold: u32, avg_interval: u64) -> (r:
    DeviceBehavior)
    requires
        v.len() > 0,
    ensures
        r@ == behavior_of(ip@, sample_views(v@), threshold, avg_interval),
{
    let days = distinct_of(&days_of(v));
    let n: usize = v.len();
    DeviceBehavior {
        ip: ip.to_owned(),
        ip_type: ip_type(ip),
        typical_hours: typical_of(&hours_of(v), threshold),
        typical_ports: typical_of(&ports_of(v), threshold),
        appearance_count: (n as u64 % 0x1_0000_0000) as u32,
        first_seen: v[0].timestamp.as_str().to_owned(),
        last_seen: v[n - 1].timestamp.as_str().to_owned(),
        unique_days: (days.len() as u64 % 0x1_0000_0000) as u32,
        avg_interval_minutes: avg_interval,
    }
}

/// What counts as typical is what occurs in the list at least as often as wanted.
pub proof fn law_typical_is_frequent<T>(s: Seq<T>, threshold: u32, x: T)
    ensures
        typical(s, threshold).contains(x) <==> s.contains(x) && occurrences(s, x) >= threshold,
{
    let p = |y: T| occurrences(s, y) >= threshold;
    lemma_distinct(s);
    lemma_filter_contains(distinct(s), p, x);
    assert(distinct(s).contains(x) <==> s.contains(x));
}

/// A filter keeps what passes it.
pub proof fn lemma_filter_contains<T>(s: Seq<T>, p: spec_fn(T) -> bool, x: T)
    ensures
        s.filter(p).contains(x) <==> s.contains(x) && p(x),
    decreases s.len(),
{
    reveal(Seq::filter);
    if s.len() > 0 {
        let front = s.drop_last();
        let last = s.last();
        lemma_filter_contains(front, p, x);
        if s.contains(x) {
            let i = s.index_of(x);
            if i < front.len() {
                assert(front[i] == x);
                assert(front.contains(x));
            }
        }
        if front.contains(x) {
            let i = front.index_of(x);
            assert(s[i] == x);
        }
        if s.contains(x) && p(x) {
            if front.contains(x) {
                let j = front.filter(p).index_of(x);
                assert(s.filter(p)[j] == x);
            } else {
                assert(s.filter(p)[front.filter(p).len() as int] == x);
            }
        }
        if s.filter(p).contains(x) {
            let j = s.filter(p).index_of(x);
            if j < front.filter(p).len() {
                assert(front.filter(p)[j] == x);
                assert(front.filter(p).contains(x));
            } else {
                assert(s[s.len() - 1] == x);
            }
        }
    }
}

/// Up to 500 samples of an address stay as they are. Of more, the latest 400 stay, in their
/// order.
pub proof fn law_latest_samples_stay(s: Seq<SampleModel>)
    ensures
        s.len() <= 500 ==> trimmed_samples(s) == s,
        s.len() > 500 ==> trimmed_samples(s).len() == 400 && forall|i: int|
            0 <= i < 400 ==> #[trigger] trimmed_samples(s)[i] == s[s.len() - 400 + i],
{
}

/// A cleanup forgets an address exactly if its latest sample is more than seven days of
/// whole seconds old; one whose time cannot be read stays. Of those that stay no sample
/// goes but by the limit.
pub proof fn law_old_addresses_are_forgotten(
    m: Map<Seq<char>, Seq<SampleModel>>,
    clock: WallClock,
    ip: Seq<char>,
)
    ensures
        ({
            let after = samples_retained(m, clock);
            let time = civil_time(m[ip].last().timestamp, MILLIS_PATTERN@);
            &&& !m.contains_key(ip) || m[ip].len() == 0 ==> !after.contains_key(ip)
            &&& m.contains_key(ip) && m[ip].len() > 0 ==> (after.contains_key(ip) <==> (time is None
                || seconds_between(time->0, (clock.local(), clock.nanos)) <= 7 * 24 * 60 * 60))
            &&& after.contains_key(ip) && m[ip].len() <= 500 ==> after[ip] == m[ip]
            &&& after.contains_key(ip) && m[ip].len() > 500 ==> after[ip] == m[ip].skip(
                m[ip].len() - 400,
            )
        }),
{
}

/// The different values of a list are as many as its set of values, and each stands where
/// it occurs first: a value more is added at the end, unless it is there.
pub proof fn law_distinct_counts<T>(s: Seq<T>, x: T)
    ensures
        distinct(s).len() == s.to_set().len(),
        distinct(s.push(x)) == (if exists|i: int| 0 <= i < s.len() && #[trigger] s[i] == x {
            distinct(s)
        } else {
            distinct(s).push(x)
        }),
{
    lemma_distinct(s);
    distinct(s).unique_seq_to_set();
    assert forall|y: T| distinct(s).to_set().contains(y) <==> s.to_set().contains(y) by {
        assert(distinct(s).contains(y) <==> s.contains(y));
    }
    assert(distinct(s).to_set() =~= s.to_set());
    assert(s.push(x).drop_last() =~= s);
}

/// What is learnt of a device: an hour is typical exactly if it is the hour of a sample, and
/// of at least `threshold` samples; a port if it was open in a sample, and was found open at
/// least that often. Neither list repeats itself. The appearances are the samples, and the
/// days their different days of the week.
pub proof fn law_behaviour_shows_the_samples(
    ip: Seq<char>,
    s: Seq<SampleModel>,
    threshold: u32,
    avg_interval: u64,
    hour: u32,
    port: u16,
)
    requires
        0 < s.len() < 0x1_0000_0000,
    ensures
        ({
            let b = behavior_of(ip, s, threshold, avg_interval);
            &&& b.typical_hours.contains(hour) <==> (exists|i: int|
                0 <= i < s.len() && (#[trigger] s[i]).hour == hour) && s.map_values(
                |x: SampleModel| x.hour,
            ).to_multiset().count(hour) >= threshold
            &&& b.typical_ports.contains(port) <==> (exists|i: int|
                0 <= i < s.len() && (#[trigger] s[i]).open_ports.contains(port)) && port_count(
                s,
                port,
            ) >= threshold
            &&& b.typical_hours.no_duplicates()
            &&& b.typical_ports.no_duplicates()
            &&& b.appearance_count == s.len()
            &&& b.unique_days == s.map_values(|x: SampleModel| x.day_of_week).to_set().len()
            &&& b.first_seen == s[0].timestamp
            &&& b.last_seen == s[s.len() - 1].timestamp
            &&& b.ip == ip
            &&& b.avg_interval_minutes == avg_interval
        }),
{
    let hours = sample_hours(s);
    let ports = sample_ports(s);
    let days = sample_days(s);
    assert(hours =~= s.map_values(|x: SampleModel| x.hour));
    assert(days =~= s.map_values(|x: SampleModel| x.day_of_week));
    law_typical_is_frequent(hours, threshold, hour);
    law_typical_is_frequent(ports, threshold, port);
    lemma_port_count(s, port);
    if hours.contains(hour) {
        let i = hours.index_of(hour);
        assert(s[i].hour == hour);
    }
    if exists|i: int| 0 <= i < s.len() && (#[trigger] s[i]).hour == hour {
        let i = choose|i: int| 0 <= i < s.len() && (#[trigger] s[i]).hour == hour;
        assert(hours[i] == hour);
    }
    lemma_distinct(hours);
    lemma_distinct(ports);
    lemma_filter_no_duplicates(distinct(hours), |x: u32| occurrences(hours, x) >= threshold);
    lemma_filter_no_duplicates(distinct(ports), |x: u16| occurrences(ports, x) >= threshold);
    law_distinct_counts(days, 0);
    lemma_distinct_len(days);
}

/// How often a port was found open in the samples.
pub open spec fn port_count(s: Seq<SampleModel>, port: u16) -> nat
    decreases s.len(),
{
    if s.len() == 0 {
        0
    } else {
        port_count(s.skip(1), port) + s[0].open_ports.to_multiset().count(port)
    }
}

proof fn lemma_distinct_len<T>(s: Seq<T>)
    ensures
        distinct(s).len() <= s.len(),
    decreases s.len(),
{
    if s.len() > 0 {
        lemma_distinct_len(s.drop_last());
    }
}

proof fn lemma_filter_no_duplicates<T>(s: Seq<T>, p: spec_fn(T) -> bool)
    requires
        s.no_duplicates(),
    ensures
        s.filter(p).no_duplicates(),
    decreases s.len(),
{
    reveal(Seq::filter);
    if s.len() > 0 {
        let front = s.drop_last();
        let last = s.last();
        lemma_filter_no_duplicates(front, p);
        lemma_filter_contains(front, p, last);
        if front.contains(last) {
            let i = front.index_of(last);
            assert(s[i] == s[s.len() - 1]);
        }
        let kept = front.filter(p);
        assert forall|i: int| 0 <= i < kept.len() implies kept[i] != last by {
            if kept[i] == last {
                assert(kept.contains(last));
            }
        }
    }
}

proof fn lemma_ports_split(a: Seq<SampleModel>, b: Seq<SampleModel>)
    ensures
        sample_ports(a + b) == sample_ports(a) + sample_ports(b),
    decreases b.len(),
{
    if b.len() == 0 {
        assert(a + b =~= a);
        assert(sample_ports(a) + sample_ports(b) =~= sample_ports(a));
    } else {
        assert((a + b).drop_last() =~= a + b.drop_last());
        lemma_ports_split(a, b.drop_last());
        assert(sample_ports(a + b) =~= sample_ports(a) + sample_ports(b));
    }
}

proof fn lemma_port_count(s: Seq<SampleModel>, port: u16)
    ensures
        occurrences(sample_ports(s), port) == port_count(s, port),
        sample_ports(s).contains(port) <==> exists|i: int|
            0 <= i < s.len() && (#[trigger] s[i]).open_ports.contains(port),
    decreases s.len(),
{
    broadcast use vstd::seq_lib::group_to_multiset_ensures;

    if s.len() > 0 {
        let first = seq![s[0]];
        let rest = s.skip(1);
        assert(first + rest =~= s);
        lemma_ports_split(first, rest);
        assert(first.drop_last() =~= Seq::<SampleModel>::empty());
        assert(sample_ports(first) =~= s[0].open_ports) by {
            reveal_with_fuel(sample_ports, 2);
        }
        lemma_port_count(rest, port);
        vstd::seq_lib::lemma_multiset_commutative(s[0].open_ports, sample_ports(rest));
        let here = s[0].open_ports;
        let there = sample_ports(rest);
        let all = sample_ports(s);
        assert(all =~= here + there);
        if all.contains(port) {
            let k = all.index_of(port);
            if k < here.len() {
                assert(here[k] == port);
                assert(s[0].open_ports.contains(port));
            } else {
                assert(there[k - here.len()] == port);
                let i = choose|i: int|
                    0 <= i < rest.len() && (#[trigger] rest[i]).open_ports.contains(port);
                assert(s[i + 1].open_ports.contains(port));
            }
        }
        if exists|i: int| 0 <= i < s.len() && (#[trigger] s[i]).open_ports.contains(port) {
            let i = choose|i: int| 0 <= i < s.len() && (#[trigger] s[i]).open_ports.contains(port);
            if i == 0 {
                let k = here.index_of(port);
                assert(all[k] == port);
            } else {
                assert(rest[i - 1].open_ports.contains(port));
                let k = there.index_of(port);
                assert(all[here.len() + k] == port);
            }
        }
    }
}

/// Only the times that go forward by a second or more count for the average: each adds one
/// to their number and its whole seconds to their sum. A first time alone counts nothing.
pub proof fn law_intervals_add_up(times: Seq<(i64, u32)>, t: (i64, u32))
    ensures
        times.len() == 0 ==> intervals(times.push(t)) == (0nat, 0nat),
        times.len() > 0 ==> ({
            let (count, sum) = intervals(times);
            let d = seconds_between(times[times.len() - 1], t);
            &&& d >= 1 ==> intervals(times.push(t)).0 == count + 1 && intervals(times.push(t)).1
                == sum + d
            &&& d < 1 ==> intervals(times.push(t)) == (count, sum)
        }),
{
    assert(times.push(t).drop_last() =~= times);
}

} // verus!
